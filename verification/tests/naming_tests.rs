use dupfinder::naming::{conflict_name, split_file_name};
use std::path::Path;

#[test]
fn conflict_names_count_before_the_extension() {
    assert_eq!(conflict_name("foto", 1, Some("jpg")), "foto_1.jpg");
    assert_eq!(conflict_name("foto", 12, Some("jpg")), "foto_12.jpg");
    assert_eq!(conflict_name("README", 3, None), "README_3");
    assert_eq!(conflict_name("x", 18446744073709551615, Some("")), "x_18446744073709551615.");
    assert_eq!(conflict_name("Bild", 0, Some("png")), "Bild_0.png");
}

fn std_split(name: &str) -> (String, Option<String>) {
    let p = Path::new(name);
    (
        p.file_stem().unwrap_or_default().to_string_lossy().to_string(),
        p.extension().map(|e| e.to_string_lossy().to_string()),
    )
}

#[test]
fn split_file_name_matches_path_semantics() {
    for name in [
        "a.tar.gz", ".bashrc", "foo.", "noext", "ä.txt", "x.y", "a..b", ".a.b", "", "...",
    ] {
        assert_eq!(split_file_name(name), std_split(name), "{}", name);
    }
    assert_eq!(
        split_file_name("a.tar.gz"),
        ("a.tar".to_string(), Some("gz".to_string()))
    );
    assert_eq!(split_file_name(".bashrc"), (".bashrc".to_string(), None));
    // `..` is no file name for `Path`; split on its own it stays whole
    assert_eq!(split_file_name(".."), ("..".to_string(), None));
    assert_eq!(split_file_name("foo."), ("foo".to_string(), Some(String::new())));
}
