use dupfinder::digest::{digest_hex, Md5Stream};

fn md5_hex_of(chunks: &[&[u8]]) -> String {
    let mut stream = Md5Stream::new();
    for chunk in chunks {
        stream.feed(chunk);
    }
    digest_hex(stream.finish())
}

#[test]
fn md5_of_nothing_is_the_known_digest() {
    assert_eq!(md5_hex_of(&[]), "d41d8cd98f00b204e9800998ecf8427e");
}

#[test]
fn md5_of_abc_is_the_known_digest() {
    assert_eq!(md5_hex_of(&[b"abc"]), "900150983cd24fb0d6963f7d28e17f72");
    assert_eq!(
        md5_hex_of(&[b"abcdefghijklmnopqrstuvwxyz"]),
        "c3fcd3d76192e4007dfb496cca67e13b"
    );
}

#[test]
fn digest_does_not_depend_on_how_the_input_is_cut() {
    let data: Vec<u8> = (0..20_000u32).map(|i| (i % 251) as u8).collect();
    let whole = md5_hex_of(&[&data]);
    let blocks: Vec<&[u8]> = data.chunks(8192).collect();
    assert_eq!(md5_hex_of(&blocks), whole);
    let odd: Vec<&[u8]> = data.chunks(7).collect();
    assert_eq!(md5_hex_of(&odd), whole);
}

#[test]
fn files_differing_only_in_the_last_byte_hash_differently() {
    let a = vec![0x5au8; 100 * 1024];
    let mut b = a.clone();
    *b.last_mut().unwrap() = 0x5b;
    let blocks_a: Vec<&[u8]> = a.chunks(8192).collect();
    let blocks_b: Vec<&[u8]> = b.chunks(8192).collect();
    assert_ne!(md5_hex_of(&blocks_a), md5_hex_of(&blocks_b));
}

#[test]
fn digest_hex_writes_32_lower_case_digits() {
    assert_eq!(digest_hex(0), "00000000000000000000000000000000");
    assert_eq!(
        digest_hex(0x0123456789abcdef_fedcba9876543210u128),
        "0123456789abcdeffedcba9876543210"
    );
    assert_eq!(digest_hex(u128::MAX), "ffffffffffffffffffffffffffffffff");
}

#[test]
fn digest_hex_matches_the_md5_crate() {
    let data = b"Duplikat-Finder";
    let expected = format!("{:x}", md5::compute(data));
    assert_eq!(md5_hex_of(&[data]), expected);
}
