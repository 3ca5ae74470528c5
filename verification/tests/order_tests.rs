use dupfinder::order::oldest_first;

#[test]
fn oldest_first_is_a_stable_sort_by_mtime() {
    let mtimes: Vec<u64> = vec![500, 300, 300, 900, 100];
    assert_eq!(oldest_first(&mtimes), vec![4, 1, 2, 0, 3]);
}

#[test]
fn equally_old_files_keep_their_order() {
    let mtimes: Vec<u64> = vec![0, 0, 0];
    assert_eq!(oldest_first(&mtimes), vec![0, 1, 2]);
    assert!(oldest_first(&Vec::new()).is_empty());
}

#[test]
fn the_kept_file_is_the_oldest() {
    let mtimes: Vec<u64> = vec![1_700_000_000, 1_600_000_000, 1_650_000_000];
    let order = oldest_first(&mtimes);
    assert_eq!(order[0], 1);
    assert_eq!(&order[1..], &[2, 0]);
}
