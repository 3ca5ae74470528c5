use dupfinder::grouping::{find_duplicate_sets, group_by_key, hash_candidates};

#[test]
fn groups_keep_first_appearance_and_input_order() {
    let entries: Vec<(u128, usize)> = vec![(7, 0), (3, 1), (7, 2), (9, 3), (3, 4), (7, 5)];
    let groups = group_by_key(&entries);
    let view: Vec<(u128, Vec<usize>)> = groups.iter().map(|g| (g.key, g.members.clone())).collect();
    assert_eq!(
        view,
        vec![(7, vec![0, 2, 5]), (3, vec![1, 4]), (9, vec![3])]
    );
}

#[test]
fn only_files_sharing_a_size_are_hashed() {
    // file number = position; sizes 10 and 20 occur twice, 30 once
    let sizes: Vec<u64> = vec![10, 20, 10, 30, 20];
    assert_eq!(hash_candidates(&sizes), vec![0, 2, 1, 4]);
}

#[test]
fn unique_sizes_need_no_hashing() {
    let sizes: Vec<u64> = vec![1, 2, 3];
    assert!(hash_candidates(&sizes).is_empty());
    assert!(hash_candidates(&Vec::new()).is_empty());
}

#[test]
fn duplicate_sets_and_their_count() {
    let hashed: Vec<(usize, Option<u128>)> = vec![
        (4, Some(0xaa)),
        (7, Some(0xbb)),
        (9, Some(0xaa)),
        (11, None),
        (12, Some(0xcc)),
        (13, Some(0xaa)),
        (15, Some(0xbb)),
    ];
    let d = find_duplicate_sets(&hashed);
    let view: Vec<(u128, Vec<usize>)> = d.sets.iter().map(|g| (g.key, g.members.clone())).collect();
    assert_eq!(view, vec![(0xaa, vec![4, 9, 13]), (0xbb, vec![7, 15])]);
    // two beyond the first of 0xaa, one beyond the first of 0xbb
    assert_eq!(d.found, 3);
}

#[test]
fn unreadable_files_are_never_duplicates_of_each_other() {
    let hashed: Vec<(usize, Option<u128>)> = vec![(0, None), (1, None), (2, Some(5))];
    let d = find_duplicate_sets(&hashed);
    assert!(d.sets.is_empty());
    assert_eq!(d.found, 0);
}
