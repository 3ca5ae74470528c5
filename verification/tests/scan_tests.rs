use dupfinder::scan::{EntryKind, ScanAction, ScanState, VisitedDirs};

fn dir(key: &str) -> EntryKind {
    EntryKind::Directory {
        key: key.as_bytes().to_vec(),
    }
}

#[test]
fn link_back_to_an_ancestor_is_cut() {
    // root/unten/a.txt and root/unten/zurueck -> root
    let mut state = ScanState::new(b"/tmp/loop".to_vec());
    assert_eq!(state.scan_entry(false, false, dir("/tmp/loop/unten")), ScanAction::Descend);
    assert_eq!(
        state.scan_entry(false, false, EntryKind::File { size: Some(5) }),
        ScanAction::RecordFile { file: 0 }
    );
    assert_eq!(state.scan_entry(false, false, dir("/tmp/loop")), ScanAction::CutLoop);
    assert_eq!(state.file_count(), 1);
}

#[test]
fn second_path_to_a_directory_counts_once() {
    // root/echt/a.txt and root/auchecht -> root/echt
    let mut state = ScanState::new(b"/r".to_vec());
    assert_eq!(state.scan_entry(false, false, dir("/r/echt")), ScanAction::Descend);
    assert_eq!(
        state.scan_entry(false, false, EntryKind::File { size: Some(6) }),
        ScanAction::RecordFile { file: 0 }
    );
    assert_eq!(state.scan_entry(false, false, dir("/r/echt")), ScanAction::CutLoop);
    assert_eq!(state.file_count(), 1);
    assert_eq!(state.file_sizes, vec![6]);
}

#[test]
fn stop_duplicates_dir_and_empty_files() {
    let mut state = ScanState::new(b"/r".to_vec());
    assert_eq!(state.scan_entry(true, false, dir("/r/x")), ScanAction::Abort);
    assert_eq!(
        state.scan_entry(false, true, EntryKind::File { size: Some(9) }),
        ScanAction::SkipDuplicatesDir
    );
    assert_eq!(
        state.scan_entry(false, false, EntryKind::File { size: Some(0) }),
        ScanAction::Ignore
    );
    assert_eq!(
        state.scan_entry(false, false, EntryKind::File { size: None }),
        ScanAction::Ignore
    );
    assert_eq!(state.scan_entry(false, false, EntryKind::Other), ScanAction::Ignore);
    assert_eq!(state.file_count(), 0);
    // the aborted directory was not entered
    assert!(!state.visited.contains(b"/r/x"));
}

#[test]
fn visited_dirs_behave_like_a_set() {
    let mut v = VisitedDirs::new();
    assert!(!v.contains(b"a"));
    assert!(v.insert(b"a".to_vec()));
    assert!(v.insert(b"ab".to_vec()));
    assert!(v.insert(Vec::new()));
    assert!(!v.insert(b"a".to_vec()));
    assert!(v.contains(b"a"));
    assert!(v.contains(b"ab"));
    assert!(v.contains(b""));
    assert!(!v.contains(b"b"));
    for i in 0..500u32 {
        assert!(v.insert(format!("/d/{}", i).into_bytes()));
    }
    for i in 0..500u32 {
        assert!(!v.insert(format!("/d/{}", i).into_bytes()));
    }
}
