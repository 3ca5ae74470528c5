use dupfinder::transfer::{
    copy_step, move_step, CopyAction, CopyEvent, CopyFailure, CopyPhase, MoveAction, MoveEvent,
    MoveOutcome, MovePhase, OsFamily,
};

fn run_copy(events: &[CopyEvent]) -> Vec<CopyAction> {
    let mut phase = CopyPhase::Idle;
    let mut actions = Vec::new();
    for &e in events {
        let (next, action) = copy_step(phase, e);
        phase = next;
        actions.push(action);
    }
    actions
}

fn run_move(events: &[MoveEvent], family: OsFamily) -> Vec<MoveAction> {
    let mut phase = MovePhase::Idle;
    let mut actions = Vec::new();
    for &e in events {
        let (next, action) = move_step(phase, e, family);
        phase = next;
        actions.push(action);
    }
    actions
}

#[test]
fn copy_runs_block_by_block_then_flushes_and_stamps() {
    let actions = run_copy(&[
        CopyEvent::Start,
        CopyEvent::Opened,
        CopyEvent::StopFlag { set: false },
        CopyEvent::Read { len: 65536 },
        CopyEvent::Written,
        CopyEvent::StopFlag { set: false },
        CopyEvent::Read { len: 100 },
        CopyEvent::Written,
        CopyEvent::StopFlag { set: false },
        CopyEvent::Read { len: 0 },
        CopyEvent::Flushed,
        CopyEvent::Stamped,
    ]);
    assert_eq!(
        actions,
        vec![
            CopyAction::OpenBoth,
            CopyAction::CheckStop,
            CopyAction::ReadBlock,
            CopyAction::WriteBlock { len: 65536 },
            CopyAction::CheckStop,
            CopyAction::ReadBlock,
            CopyAction::WriteBlock { len: 100 },
            CopyAction::CheckStop,
            CopyAction::ReadBlock,
            CopyAction::Flush,
            CopyAction::CopyModificationTime,
            CopyAction::Succeed,
        ]
    );
}

#[test]
fn stopped_copy_removes_the_half_file_before_failing() {
    let actions = run_copy(&[
        CopyEvent::Start,
        CopyEvent::Opened,
        CopyEvent::StopFlag { set: false },
        CopyEvent::Read { len: 10 },
        CopyEvent::Written,
        CopyEvent::StopFlag { set: true },
        CopyEvent::DestinationRemoved,
    ]);
    assert_eq!(actions[5], CopyAction::RemoveDestination);
    assert_eq!(
        actions[6],
        CopyAction::Fail {
            reason: CopyFailure::Interrupted
        }
    );
}

#[test]
fn failed_write_removes_the_half_file() {
    let actions = run_copy(&[
        CopyEvent::Start,
        CopyEvent::Opened,
        CopyEvent::StopFlag { set: false },
        CopyEvent::Read { len: 10 },
        CopyEvent::WriteFailed,
        CopyEvent::DestinationRemoved,
    ]);
    assert_eq!(actions[4], CopyAction::RemoveDestination);
    assert_eq!(
        actions[5],
        CopyAction::Fail {
            reason: CopyFailure::IoError
        }
    );
    let open_failed = run_copy(&[CopyEvent::Start, CopyEvent::OpenFailed]);
    assert_eq!(open_failed[1], CopyAction::RemoveDestination);
}

#[test]
fn out_of_place_events_are_ignored() {
    let actions = run_copy(&[CopyEvent::Written, CopyEvent::Start, CopyEvent::Stamped]);
    assert_eq!(
        actions,
        vec![CopyAction::Ignore, CopyAction::OpenBoth, CopyAction::Ignore]
    );
}

#[test]
fn plain_rename_moves() {
    let actions = run_move(
        &[MoveEvent::Start { dry_run: false }, MoveEvent::Renamed],
        OsFamily::Unix,
    );
    assert_eq!(
        actions,
        vec![
            MoveAction::Rename,
            MoveAction::Finish {
                outcome: MoveOutcome::Moved
            }
        ]
    );
}

#[test]
fn other_device_falls_back_to_copy_then_remove() {
    let actions = run_move(
        &[
            MoveEvent::Start { dry_run: false },
            MoveEvent::RenameFailed { os_code: Some(18) },
            MoveEvent::Copied,
            MoveEvent::SourceRemoved,
        ],
        OsFamily::Unix,
    );
    assert_eq!(
        actions,
        vec![
            MoveAction::Rename,
            MoveAction::Copy,
            MoveAction::RemoveSource,
            MoveAction::Finish {
                outcome: MoveOutcome::MovedByCopy
            }
        ]
    );
}

#[test]
fn missing_permission_stays_an_error() {
    let actions = run_move(
        &[
            MoveEvent::Start { dry_run: false },
            MoveEvent::RenameFailed { os_code: Some(13) },
        ],
        OsFamily::Unix,
    );
    assert_eq!(
        actions[1],
        MoveAction::Finish {
            outcome: MoveOutcome::RenameFailed
        }
    );
    // 18 is no device boundary on Windows
    let windows = run_move(
        &[
            MoveEvent::Start { dry_run: false },
            MoveEvent::RenameFailed { os_code: Some(18) },
        ],
        OsFamily::Windows,
    );
    assert_eq!(
        windows[1],
        MoveAction::Finish {
            outcome: MoveOutcome::RenameFailed
        }
    );
}

#[test]
fn failed_copy_leaves_the_original_alone() {
    let actions = run_move(
        &[
            MoveEvent::Start { dry_run: false },
            MoveEvent::RenameFailed { os_code: Some(17) },
            MoveEvent::CopyFailed,
        ],
        OsFamily::Windows,
    );
    assert_eq!(actions[1], MoveAction::Copy);
    assert_eq!(
        actions[2],
        MoveAction::Finish {
            outcome: MoveOutcome::CopyFailed
        }
    );
    assert!(!actions.contains(&MoveAction::RemoveSource));
}

#[test]
fn undeletable_original_takes_the_copy_back() {
    let actions = run_move(
        &[
            MoveEvent::Start { dry_run: false },
            MoveEvent::RenameFailed { os_code: Some(18) },
            MoveEvent::Copied,
            MoveEvent::SourceRemoveFailed,
            MoveEvent::CopyRemoved,
        ],
        OsFamily::Unix,
    );
    assert_eq!(actions[3], MoveAction::RemoveCopy);
    assert_eq!(
        actions[4],
        MoveAction::Finish {
            outcome: MoveOutcome::SourceNotRemovable
        }
    );
}

#[test]
fn dry_run_only_plans() {
    let actions = run_move(&[MoveEvent::Start { dry_run: true }], OsFamily::Unix);
    assert_eq!(
        actions,
        vec![MoveAction::Finish {
            outcome: MoveOutcome::Planned
        }]
    );
}
