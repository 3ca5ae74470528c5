use vstd::prelude::*;

verus! {

/// The operating-system family the program was built for.
///
/// The same kind of failure carries a different raw error number on each.
#[derive(Clone, Copy, Debug, PartialEq, Eq, Structural)]
pub enum OsFamily {
    Unix,
    Windows,
    Other,
}

/// The raw error number that says "source and target lie on different
/// devices" (EXDEV on Unix, ERROR_NOT_SAME_DEVICE on Windows).
pub open spec fn cross_device_code(family: OsFamily) -> Option<i32> {
    match family {
        OsFamily::Unix => Some(18i32),
        OsFamily::Windows => Some(17i32),
        OsFamily::Other => None,
    }
}

/// Whether a failed rename means "that is another disk".
///
/// Only this one failure may fall back to copy-then-delete; any other error,
/// a missing permission for instance, stays an error.
pub fn is_cross_device(os_code: Option<i32>, family: OsFamily) -> (r: bool)
    ensures
        r <==> (os_code.is_some() && cross_device_code(family) == os_code),
        r == is_device_boundary(os_code, family),
{
    match (os_code, family) {
        (Some(18), OsFamily::Unix) => true,
        (Some(17), OsFamily::Windows) => true,
        _ => false,
    }
}

// ---------------------------------------------------------------------------
// Copying a file block by block
// ---------------------------------------------------------------------------

/// Where a block-wise copy stands.
#[derive(Clone, Copy, Debug, PartialEq, Eq, Structural)]
pub enum CopyPhase {
    /// Nothing done yet.
    Idle,
    /// The source and the destination are being opened.
    Opening,
    /// The stop flag is being looked at, before the next block is read.
    CheckingStop,
    /// A block is being read from the source.
    Reading,
    /// A block of this length is being written to the destination.
    Writing { len: usize },
    /// The destination is being flushed.
    Flushing,
    /// The source's modification time is being carried over.
    Stamping,
    /// The half-written destination is being removed; then the copy fails
    /// for this reason.
    CleaningUp { reason: CopyFailure },
    /// The copy is over.
    Finished,
}

/// Why a copy failed.
#[derive(Clone, Copy, Debug, PartialEq, Eq, Structural)]
pub enum CopyFailure {
    /// The user asked to stop.
    Interrupted,
    /// Opening, reading, writing or flushing failed.
    IoError,
}

/// What the outside world reports back to a copy.
#[derive(Clone, Copy, Debug, PartialEq, Eq, Structural)]
pub enum CopyEvent {
    Start,
    Opened,
    OpenFailed,
    StopFlag { set: bool },
    Read { len: usize },
    ReadFailed,
    Written,
    WriteFailed,
    Flushed,
    FlushFailed,
    /// The modification time was carried over, or could not be: either way.
    Stamped,
    DestinationRemoved,
}

/// What a copy asks the outside world to do next.
#[derive(Clone, Copy, Debug, PartialEq, Eq, Structural)]
pub enum CopyAction {
    OpenBoth,
    CheckStop,
    ReadBlock,
    /// Write the first `len` bytes of the block just read.
    WriteBlock { len: usize },
    Flush,
    /// Give the destination the source's modification time, so that the copy
    /// does not look younger than the file it replaces.
    CopyModificationTime,
    /// Remove the half-written destination.
    RemoveDestination,
    /// The copy is complete.
    Succeed,
    /// The copy failed; the destination is gone.
    Fail { reason: CopyFailure },
    /// The event does not belong to this phase: nothing to do.
    Ignore,
}

/// The copy protocol as a transition table. It never touches the source, and
/// it reports failure only once the half-written destination is removed.
pub open spec fn copy_transition(phase: CopyPhase, event: CopyEvent) -> (CopyPhase, CopyAction) {
    match (phase, event) {
        (CopyPhase::Idle, CopyEvent::Start) => (CopyPhase::Opening, CopyAction::OpenBoth),
        (CopyPhase::Opening, CopyEvent::Opened) => (CopyPhase::CheckingStop, CopyAction::CheckStop),
        (CopyPhase::Opening, CopyEvent::OpenFailed) => (
            CopyPhase::CleaningUp { reason: CopyFailure::IoError },
            CopyAction::RemoveDestination,
        ),
        (CopyPhase::CheckingStop, CopyEvent::StopFlag { set }) => if set {
            (CopyPhase::CleaningUp { reason: CopyFailure::Interrupted }, CopyAction::RemoveDestination)
        } else {
            (CopyPhase::Reading, CopyAction::ReadBlock)
        },
        (CopyPhase::Reading, CopyEvent::Read { len }) => if len == 0 {
            (CopyPhase::Flushing, CopyAction::Flush)
        } else {
            (CopyPhase::Writing { len }, CopyAction::WriteBlock { len })
        },
        (CopyPhase::Reading, CopyEvent::ReadFailed) => (
            CopyPhase::CleaningUp { reason: CopyFailure::IoError },
            CopyAction::RemoveDestination,
        ),
        (CopyPhase::Writing { .. }, CopyEvent::Written) => (CopyPhase::CheckingStop, CopyAction::CheckStop),
        (CopyPhase::Writing { .. }, CopyEvent::WriteFailed) => (
            CopyPhase::CleaningUp { reason: CopyFailure::IoError },
            CopyAction::RemoveDestination,
        ),
        (CopyPhase::Flushing, CopyEvent::Flushed) => (CopyPhase::Stamping, CopyAction::CopyModificationTime),
        (CopyPhase::Flushing, CopyEvent::FlushFailed) => (
            CopyPhase::CleaningUp { reason: CopyFailure::IoError },
            CopyAction::RemoveDestination,
        ),
        (CopyPhase::Stamping, CopyEvent::Stamped) => (CopyPhase::Finished, CopyAction::Succeed),
        (CopyPhase::CleaningUp { reason }, CopyEvent::DestinationRemoved) => (
            CopyPhase::Finished,
            CopyAction::Fail { reason },
        ),
        _ => (phase, CopyAction::Ignore),
    }
}

/// One step of copying a file in blocks, checking the stop flag before each
/// block: the next phase and what to do.
pub fn copy_step(phase: CopyPhase, event: CopyEvent) -> (r: (CopyPhase, CopyAction))
    ensures
        r == copy_transition(phase, event),
{
    match (phase, event) {
        (CopyPhase::Idle, CopyEvent::Start) => (CopyPhase::Opening, CopyAction::OpenBoth),
        (CopyPhase::Opening, CopyEvent::Opened) => (CopyPhase::CheckingStop, CopyAction::CheckStop),
        (CopyPhase::Opening, CopyEvent::OpenFailed) => (
            CopyPhase::CleaningUp { reason: CopyFailure::IoError },
            CopyAction::RemoveDestination,
        ),
        (CopyPhase::CheckingStop, CopyEvent::StopFlag { set }) => {
            if set {
                (
                    CopyPhase::CleaningUp { reason: CopyFailure::Interrupted },
                    CopyAction::RemoveDestination,
                )
            } else {
                (CopyPhase::Reading, CopyAction::ReadBlock)
            }
        },
        (CopyPhase::Reading, CopyEvent::Read { len }) => {
            if len == 0 {
                (CopyPhase::Flushing, CopyAction::Flush)
            } else {
                (CopyPhase::Writing { len }, CopyAction::WriteBlock { len })
            }
        },
        (CopyPhase::Reading, CopyEvent::ReadFailed) => (
            CopyPhase::CleaningUp { reason: CopyFailure::IoError },
            CopyAction::RemoveDestination,
        ),
        (CopyPhase::Writing { .. }, CopyEvent::Written) => (
            CopyPhase::CheckingStop,
            CopyAction::CheckStop,
        ),
        (CopyPhase::Writing { .. }, CopyEvent::WriteFailed) => (
            CopyPhase::CleaningUp { reason: CopyFailure::IoError },
            CopyAction::RemoveDestination,
        ),
        (CopyPhase::Flushing, CopyEvent::Flushed) => (
            CopyPhase::Stamping,
            CopyAction::CopyModificationTime,
        ),
        (CopyPhase::Flushing, CopyEvent::FlushFailed) => (
            CopyPhase::CleaningUp { reason: CopyFailure::IoError },
            CopyAction::RemoveDestination,
        ),
        (CopyPhase::Stamping, CopyEvent::Stamped) => (CopyPhase::Finished, CopyAction::Succeed),
        (CopyPhase::CleaningUp { reason }, CopyEvent::DestinationRemoved) => (
            CopyPhase::Finished,
            CopyAction::Fail { reason },
        ),
        _ => (phase, CopyAction::Ignore),
    }
}

/// A copy that is stopped, or fails anywhere before it is complete, removes
/// its half-written destination before it reports the failure: no damaged
/// file is left that looks like a rescued duplicate.
pub proof fn lemma_failed_copy_cleans_up(phase: CopyPhase, event: CopyEvent)
    ensures
        copy_transition(phase, event).1 is Fail ==> phase is CleaningUp && event
            == CopyEvent::DestinationRemoved,
        phase is CleaningUp ==> copy_transition(phase, event).1 is Fail || copy_transition(
            phase,
            event,
        ).1 == CopyAction::Ignore,
        (event == (CopyEvent::StopFlag { set: true }) && phase == CopyPhase::CheckingStop)
            ==> copy_transition(phase, event) == (
            CopyPhase::CleaningUp { reason: CopyFailure::Interrupted },
            CopyAction::RemoveDestination,
        ),
{
}

/// A copy succeeds only after the destination was flushed, and it never
/// reads a further block once the stop flag was found set; a block is
/// written with exactly the length that was read.
pub proof fn lemma_copy_succeeds_only_when_flushed(phase: CopyPhase, event: CopyEvent)
    ensures
        copy_transition(phase, event).1 == CopyAction::Succeed ==> phase == CopyPhase::Stamping,
        copy_transition(phase, event).0 == CopyPhase::Stamping && phase != CopyPhase::Stamping
            ==> phase == CopyPhase::Flushing && event == CopyEvent::Flushed,
        copy_transition(phase, event).1 == CopyAction::ReadBlock ==> phase
            == CopyPhase::CheckingStop && event == (CopyEvent::StopFlag { set: false }),
        forall|len: usize|
            copy_transition(phase, event).1 == (CopyAction::WriteBlock { len }) ==> len > 0 && phase
                == CopyPhase::Reading && event == (CopyEvent::Read { len }),
{
}

// ---------------------------------------------------------------------------
// Moving a duplicate out of the way
// ---------------------------------------------------------------------------

/// Where the move of one duplicate stands.
#[derive(Clone, Copy, Debug, PartialEq, Eq, Structural)]
pub enum MovePhase {
    Idle,
    /// The duplicate is being renamed into the duplicates directory.
    Renaming,
    /// The rename crossed devices; the duplicate is being copied instead.
    Copying,
    /// The copy is complete; the original is being removed.
    RemovingSource,
    /// The original could not be removed; the copy is being taken back.
    RemovingCopy,
    Finished,
}

/// What the outside world reports back to a move.
#[derive(Clone, Copy, Debug, PartialEq, Eq, Structural)]
pub enum MoveEvent {
    /// Start moving, or only planning to move if this is a dry run.
    Start { dry_run: bool },
    Renamed,
    RenameFailed { os_code: Option<i32> },
    Copied,
    CopyFailed,
    SourceRemoved,
    SourceRemoveFailed,
    /// The copy was taken back (or an attempt was made).
    CopyRemoved,
}

/// How the move of one duplicate ended.
#[derive(Clone, Copy, Debug, PartialEq, Eq, Structural)]
pub enum MoveOutcome {
    /// Dry run: the file would have been moved.
    Planned,
    /// Renamed into the duplicates directory.
    Moved,
    /// Copied to another device, then removed from its old place.
    MovedByCopy,
    /// The rename failed for another reason than a device boundary.
    RenameFailed,
    /// The copy to the other device failed; the original is untouched.
    CopyFailed,
    /// The copy was made but the original could not be removed; the copy
    /// was taken back, so the file exists once, where it was.
    SourceNotRemovable,
}

/// What a move asks the outside world to do next.
#[derive(Clone, Copy, Debug, PartialEq, Eq, Structural)]
pub enum MoveAction {
    Rename,
    /// Copy the duplicate to its destination, block by block.
    Copy,
    RemoveSource,
    RemoveCopy,
    Finish { outcome: MoveOutcome },
    /// The event does not belong to this phase: nothing to do.
    Ignore,
}

/// The move protocol as a transition table: rename; if and only if the
/// rename fails because the target lies on another device, copy and then
/// remove the original; never remove the original before the copy is
/// complete, and never leave the file in both places.
pub open spec fn move_transition(phase: MovePhase, event: MoveEvent, family: OsFamily) -> (MovePhase, MoveAction) {
    match (phase, event) {
        (MovePhase::Idle, MoveEvent::Start { dry_run }) => if dry_run {
            (MovePhase::Finished, MoveAction::Finish { outcome: MoveOutcome::Planned })
        } else {
            (MovePhase::Renaming, MoveAction::Rename)
        },
        (MovePhase::Renaming, MoveEvent::Renamed) => (
            MovePhase::Finished,
            MoveAction::Finish { outcome: MoveOutcome::Moved },
        ),
        (MovePhase::Renaming, MoveEvent::RenameFailed { os_code }) => if os_code.is_some()
            && cross_device_code(family) == os_code {
            (MovePhase::Copying, MoveAction::Copy)
        } else {
            (MovePhase::Finished, MoveAction::Finish { outcome: MoveOutcome::RenameFailed })
        },
        (MovePhase::Copying, MoveEvent::Copied) => (MovePhase::RemovingSource, MoveAction::RemoveSource),
        (MovePhase::Copying, MoveEvent::CopyFailed) => (
            MovePhase::Finished,
            MoveAction::Finish { outcome: MoveOutcome::CopyFailed },
        ),
        (MovePhase::RemovingSource, MoveEvent::SourceRemoved) => (
            MovePhase::Finished,
            MoveAction::Finish { outcome: MoveOutcome::MovedByCopy },
        ),
        (MovePhase::RemovingSource, MoveEvent::SourceRemoveFailed) => (
            MovePhase::RemovingCopy,
            MoveAction::RemoveCopy,
        ),
        (MovePhase::RemovingCopy, MoveEvent::CopyRemoved) => (
            MovePhase::Finished,
            MoveAction::Finish { outcome: MoveOutcome::SourceNotRemovable },
        ),
        _ => (phase, MoveAction::Ignore),
    }
}

/// One step of moving a duplicate: the next phase and what to do.
pub fn move_step(phase: MovePhase, event: MoveEvent, family: OsFamily) -> (r: (MovePhase, MoveAction))
    ensures
        r == move_transition(phase, event, family),
{
    match (phase, event) {
        (MovePhase::Idle, MoveEvent::Start { dry_run }) => {
            if dry_run {
                (MovePhase::Finished, MoveAction::Finish { outcome: MoveOutcome::Planned })
            } else {
                (MovePhase::Renaming, MoveAction::Rename)
            }
        },
        (MovePhase::Renaming, MoveEvent::Renamed) => (
            MovePhase::Finished,
            MoveAction::Finish { outcome: MoveOutcome::Moved },
        ),
        (MovePhase::Renaming, MoveEvent::RenameFailed { os_code }) => {
            if is_cross_device(os_code, family) {
                (MovePhase::Copying, MoveAction::Copy)
            } else {
                (MovePhase::Finished, MoveAction::Finish { outcome: MoveOutcome::RenameFailed })
            }
        },
        (MovePhase::Copying, MoveEvent::Copied) => (MovePhase::RemovingSource, MoveAction::RemoveSource),
        (MovePhase::Copying, MoveEvent::CopyFailed) => (
            MovePhase::Finished,
            MoveAction::Finish { outcome: MoveOutcome::CopyFailed },
        ),
        (MovePhase::RemovingSource, MoveEvent::SourceRemoved) => (
            MovePhase::Finished,
            MoveAction::Finish { outcome: MoveOutcome::MovedByCopy },
        ),
        (MovePhase::RemovingSource, MoveEvent::SourceRemoveFailed) => (
            MovePhase::RemovingCopy,
            MoveAction::RemoveCopy,
        ),
        (MovePhase::RemovingCopy, MoveEvent::CopyRemoved) => (
            MovePhase::Finished,
            MoveAction::Finish { outcome: MoveOutcome::SourceNotRemovable },
        ),
        _ => (phase, MoveAction::Ignore),
    }
}

/// The tool never deletes: the original of a duplicate is removed only as the
/// answer to a completed copy, a copy is made only when the rename failed
/// because of a device boundary, and a copy is taken back only when the
/// original could not be removed.
pub proof fn lemma_never_deletes(phase: MovePhase, event: MoveEvent, family: OsFamily)
    ensures
        move_transition(phase, event, family).1 == MoveAction::RemoveSource ==> phase
            == MovePhase::Copying && event == MoveEvent::Copied,
        move_transition(phase, event, family).1 == MoveAction::Copy ==> phase == MovePhase::Renaming
            && (exists|code: i32|
            event == (MoveEvent::RenameFailed { os_code: Some(code) }) && cross_device_code(family)
                == Some(code)),
        move_transition(phase, event, family).1 == MoveAction::RemoveCopy ==> phase
            == MovePhase::RemovingSource && event == MoveEvent::SourceRemoveFailed,
        move_transition(phase, event, family).1 == (MoveAction::Finish {
            outcome: MoveOutcome::MovedByCopy,
        }) ==> phase == MovePhase::RemovingSource && event == MoveEvent::SourceRemoved,
{
    if move_transition(phase, event, family).1 == MoveAction::Copy {
        match event {
            MoveEvent::RenameFailed { os_code } => {
                let code = os_code.unwrap();
                assert(event == (MoveEvent::RenameFailed { os_code: Some(code) }));
            },
            _ => {},
        }
    }
}

/// A dry run moves nothing: its only step finishes as planned.
pub proof fn lemma_dry_run_touches_nothing(family: OsFamily)
    ensures
        move_transition(MovePhase::Idle, MoveEvent::Start { dry_run: true }, family) == (
            MovePhase::Finished,
            MoveAction::Finish { outcome: MoveOutcome::Planned },
        ),
{
}

/// The copy protocol, action by action: a copy is flushed only when a read
/// reported the end of the source (a block of length zero), never after a
/// failed read; every failure to open, read, write or flush, and a stop,
/// leads to removing the half-written destination; the copy succeeds only
/// once the flushed destination got its modification time; a block is
/// written with the length just read.
pub proof fn lemma_copy_protocol(phase: CopyPhase, event: CopyEvent)
    ensures
        copy_transition(phase, event).1 == CopyAction::Flush <==> phase == CopyPhase::Reading
            && event == (CopyEvent::Read { len: 0 }),
        copy_transition(phase, event).1 == CopyAction::Succeed <==> phase == CopyPhase::Stamping
            && event == CopyEvent::Stamped,
        copy_transition(phase, event).1 == CopyAction::CopyModificationTime <==> phase
            == CopyPhase::Flushing && event == CopyEvent::Flushed,
        copy_transition(CopyPhase::Reading, CopyEvent::ReadFailed) == (
            CopyPhase::CleaningUp { reason: CopyFailure::IoError },
            CopyAction::RemoveDestination,
        ),
        copy_transition(CopyPhase::Opening, CopyEvent::OpenFailed) == (
            CopyPhase::CleaningUp { reason: CopyFailure::IoError },
            CopyAction::RemoveDestination,
        ),
        copy_transition(CopyPhase::Flushing, CopyEvent::FlushFailed) == (
            CopyPhase::CleaningUp { reason: CopyFailure::IoError },
            CopyAction::RemoveDestination,
        ),
        forall|len: usize|
            copy_transition(CopyPhase::Writing { len }, CopyEvent::WriteFailed) == (
                CopyPhase::CleaningUp { reason: CopyFailure::IoError },
                CopyAction::RemoveDestination,
            ),
        copy_transition(CopyPhase::CheckingStop, CopyEvent::StopFlag { set: true }) == (
            CopyPhase::CleaningUp { reason: CopyFailure::Interrupted },
            CopyAction::RemoveDestination,
        ),
        copy_transition(CopyPhase::CheckingStop, CopyEvent::StopFlag { set: false }) == (
            CopyPhase::Reading,
            CopyAction::ReadBlock,
        ),
        forall|len: usize|
            len > 0 ==> copy_transition(CopyPhase::Reading, CopyEvent::Read { len }) == (
                CopyPhase::Writing { len },
                CopyAction::WriteBlock { len },
            ),
        forall|len: usize|
            copy_transition(CopyPhase::Writing { len }, CopyEvent::Written) == (
                CopyPhase::CheckingStop,
                CopyAction::CheckStop,
            ),
        forall|r: CopyFailure|
            copy_transition(CopyPhase::CleaningUp { reason: r }, CopyEvent::DestinationRemoved) == (
                CopyPhase::Finished,
                CopyAction::Fail { reason: r },
            ),
        copy_transition(CopyPhase::Idle, CopyEvent::Start) == (
            CopyPhase::Opening,
            CopyAction::OpenBoth,
        ),
        copy_transition(CopyPhase::Opening, CopyEvent::Opened) == (
            CopyPhase::CheckingStop,
            CopyAction::CheckStop,
        ),
        copy_transition(CopyPhase::Flushing, CopyEvent::Flushed).0 == CopyPhase::Stamping,
        copy_transition(CopyPhase::Stamping, CopyEvent::Stamped).0 == CopyPhase::Finished,
{
}

/// Whether a raw error number is the "other device" error of the family:
/// EXDEV, 18, on Unix; ERROR_NOT_SAME_DEVICE, 17, on Windows.
pub open spec fn is_device_boundary(os_code: Option<i32>, family: OsFamily) -> bool {
    (family == OsFamily::Unix && os_code == Some(18i32)) || (family == OsFamily::Windows
        && os_code == Some(17i32))
}

/// The move protocol, outcome by outcome, on every operating system: a
/// successful rename is a move; a failed rename is a failure unless the error
/// is the device boundary, which leads to a copy; a completed copy leads to
/// removing the original and then counts as moved; a failed copy is a
/// failure that leaves the original; an original that cannot be removed
/// leads to taking the copy back, and is a failure. Every finished move
/// reaches the phase `Finished`.
pub proof fn lemma_move_protocol(phase: MovePhase, event: MoveEvent, family: OsFamily)
    ensures
        move_transition(MovePhase::Renaming, MoveEvent::Renamed, family) == (
            MovePhase::Finished,
            MoveAction::Finish { outcome: MoveOutcome::Moved },
        ),
        move_transition(MovePhase::Idle, MoveEvent::Start { dry_run: false }, family) == (
            MovePhase::Renaming,
            MoveAction::Rename,
        ),
        forall|code: Option<i32>|
            move_transition(MovePhase::Renaming, MoveEvent::RenameFailed { os_code: code }, family)
                == (if is_device_boundary(code, family) {
                (MovePhase::Copying, MoveAction::Copy)
            } else {
                (MovePhase::Finished, MoveAction::Finish { outcome: MoveOutcome::RenameFailed })
            }),
        move_transition(MovePhase::Copying, MoveEvent::Copied, family) == (
            MovePhase::RemovingSource,
            MoveAction::RemoveSource,
        ),
        move_transition(MovePhase::Copying, MoveEvent::CopyFailed, family) == (
            MovePhase::Finished,
            MoveAction::Finish { outcome: MoveOutcome::CopyFailed },
        ),
        move_transition(MovePhase::RemovingSource, MoveEvent::SourceRemoved, family) == (
            MovePhase::Finished,
            MoveAction::Finish { outcome: MoveOutcome::MovedByCopy },
        ),
        move_transition(MovePhase::RemovingSource, MoveEvent::SourceRemoveFailed, family) == (
            MovePhase::RemovingCopy,
            MoveAction::RemoveCopy,
        ),
        move_transition(MovePhase::RemovingCopy, MoveEvent::CopyRemoved, family) == (
            MovePhase::Finished,
            MoveAction::Finish { outcome: MoveOutcome::SourceNotRemovable },
        ),
        move_transition(phase, event, family).1 == (MoveAction::Finish {
            outcome: MoveOutcome::Moved,
        }) <==> phase == MovePhase::Renaming && event == MoveEvent::Renamed,
        move_transition(phase, event, family).1 == (MoveAction::Finish {
            outcome: MoveOutcome::RenameFailed,
        }) <==> phase == MovePhase::Renaming && (exists|code: Option<i32>|
            event == (MoveEvent::RenameFailed { os_code: code }) && !is_device_boundary(
                code,
                family,
            )),
        move_transition(phase, event, family).1 == MoveAction::Copy <==> phase
            == MovePhase::Renaming && (exists|code: Option<i32>|
            event == (MoveEvent::RenameFailed { os_code: code }) && is_device_boundary(
                code,
                family,
            )),
        move_transition(phase, event, family).1 == MoveAction::RemoveSource <==> phase
            == MovePhase::Copying && event == MoveEvent::Copied,
        move_transition(phase, event, family).1 is Finish ==> move_transition(phase, event, family).0
            == MovePhase::Finished,
{
    assert forall|code: Option<i32>| #[trigger] is_device_boundary(code, family) == (code.is_some()
        && cross_device_code(family) == code) by {
        match family {
            OsFamily::Unix => {},
            OsFamily::Windows => {},
            OsFamily::Other => {},
        }
    }
    match event {
        MoveEvent::RenameFailed { os_code } => {
            assert(event == (MoveEvent::RenameFailed { os_code: os_code }));
            assert(is_device_boundary(os_code, family) == (os_code.is_some() && cross_device_code(
                family,
            ) == os_code));
        },
        _ => {},
    }
    match phase {
        MovePhase::Idle => {},
        MovePhase::Renaming => {},
        MovePhase::Copying => {},
        MovePhase::RemovingSource => {},
        MovePhase::RemovingCopy => {},
        MovePhase::Finished => {},
    }
}

} // verus!
