use crate::transfer::MoveOutcome;
use vstd::prelude::*;

verus! {

/// The most hashing threads used unless the user asks for a number: beyond a
/// handful the drive, not the processor, is the bottleneck.
pub const MAX_DEFAULT_HASH_THREADS: usize = 8;

/// How often, in hashed files, the progress is reported.
pub const HASH_PROGRESS_STEP: usize = 50;

/// The number of threads that hash files: the number asked for if it is at
/// least one (one turns parallel reading off, which suits a spinning disk);
/// otherwise what the machine offers, one if it cannot tell, at most eight.
pub fn hash_thread_count(requested: Option<usize>, available: Option<usize>) -> (n: usize)
    ensures
        n >= 1,
        match requested {
            Some(k) if k >= 1 => n == k,
            _ => match available {
                Some(a) if a >= 1 => n == (if a < MAX_DEFAULT_HASH_THREADS {
                    a
                } else {
                    MAX_DEFAULT_HASH_THREADS
                }),
                _ => n == 1,
            },
        },
{
    match requested {
        Some(k) if k >= 1 => k,
        _ => {
            let a: usize = match available {
                Some(a) if a >= 1 => a,
                _ => 1,
            };
            if a < MAX_DEFAULT_HASH_THREADS {
                a
            } else {
                MAX_DEFAULT_HASH_THREADS
            }
        },
    }
}

/// Whether the progress is reported after `done` of `total` files were
/// hashed: every fiftieth file, and the last one.
pub fn report_hash_progress(done: usize, total: usize) -> (r: bool)
    ensures
        r == (done % HASH_PROGRESS_STEP == 0 || done == total),
{
    done % HASH_PROGRESS_STEP == 0 || done == total
}

/// The duplicates directory the user named, if the name is not empty;
/// `None` means the default, `Duplikate` inside the scanned directory.
pub fn chosen_duplicates_dir(given: Option<String>) -> (r: Option<String>)
    ensures
        match given {
            Some(d) => if d@.len() > 0 {
                r == Some(d)
            } else {
                r is None
            },
            None => r is None,
        },
{
    match given {
        Some(d) => {
            if !d.as_str().is_empty() {
                Some(d)
            } else {
                None
            }
        },
        None => None,
    }
}

/// What to do about the duplicates directory before the scan.
#[derive(Clone, Copy, Debug, PartialEq, Eq, Structural)]
pub enum DuplicatesDirPlan {
    /// Create it (and report that it was created).
    Create,
    /// It exists: name it in the log.
    Announce,
    /// Dry run and no such directory: leave it so.
    Nothing,
}

/// A dry run never creates the duplicates directory.
pub fn plan_duplicates_dir(dry_run: bool, exists: bool) -> (p: DuplicatesDirPlan)
    ensures
        p == (if !dry_run && !exists {
            DuplicatesDirPlan::Create
        } else if exists {
            DuplicatesDirPlan::Announce
        } else {
            DuplicatesDirPlan::Nothing
        }),
{
    if !dry_run && !exists {
        DuplicatesDirPlan::Create
    } else if exists {
        DuplicatesDirPlan::Announce
    } else {
        DuplicatesDirPlan::Nothing
    }
}

/// The counts of a run, kept apart so that none has to mean two things:
/// files actually moved, files a dry run would move, moves that failed, and
/// the bytes that moving (or planning to move) frees.
#[derive(Clone, Copy, Debug, PartialEq, Eq, Structural)]
pub struct RunTally {
    pub moved: usize,
    pub planned: usize,
    pub failed: usize,
    pub space_saved: u64,
}

/// Whether an outcome counts as a move.
pub open spec fn is_moved(o: MoveOutcome) -> bool {
    o == MoveOutcome::Moved || o == MoveOutcome::MovedByCopy
}

/// Whether an outcome counts as a failure.
pub open spec fn is_failed(o: MoveOutcome) -> bool {
    o == MoveOutcome::RenameFailed || o == MoveOutcome::CopyFailed || o
        == MoveOutcome::SourceNotRemovable
}

impl RunTally {
    /// Nothing counted yet.
    pub fn new() -> (t: Self)
        ensures
            t == (RunTally { moved: 0, planned: 0, failed: 0, space_saved: 0 }),
    {
        RunTally { moved: 0, planned: 0, failed: 0, space_saved: 0 }
    }

    /// Whether one more outcome for a file of `size` bytes can be counted
    /// without a count running over.
    pub fn can_record(&self, size: u64) -> (r: bool)
        ensures
            r == (self.moved < usize::MAX && self.planned < usize::MAX && self.failed < usize::MAX
                && self.space_saved + size <= u64::MAX),
    {
        self.moved < usize::MAX && self.planned < usize::MAX && self.failed < usize::MAX
            && self.space_saved <= u64::MAX - size
    }

    /// Counts how the move of a duplicate of `size` bytes ended. The space
    /// counts only for a file that was moved or would be moved.
    pub fn record(&mut self, outcome: MoveOutcome, size: u64)
        requires
            old(self).can_record_spec(size),
        ensures
            final(self).moved == old(self).moved + (if is_moved(outcome) {
                1int
            } else {
                0
            }),
            final(self).planned == old(self).planned + (if outcome == MoveOutcome::Planned {
                1int
            } else {
                0
            }),
            final(self).failed == old(self).failed + (if is_failed(outcome) {
                1int
            } else {
                0
            }),
            final(self).space_saved == old(self).space_saved + (if is_failed(outcome) {
                0
            } else {
                size as int
            }),
            final(self).moved + final(self).planned + final(self).failed == old(self).moved + old(
                self,
            ).planned + old(self).failed + 1,
            match outcome {
                MoveOutcome::Planned => final(self).planned == old(self).planned + 1
                    && final(self).space_saved == old(self).space_saved + size,
                MoveOutcome::Moved => final(self).moved == old(self).moved + 1
                    && final(self).space_saved == old(self).space_saved + size,
                MoveOutcome::MovedByCopy => final(self).moved == old(self).moved + 1
                    && final(self).space_saved == old(self).space_saved + size,
                MoveOutcome::RenameFailed => final(self).failed == old(self).failed + 1
                    && final(self).space_saved == old(self).space_saved,
                MoveOutcome::CopyFailed => final(self).failed == old(self).failed + 1
                    && final(self).space_saved == old(self).space_saved,
                MoveOutcome::SourceNotRemovable => final(self).failed == old(self).failed + 1
                    && final(self).space_saved == old(self).space_saved,
            },
    {
        match outcome {
            MoveOutcome::Planned => {
                self.planned = self.planned + 1;
                self.space_saved = self.space_saved + size;
            },
            MoveOutcome::Moved | MoveOutcome::MovedByCopy => {
                self.moved = self.moved + 1;
                self.space_saved = self.space_saved + size;
            },
            _ => {
                self.failed = self.failed + 1;
            },
        }
    }

    pub open spec fn can_record_spec(&self, size: u64) -> bool {
        self.moved < usize::MAX && self.planned < usize::MAX && self.failed < usize::MAX
            && self.space_saved + size <= u64::MAX
    }
}

/// What a run reports to the user.
pub struct SearchResult {
    /// The duplicates found, whether or not they were moved.
    pub duplicates_found: usize,
    pub space_saved: u64,
    /// The log written, if there was anything to log.
    pub log_file: Option<String>,
}

/// The report of a run that found no duplicates: nothing found, nothing
/// freed, no log.
pub fn nothing_found() -> (r: SearchResult)
    ensures
        r.duplicates_found == 0,
        r.space_saved == 0,
        r.log_file is None,
{
    SearchResult { duplicates_found: 0, space_saved: 0, log_file: None }
}

/// The report of a run that found duplicates: what was found (not what was
/// moved), the space freed, and the log.
pub fn run_report(found: usize, tally: &RunTally, log_file: String) -> (r: SearchResult)
    ensures
        r.duplicates_found == found,
        r.space_saved == tally.space_saved,
        r.log_file == Some(log_file),
{
    SearchResult { duplicates_found: found, space_saved: tally.space_saved, log_file: Some(log_file) }
}

} // verus!
