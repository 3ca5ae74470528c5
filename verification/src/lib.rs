//! Decision logic of a duplicate-file finder: which directories a scan
//! descends into, which files are hashed, how files are grouped into sets of
//! duplicates, which file of a set is kept, how a duplicate is moved out of the
//! way without ever losing it, and what the run reports at the end.
//!
//! Everything that touches the file system, the clock, threads or the user
//! interface lives outside this crate; it hands plain values in and performs
//! the actions that the functions here decide on.
pub mod digest;
pub mod grouping;
pub mod naming;
pub mod order;
pub mod report;
pub mod scan;
pub mod transfer;
