# dupfinder

The verified core of a desktop duplicate-file finder. It scans a directory
tree, hashes only the files that share their size with another file, groups
files with equal MD5 digests, keeps the oldest file of each group and moves the
others into a duplicates directory — never deleting a file that has not been
safely copied first.

Layout:

- `src/` — the library, verified with Verus:
  - `scan.rs`: the set of directories entered (each one at most once, however
    many links lead to it) and the decision for each directory entry;
  - `grouping.rs`: grouping by size and by digest, the files worth hashing,
    the duplicate sets and their count;
  - `order.rs`: the stable oldest-first order that picks the file to keep;
  - `digest.rs`: block-wise MD5 through the `md5` crate, and its hex form;
  - `transfer.rs`: the copy and move protocols as step functions (rename, or
    copy-then-remove across devices; clean up half-written copies);
  - `naming.rs`: stem/extension split and `name_N.ext` names for taken names;
  - `report.rs`: thread count, progress cadence, duplicates directory choice,
    the run's counters and its result.
- `app/` — the Tauri shell: file system, clock, threads, window events. It
  performs what the library decides.
- `tests/` — tests of the library.
