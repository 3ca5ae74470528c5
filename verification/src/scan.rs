use std::collections::hash_map::DefaultHasher;
use std::collections::HashMap;
use std::hash::Hasher;
use vstd::prelude::*;
use vstd::std_specs::hash::DefaultHasherAdditionalSpecFns;

verus! {

broadcast use vstd::std_specs::hash::group_hash_axioms;

/// The bucket in which a directory key is filed.
pub open spec fn key_hash(key: Seq<u8>) -> u64 {
    DefaultHasher::spec_finish(seq![key])
}

fn hash_of(key: &[u8]) -> (h: u64)
    ensures
        h == key_hash(key@),
{
    let mut hasher = DefaultHasher::new();
    hasher.write(key);
    let h = hasher.finish();
    assert(hasher@ == seq![key@]);
    h
}

fn same_bytes(a: &[u8], b: &[u8]) -> (r: bool)
    ensures
        r == (a@ == b@),
{
    if a.len() != b.len() {
        return false;
    }
    let mut i: usize = 0;
    while i < a.len()
        invariant
            a@.len() == b@.len(),
            i <= a@.len(),
            forall|k: int| 0 <= k < i ==> a@[k] == b@[k],
        decreases a@.len() - i,
    {
        if a[i] != b[i] {
            return false;
        }
        i = i + 1;
    }
    assert(a@ == b@);
    true
}

/// The directories a scan has entered, each known by a key that is the same
/// for every path leading to it (its canonical path, as bytes).
pub struct VisitedDirs {
    keys: Vec<Vec<u8>>,
    buckets: HashMap<u64, Vec<usize>>,
}

impl View for VisitedDirs {
    type V = Set<Seq<u8>>;

    /// The keys of the directories entered so far.
    closed spec fn view(&self) -> Set<Seq<u8>> {
        Set::new(|k: Seq<u8>| exists|i: int| 0 <= i < self.keys@.len() && self.keys@[i]@ == k)
    }
}

impl VisitedDirs {

    pub closed spec fn wf(&self) -> bool {
        &&& forall|i: int, j: int|
            0 <= i < j < self.keys@.len() ==> self.keys@[i]@ != self.keys@[j]@
        &&& forall|i: usize|
            i < self.keys@.len() ==> {
                &&& #[trigger] self.buckets@.contains_key(key_hash(self.keys@[i as int]@))
                &&& self.buckets@[key_hash(self.keys@[i as int]@)]@.contains(i)
            }
        &&& forall|h: u64, t: int|
            #![trigger self.buckets@[h]@[t]]
            self.buckets@.contains_key(h) && 0 <= t < self.buckets@[h]@.len() ==> {
                &&& self.buckets@[h]@[t] < self.keys@.len()
                &&& key_hash(self.keys@[self.buckets@[h]@[t] as int]@) == h
            }
    }

    /// No directory entered yet.
    pub fn new() -> (v: Self)
        ensures
            v.wf(),
            v@ == Set::<Seq<u8>>::empty(),
    {
        let v = VisitedDirs { keys: Vec::new(), buckets: HashMap::new() };
        assert(v@ =~= Set::<Seq<u8>>::empty());
        v
    }

    /// Whether the directory with this key was entered already.
    pub fn contains(&self, key: &[u8]) -> (r: bool)
        requires
            self.wf(),
        ensures
            r == self@.contains(key@),
    {
        let h = hash_of(key);
        match self.buckets.get(&h) {
            None => {
                proof {
                    if self@.contains(key@) {
                        let i = choose|i: int| 0 <= i < self.keys@.len() && self.keys@[i]@ == key@;
                        assert(self.keys@.len() == self.keys.len());
                        assert(self.buckets@.contains_key(key_hash(self.keys@[i]@)));
                    }
                }
                false
            },
            Some(bucket) => {
                let mut t: usize = 0;
                while t < bucket.len()
                    invariant
                        self.wf(),
                        self.buckets@.contains_key(h),
                        h == key_hash(key@),
                        *bucket == self.buckets@[h],
                        t <= bucket@.len(),
                        forall|u: int|
                            0 <= u < t ==> self.keys@[#[trigger] bucket@[u] as int]@ != key@,
                    decreases bucket@.len() - t,
                {
                    let idx = bucket[t];
                    assert(self.buckets@[h]@[t as int] == idx);
                    if same_bytes(self.keys[idx].as_slice(), key) {
                        assert(self.keys@[idx as int]@ == key@);
                        assert(self@.contains(key@));
                        return true;
                    }
                    t = t + 1;
                }
                proof {
                    if self@.contains(key@) {
                        let i = choose|i: int| 0 <= i < self.keys@.len() && self.keys@[i]@ == key@;
                        assert(self.keys@.len() == self.keys.len());
                        let iu = i as usize;
                        assert(self.buckets@.contains_key(key_hash(self.keys@[iu as int]@)));
                        assert(self.buckets@[h]@.contains(iu));
                        let u = choose|u: int| 0 <= u < bucket@.len() && bucket@[u] == iu;
                        assert(self.keys@[bucket@[u] as int]@ != key@);
                    }
                }
                false
            },
        }
    }

    /// Records the directory with this key as entered, as `HashSet::insert`
    /// does: `true` if it was new, `false` if it had been entered before.
    pub fn insert(&mut self, key: Vec<u8>) -> (r: bool)
        requires
            old(self).wf(),
        ensures
            final(self).wf(),
            r == !old(self)@.contains(key@),
            final(self)@ == old(self)@.insert(key@),
    {
        if self.contains(key.as_slice()) {
            assert(self@.insert(key@) =~= self@);
            return false;
        }
        let h = hash_of(key.as_slice());
        let idx = self.keys.len();
        let ghost old_keys = self.keys@;
        let ghost old_buckets = self.buckets@;
        let mut bucket = match self.buckets.remove(&h) {
            Some(b) => b,
            None => Vec::new(),
        };
        let ghost old_bucket = bucket@;
        assert(old_buckets.contains_key(h) ==> old_bucket == old_buckets[h]@);
        assert(!old_buckets.contains_key(h) ==> old_bucket == Seq::<usize>::empty());
        bucket.push(idx);
        self.buckets.insert(h, bucket);
        self.keys.push(key);
        proof {
            assert(self.keys@ == old_keys.push(key));
            assert(self.buckets@ == old_buckets.insert(h, self.buckets@[h]));
            assert(self.buckets@[h]@ == old_bucket.push(idx));
            assert forall|i: int, j: int| 0 <= i < j < self.keys@.len() implies self.keys@[i]@
                != self.keys@[j]@ by {
                if j == idx as int {
                    assert(old_keys[i]@ != key@);
                }
            }
            assert forall|i: usize| i < self.keys@.len() implies {
                &&& #[trigger] self.buckets@.contains_key(key_hash(self.keys@[i as int]@))
                &&& self.buckets@[key_hash(self.keys@[i as int]@)]@.contains(i)
            } by {
                if i == idx {
                    assert(self.buckets@[h]@[old_bucket.len() as int] == idx);
                } else {
                    assert(self.keys@[i as int] == old_keys[i as int]);
                    let hi = key_hash(old_keys[i as int]@);
                    assert(old_buckets.contains_key(hi));
                    assert(old_buckets[hi]@.contains(i));
                    if hi == h {
                        let w = choose|w: int| 0 <= w < old_bucket.len() && old_bucket[w] == i;
                        assert(self.buckets@[h]@[w] == i);
                    } else {
                        assert(self.buckets@[hi] == old_buckets[hi]);
                    }
                }
            }
            assert forall|hh: u64, t: int|
                #![trigger self.buckets@[hh]@[t]]
                self.buckets@.contains_key(hh) && 0 <= t < self.buckets@[hh]@.len() implies {
                &&& self.buckets@[hh]@[t] < self.keys@.len()
                &&& key_hash(self.keys@[self.buckets@[hh]@[t] as int]@) == hh
            } by {
                if hh == h {
                    if t < old_bucket.len() {
                        assert(self.buckets@[hh]@[t] == old_buckets[h]@[t]);
                    }
                } else {
                    assert(self.buckets@[hh] == old_buckets[hh]);
                }
            }
            assert(self@ =~= Set::new(
                |k: Seq<u8>| exists|i: int| 0 <= i < old_keys.len() && old_keys[i]@ == k,
            ).insert(key@)) by {
                assert forall|k: Seq<u8>| self@.contains(k) implies Set::new(
                    |k: Seq<u8>| exists|i: int| 0 <= i < old_keys.len() && old_keys[i]@ == k,
                ).insert(key@).contains(k) by {
                    let i = choose|i: int| 0 <= i < self.keys@.len() && self.keys@[i]@ == k;
                    if i < old_keys.len() {
                        assert(old_keys[i]@ == k);
                    }
                }
                assert forall|k: Seq<u8>| Set::new(
                    |k: Seq<u8>| exists|i: int| 0 <= i < old_keys.len() && old_keys[i]@ == k,
                ).insert(key@).contains(k) implies self@.contains(k) by {
                    if k == key@ {
                        assert(self.keys@[idx as int]@ == k);
                    } else {
                        let i = choose|i: int| 0 <= i < old_keys.len() && old_keys[i]@ == k;
                        assert(self.keys@[i]@ == k);
                    }
                }
            }
        }
        true
    }
}

/// What the scan found at one directory entry.
pub enum EntryKind {
    /// A directory (reached directly or through a link), known by its key.
    Directory { key: Vec<u8> },
    /// A regular file, with its length if its metadata could be read.
    File { size: Option<u64> },
    /// Anything else: a broken link, a socket, an entry that vanished.
    Other,
}

/// What to do with one directory entry.
#[derive(Clone, Copy, Debug, PartialEq, Eq, Structural)]
pub enum ScanAction {
    /// The user asked to stop: give up the scan.
    Abort,
    /// The entry lies inside the duplicates directory: leave it alone.
    SkipDuplicatesDir,
    /// A directory not entered before: scan it.
    Descend,
    /// A directory entered before, over another path or a link back to an
    /// ancestor: do not enter it again, and report it as cut.
    CutLoop,
    /// A non-empty file: it now has this number.
    RecordFile { file: usize },
    /// An empty file, or something that is neither file nor directory.
    Ignore,
}

/// The state of a directory scan: the directories entered so far, and the
/// size of every non-empty file found, file number = position.
pub struct ScanState {
    pub visited: VisitedDirs,
    pub file_sizes: Vec<u64>,
}

impl ScanState {
    pub open spec fn wf(&self) -> bool {
        self.visited.wf()
    }

    /// A scan of the directory with key `root`, which counts as entered, so
    /// that a link back to it is cut on its first appearance.
    pub fn new(root: Vec<u8>) -> (s: Self)
        ensures
            s.wf(),
            s.visited@ == Set::<Seq<u8>>::empty().insert(root@),
            s.file_sizes@ == Seq::<u64>::empty(),
    {
        let mut visited = VisitedDirs::new();
        visited.insert(root);
        ScanState { visited, file_sizes: Vec::new() }
    }

    /// The number of files recorded so far.
    pub fn file_count(&self) -> (n: usize)
        ensures
            n == self.file_sizes@.len(),
    {
        self.file_sizes.len()
    }

    /// Decides what to do with one directory entry, and records what it
    /// finds: a directory as entered, a non-empty file with its size.
    ///
    /// A directory is entered at most once, whatever the number of paths
    /// that lead to it.
    pub fn scan_entry(&mut self, stop_requested: bool, inside_duplicates_dir: bool, kind: EntryKind) -> (a: ScanAction)
        requires
            old(self).wf(),
        ensures
            final(self).wf(),
            stop_requested ==> a == ScanAction::Abort && final(self).visited@ == old(self).visited@
                && final(self).file_sizes@ == old(self).file_sizes@,
            !stop_requested && inside_duplicates_dir ==> a == ScanAction::SkipDuplicatesDir
                && final(self).visited@ == old(self).visited@ && final(self).file_sizes@ == old(
                self,
            ).file_sizes@,
            !stop_requested && !inside_duplicates_dir ==> match kind {
                EntryKind::Directory { key } => {
                    &&& final(self).visited@ == old(self).visited@.insert(key@)
                    &&& final(self).file_sizes@ == old(self).file_sizes@
                    &&& if old(self).visited@.contains(key@) {
                        a == ScanAction::CutLoop
                    } else {
                        a == ScanAction::Descend
                    }
                },
                EntryKind::File { size: Some(n) } if n > 0 => {
                    &&& a == ScanAction::RecordFile { file: old(self).file_sizes@.len() as usize }
                    &&& final(self).file_sizes@ == old(self).file_sizes@.push(n)
                    &&& final(self).visited@ == old(self).visited@
                },
                _ => {
                    &&& a == ScanAction::Ignore
                    &&& final(self).file_sizes@ == old(self).file_sizes@
                    &&& final(self).visited@ == old(self).visited@
                },
            },
    {
        if stop_requested {
            return ScanAction::Abort;
        }
        if inside_duplicates_dir {
            return ScanAction::SkipDuplicatesDir;
        }
        match kind {
            EntryKind::Directory { key } => {
                if self.visited.insert(key) {
                    ScanAction::Descend
                } else {
                    ScanAction::CutLoop
                }
            },
            EntryKind::File { size: Some(n) } => {
                if n > 0 {
                    let file = self.file_sizes.len();
                    self.file_sizes.push(n);
                    ScanAction::RecordFile { file }
                } else {
                    ScanAction::Ignore
                }
            },
            _ => ScanAction::Ignore,
        }
    }
}

} // verus!
