use std::collections::HashMap;
use vstd::prelude::*;

verus! {

broadcast use vstd::std_specs::hash::group_hash_axioms;

/// Files that share one key (a size, or a content digest), numbered as the
/// scan found them, in the order in which they were handed in.
pub struct Group {
    pub key: u128,
    pub members: Vec<usize>,
}

pub open spec fn group_view(g: Group) -> (u128, Seq<usize>) {
    (g.key, g.members@)
}

impl Group {
    /// The key and the members, as a pair of plain values.
    pub open spec fn key_members(&self) -> (u128, Seq<usize>) {
        (self.key, self.members@)
    }
}

pub open spec fn groups_view(gs: Seq<Group>) -> Seq<(u128, Seq<usize>)> {
    gs.map_values(|g: Group| group_view(g))
}

/// The distinct keys of `entries`, in the order of their first appearance.
pub open spec fn first_keys(entries: Seq<(u128, usize)>) -> Seq<u128>
    decreases entries.len(),
{
    if entries.len() == 0 {
        Seq::empty()
    } else {
        let prev = first_keys(entries.drop_last());
        if prev.contains(entries.last().0) {
            prev
        } else {
            prev.push(entries.last().0)
        }
    }
}

/// The items of `entries` whose key is `k`, in order.
pub open spec fn members_with(entries: Seq<(u128, usize)>, k: u128) -> Seq<usize>
    decreases entries.len(),
{
    if entries.len() == 0 {
        Seq::empty()
    } else if entries.last().0 == k {
        members_with(entries.drop_last(), k).push(entries.last().1)
    } else {
        members_with(entries.drop_last(), k)
    }
}

/// `entries` grouped by key: one group per distinct key, groups in the order
/// in which their key first appears, each holding its items in input order.
pub open spec fn grouped(entries: Seq<(u128, usize)>) -> Seq<(u128, Seq<usize>)> {
    let keys = first_keys(entries);
    Seq::new(keys.len(), |i: int| (keys[i], members_with(entries, keys[i])))
}

/// How many items a sequence of groups holds beyond one per group.
pub open spec fn surplus(gs: Seq<(u128, Seq<usize>)>) -> int
    decreases gs.len(),
{
    if gs.len() == 0 {
        0
    } else {
        surplus(gs.drop_last()) + gs.last().1.len() - 1
    }
}

/// The groups that hold more than one item, in order.
pub open spec fn multi_groups(gs: Seq<(u128, Seq<usize>)>) -> Seq<(u128, Seq<usize>)>
    decreases gs.len(),
{
    if gs.len() == 0 {
        Seq::empty()
    } else if gs.last().1.len() > 1 {
        multi_groups(gs.drop_last()).push(gs.last())
    } else {
        multi_groups(gs.drop_last())
    }
}

/// The items of all groups that hold more than one item, group after group.
pub open spec fn multi_members(gs: Seq<(u128, Seq<usize>)>) -> Seq<usize>
    decreases gs.len(),
{
    if gs.len() == 0 {
        Seq::empty()
    } else if gs.last().1.len() > 1 {
        multi_members(gs.drop_last()) + gs.last().1
    } else {
        multi_members(gs.drop_last())
    }
}

proof fn lemma_surplus_grow(gs: Seq<(u128, Seq<usize>)>, j: int, x: usize)
    requires
        0 <= j < gs.len(),
    ensures
        surplus(gs.update(j, (gs[j].0, gs[j].1.push(x)))) == surplus(gs) + 1,
    decreases gs.len(),
{
    let gs2 = gs.update(j, (gs[j].0, gs[j].1.push(x)));
    if j == gs.len() - 1 {
        assert(gs2.drop_last() == gs.drop_last());
    } else {
        lemma_surplus_grow(gs.drop_last(), j, x);
        assert(gs2.drop_last() == gs.drop_last().update(j, (gs[j].0, gs[j].1.push(x))));
    }
}

proof fn lemma_first_keys_bounded(entries: Seq<(u128, usize)>)
    ensures
        first_keys(entries).len() <= entries.len(),
        forall|i: int, j: int|
            0 <= i < j < first_keys(entries).len() ==> first_keys(entries)[i] != first_keys(
                entries,
            )[j],
    decreases entries.len(),
{
    if entries.len() > 0 {
        lemma_first_keys_bounded(entries.drop_last());
    }
}

/// Groups `entries` by key.
///
/// The result is exactly `grouped(entries)`, and it holds as many items
/// beyond one per group as there are entries beyond one per group.
pub fn group_by_key(entries: &Vec<(u128, usize)>) -> (r: Vec<Group>)
    ensures
        groups_view(r@) == grouped(entries@),
        surplus(groups_view(r@)) == entries@.len() - r@.len(),
        r@.len() <= entries@.len(),
{
    let mut r: Vec<Group> = Vec::new();
    let mut index: HashMap<u128, usize> = HashMap::new();
    let mut i: usize = 0;
    while i < entries.len()
        invariant
            i <= entries@.len(),
            r@.len() == first_keys(entries@.take(i as int)).len(),
            forall|j: int|
                0 <= j < r@.len() ==> #[trigger] r@[j].key == first_keys(entries@.take(i as int))[j]
                    && r@[j].members@ == members_with(entries@.take(i as int), r@[j].key),
            forall|k: u128| #[trigger]
                index@.contains_key(k) <==> first_keys(entries@.take(i as int)).contains(k),
            forall|k: u128| #[trigger]
                index@.contains_key(k) ==> index@[k] < r@.len() && r@[index@[k] as int].key == k,
            surplus(groups_view(r@)) == i - r@.len(),
            r@.len() <= i,
        decreases entries@.len() - i,
    {
        let ghost p = entries@.take(i as int);
        let ghost p2 = entries@.take(i + 1);
        let ghost old_r = r@;
        let ghost old_index = index@;
        let (k, item) = entries[i];
        assert(p2.drop_last() == p);
        assert(p2.last() == (k, item));
        proof {
            lemma_first_keys_bounded(p);
        }
        match index.get(&k) {
            Some(j) => {
                let j = *j;
                assert(first_keys(p).contains(k));
                assert(first_keys(p2) == first_keys(p));
                r[j].members.push(item);
                proof {
                    assert(groups_view(r@) == groups_view(old_r).update(
                        j as int,
                        (groups_view(old_r)[j as int].0, groups_view(old_r)[j as int].1.push(item)),
                    ));
                    lemma_surplus_grow(groups_view(old_r), j as int, item);
                    assert forall|jj: int| 0 <= jj < r@.len() implies #[trigger] r@[jj].key
                        == first_keys(p2)[jj] && r@[jj].members@ == members_with(
                        p2,
                        r@[jj].key,
                    ) by {
                        if jj == j {
                        } else {
                            assert(r@[jj] == old_r[jj]);
                        }
                    }
                }
            },
            None => {
                assert(!first_keys(p).contains(k));
                assert(first_keys(p2) == first_keys(p).push(k));
                let mut members: Vec<usize> = Vec::new();
                members.push(item);
                let ghost pos = r@.len();
                r.push(Group { key: k, members });
                index.insert(k, r.len() - 1);
                proof {
                    assert(members_with(p, k) == Seq::<usize>::empty()) by {
                        lemma_members_empty(p, k);
                    }
                    assert(groups_view(r@).drop_last() == groups_view(old_r));
                    assert forall|jj: int| 0 <= jj < r@.len() implies #[trigger] r@[jj].key
                        == first_keys(p2)[jj] && r@[jj].members@ == members_with(
                        p2,
                        r@[jj].key,
                    ) by {
                        if jj < pos {
                            assert(r@[jj] == old_r[jj]);
                            assert(old_r[jj].key != k) by {
                                assert(first_keys(p)[jj] != k);
                            }
                        }
                    }
                    assert forall|kk: u128| #[trigger]
                        index@.contains_key(kk) <==> first_keys(p2).contains(kk) by {
                        assert(old_index.contains_key(kk) <==> first_keys(p).contains(kk));
                        assert(index@.contains_key(kk) <==> (kk == k || old_index.contains_key(kk)));
                        if kk == k {
                            assert(first_keys(p2)[first_keys(p).len() as int] == k);
                        }
                        if kk != k && first_keys(p2).contains(kk) {
                            let w = choose|w: int|
                                0 <= w < first_keys(p2).len() && first_keys(p2)[w] == kk;
                            assert(w < first_keys(p).len());
                            assert(first_keys(p).contains(kk));
                        }
                        if first_keys(p).contains(kk) {
                            let w = choose|w: int|
                                0 <= w < first_keys(p).len() && first_keys(p)[w] == kk;
                            assert(first_keys(p2)[w] == kk);
                        }
                    }
                    assert forall|kk: u128| #[trigger] index@.contains_key(kk) implies index@[kk]
                        < r@.len() && r@[index@[kk] as int].key == kk by {
                        if kk != k {
                            assert(r@[index@[kk] as int] == old_r[index@[kk] as int]);
                        }
                    }
                }
            },
        }
        i = i + 1;
    }
    assert(entries@.take(i as int) == entries@);
    assert(groups_view(r@) =~= grouped(entries@));
    r
}

proof fn lemma_members_empty(entries: Seq<(u128, usize)>, k: u128)
    requires
        !first_keys(entries).contains(k),
    ensures
        members_with(entries, k) == Seq::<usize>::empty(),
    decreases entries.len(),
{
    if entries.len() > 0 {
        let prev = first_keys(entries.drop_last());
        if prev.contains(k) {
            let w = choose|w: int| 0 <= w < prev.len() && prev[w] == k;
            if !prev.contains(entries.last().0) {
                assert(first_keys(entries)[w] == k);
            } else {
                assert(first_keys(entries)[w] == k);
            }
        } else {
            if entries.last().0 == k {
                assert(first_keys(entries).last() == k);
            }
        }
        lemma_members_empty(entries.drop_last(), k);
    }
}

proof fn lemma_members_nonempty(entries: Seq<(u128, usize)>, k: u128)
    requires
        first_keys(entries).contains(k),
    ensures
        members_with(entries, k).len() > 0,
    decreases entries.len(),
{
    let prev = first_keys(entries.drop_last());
    if entries.last().0 != k {
        if !prev.contains(k) {
            if !prev.contains(entries.last().0) {
                let w = choose|w: int|
                    0 <= w < first_keys(entries).len() && first_keys(entries)[w] == k;
                if w < prev.len() {
                    assert(prev.contains(k));
                }
            }
        }
        lemma_members_nonempty(entries.drop_last(), k);
    }
}

proof fn lemma_grouped_nonempty(entries: Seq<(u128, usize)>, i: int)
    requires
        0 <= i < grouped(entries).len(),
    ensures
        grouped(entries)[i].1.len() > 0,
{
    let keys = first_keys(entries);
    assert(keys.contains(keys[i]));
    lemma_members_nonempty(entries, keys[i]);
}

proof fn lemma_multi_surplus(gs: Seq<(u128, Seq<usize>)>)
    requires
        forall|i: int| 0 <= i < gs.len() ==> #[trigger] gs[i].1.len() > 0,
    ensures
        surplus(multi_groups(gs)) == surplus(gs),
    decreases gs.len(),
{
    if gs.len() > 0 {
        assert(gs.last().1.len() > 0);
        lemma_multi_surplus(gs.drop_last());
        if gs.last().1.len() > 1 {
            assert(multi_groups(gs).drop_last() == multi_groups(gs.drop_last()));
        }
    }
}

/// The scan's files as (size, file number) entries, file number = position.
pub open spec fn size_entries(sizes: Seq<u64>) -> Seq<(u128, usize)> {
    Seq::new(sizes.len(), |i: int| (sizes[i] as u128, i as usize))
}

/// The files worth hashing: those that share their size with at least one
/// other file, size group after size group, each group in scan order.
///
/// A file whose size is unique cannot have a duplicate and is never read.
pub fn hash_candidates(file_sizes: &Vec<u64>) -> (r: Vec<usize>)
    ensures
        r@ == multi_members(grouped(size_entries(file_sizes@))),
        r@.no_duplicates(),
        forall|f: usize|
            #![trigger r@.contains(f)]
            r@.contains(f) <==> f < file_sizes@.len() && exists|g: int|
                0 <= g < file_sizes@.len() && g != f && #[trigger] file_sizes@[g]
                    == file_sizes@[f as int],
{
    proof {
        assert(file_sizes@.len() == file_sizes.len());
        lemma_hashed_once(file_sizes@);
        assert forall|f: usize| #![trigger multi_members(grouped(size_entries(file_sizes@))).contains(f)]
            multi_members(grouped(size_entries(file_sizes@))).contains(f) <==> f < file_sizes@.len()
                && exists|g: int|
                0 <= g < file_sizes@.len() && g != f && #[trigger] file_sizes@[g]
                    == file_sizes@[f as int] by {
            if f < file_sizes@.len() {
                lemma_hashed_iff_size_shared(file_sizes@, f);
            } else if multi_members(grouped(size_entries(file_sizes@))).contains(f) {
                let e = size_entries(file_sizes@);
                let gs = grouped(e);
                lemma_multi_members_contains(gs, f);
                let j = choose|j: int| 0 <= j < gs.len() && (#[trigger] gs[j]).1.len() > 1 && gs[j].1.contains(f);
                lemma_members_contains(e, gs[j].0, f);
                let p = choose|p: int| 0 <= p < e.len() && #[trigger] e[p] == (gs[j].0, f);
                assert(e[p] == (file_sizes@[p] as u128, p as usize));
            }
        }
    }
    let mut entries: Vec<(u128, usize)> = Vec::new();
    let mut i: usize = 0;
    while i < file_sizes.len()
        invariant
            i <= file_sizes@.len(),
            entries@ == size_entries(file_sizes@).take(i as int),
        decreases file_sizes@.len() - i,
    {
        entries.push((file_sizes[i] as u128, i));
        i = i + 1;
    }
    assert(entries@ == size_entries(file_sizes@));
    let groups = group_by_key(&entries);
    let ghost gv = groups_view(groups@);
    let mut r: Vec<usize> = Vec::new();
    let mut g: usize = 0;
    while g < groups.len()
        invariant
            g <= groups@.len(),
            gv == groups_view(groups@),
            r@ == multi_members(gv.take(g as int)),
        decreases groups@.len() - g,
    {
        assert(gv.take(g + 1).drop_last() == gv.take(g as int));
        let n = groups[g].members.len();
        if n > 1 {
            let ghost base = r@;
            let mut m: usize = 0;
            while m < n
                invariant
                    g < groups@.len(),
                    n == groups@[g as int].members@.len(),
                    m <= n,
                    r@ == base + groups@[g as int].members@.take(m as int),
                decreases n - m,
            {
                r.push(groups[g].members[m]);
                assert(groups@[g as int].members@.take(m + 1) == groups@[g as int].members@.take(
                    m as int,
                ).push(groups@[g as int].members@[m as int]));
                m = m + 1;
            }
            assert(groups@[g as int].members@.take(m as int) == groups@[g as int].members@);
        }
        g = g + 1;
    }
    assert(gv.take(g as int) == gv);
    r
}

/// The hashed files as (digest, file number) entries, in the order handed
/// in; a file that could not be hashed has no digest and no entry.
pub open spec fn digest_entries(hashed: Seq<(usize, Option<u128>)>) -> Seq<(u128, usize)>
    decreases hashed.len(),
{
    if hashed.len() == 0 {
        Seq::empty()
    } else {
        match hashed.last().1 {
            Some(d) => digest_entries(hashed.drop_last()).push((d, hashed.last().0)),
            None => digest_entries(hashed.drop_last()),
        }
    }
}

/// The sets of files with equal content, and how many files beyond one per
/// set they hold: the number of duplicates found.
pub struct DuplicateSets {
    pub sets: Vec<Group>,
    pub found: usize,
}

/// The duplicate sets of the hashed files: files grouped by digest, groups of
/// one dropped. A file without a digest belongs to no set.
pub fn find_duplicate_sets(hashed: &Vec<(usize, Option<u128>)>) -> (r: DuplicateSets)
    ensures
        groups_view(r.sets@) == multi_groups(grouped(digest_entries(hashed@))),
        r.found == surplus(multi_groups(grouped(digest_entries(hashed@)))),
        r.found == count_digested(hashed@) - digests_of(hashed@).len(),
        forall|j: int| 0 <= j < r.sets@.len() ==> (#[trigger] r.sets@[j]).members@.len() >= 2,
        forall|i: int, j: int|
            0 <= i < j < r.sets@.len() ==> (#[trigger] r.sets@[i]).key != (#[trigger] r.sets@[j]).key,
        distinct_files(hashed@) ==> forall|j: int|
            0 <= j < r.sets@.len() ==> (#[trigger] r.sets@[j]).members@.no_duplicates(),
        distinct_files(hashed@) ==> forall|i: int, j: int, m: usize|
            0 <= i < j < r.sets@.len() ==> !(#[trigger] r.sets@[i].members@.contains(m)
                && #[trigger] r.sets@[j].members@.contains(m)),
{
    proof {
        lemma_found_counts_all_but_one_per_digest(hashed@);
        lemma_duplicate_sets_well_formed(hashed@);
    }
    let mut entries: Vec<(u128, usize)> = Vec::new();
    let mut i: usize = 0;
    while i < hashed.len()
        invariant
            i <= hashed@.len(),
            entries@ == digest_entries(hashed@.take(i as int)),
        decreases hashed@.len() - i,
    {
        assert(hashed@.take(i + 1).drop_last() == hashed@.take(i as int));
        let (file, digest) = hashed[i];
        match digest {
            Some(d) => entries.push((d, file)),
            None => {},
        }
        i = i + 1;
    }
    assert(hashed@.take(i as int) == hashed@);
    let groups = group_by_key(&entries);
    let ghost gv = groups_view(groups@);
    proof {
        assert forall|j: int| 0 <= j < gv.len() implies #[trigger] gv[j].1.len() > 0 by {
            lemma_grouped_nonempty(entries@, j);
        }
        lemma_multi_surplus(gv);
    }
    let found = entries.len() - groups.len();
    let mut sets: Vec<Group> = Vec::new();
    let mut src = groups;
    let ghost total = src@.len();
    let mut rest: Vec<Group> = Vec::new();
    // reverse the groups, so that popping yields them front to back
    while src.len() > 0
        invariant
            total == gv.len(),
            src@.len() + rest@.len() == total,
            forall|j: int| 0 <= j < src@.len() ==> group_view(#[trigger] src@[j]) == gv[j],
            forall|j: int|
                0 <= j < rest@.len() ==> group_view(#[trigger] rest@[j]) == gv[total - 1 - j],
        decreases src@.len(),
    {
        let grp = src.pop().unwrap();
        rest.push(grp);
    }
    let mut g: usize = 0;
    while rest.len() > 0
        invariant
            total == gv.len(),
            total <= usize::MAX,
            rest@.len() + g == total,
            forall|j: int| 0 <= j < rest@.len() ==> group_view(#[trigger] rest@[j]) == gv[total - 1 - j],
            groups_view(sets@) == multi_groups(gv.take(g as int)),
        decreases rest@.len(),
    {
        assert(gv.take(g + 1).drop_last() == gv.take(g as int));
        let grp = rest.pop().unwrap();
        assert(group_view(grp) == gv[g as int]);
        if grp.members.len() > 1 {
            let ghost before = sets@;
            sets.push(grp);
            assert(groups_view(sets@) == groups_view(before).push(group_view(grp)));
        }
        g = g + 1;
    }
    assert(gv.take(g as int) == gv);
    proof {
        let mg = multi_groups(grouped(digest_entries(hashed@)));
        assert(groups_view(sets@) == mg);
        assert forall|j: int| 0 <= j < sets@.len() implies mg[j] == (
        #[trigger] sets@[j]).key_members() by {
            assert(groups_view(sets@)[j] == group_view(sets@[j]));
        }
        assert forall|i: int, j: int, m: usize|
            0 <= i < j < sets@.len() && distinct_files(hashed@) implies !(
            #[trigger] sets@[i].members@.contains(m) && #[trigger] sets@[j].members@.contains(m)) by {
            assert(mg[i] == sets@[i].key_members() && mg[j] == sets@[j].key_members());
            assert(!(mg[i].1.contains(m) && mg[j].1.contains(m)));
        }
    }
    DuplicateSets { sets, found }
}

/// How many entries carry key `k`.
pub open spec fn count_key(entries: Seq<(u128, usize)>, k: u128) -> nat
    decreases entries.len(),
{
    if entries.len() == 0 {
        0
    } else {
        count_key(entries.drop_last(), k) + if entries.last().0 == k {
            1nat
        } else {
            0nat
        }
    }
}

proof fn lemma_members_contains(entries: Seq<(u128, usize)>, k: u128, m: usize)
    ensures
        members_with(entries, k).contains(m) <==> exists|p: int|
            0 <= p < entries.len() && #[trigger] entries[p] == (k, m),
    decreases entries.len(),
{
    if entries.len() > 0 {
        let prev = entries.drop_last();
        lemma_members_contains(prev, k, m);
        if members_with(entries, k).contains(m) {
            let w = choose|w: int|
                0 <= w < members_with(entries, k).len() && members_with(entries, k)[w] == m;
            if entries.last().0 == k && w == members_with(prev, k).len() {
                assert(entries[entries.len() - 1] == (k, m));
            } else {
                assert(members_with(prev, k)[w] == m);
                let p = choose|p: int| 0 <= p < prev.len() && #[trigger] prev[p] == (k, m);
                assert(entries[p] == (k, m));
            }
        }
        if exists|p: int| 0 <= p < entries.len() && #[trigger] entries[p] == (k, m) {
            let p = choose|p: int| 0 <= p < entries.len() && #[trigger] entries[p] == (k, m);
            if p == entries.len() - 1 {
                assert(members_with(entries, k).last() == m);
            } else {
                assert(prev[p] == (k, m));
                let w = choose|w: int|
                    0 <= w < members_with(prev, k).len() && members_with(prev, k)[w] == m;
                assert(members_with(entries, k)[w] == m);
            }
        }
    }
}

proof fn lemma_members_len(entries: Seq<(u128, usize)>, k: u128)
    ensures
        members_with(entries, k).len() == count_key(entries, k),
    decreases entries.len(),
{
    if entries.len() > 0 {
        lemma_members_len(entries.drop_last(), k);
    }
}

proof fn lemma_count_two(entries: Seq<(u128, usize)>, k: u128)
    ensures
        count_key(entries, k) >= 1 <==> exists|p: int|
            0 <= p < entries.len() && (#[trigger] entries[p]).0 == k,
        count_key(entries, k) >= 2 <==> exists|p: int, q: int|
            0 <= p < q < entries.len() && (#[trigger] entries[p]).0 == k && (
            #[trigger] entries[q]).0 == k,
    decreases entries.len(),
{
    if entries.len() > 0 {
        let prev = entries.drop_last();
        let n = entries.len() - 1;
        lemma_count_two(prev, k);
        if exists|p: int| 0 <= p < entries.len() && (#[trigger] entries[p]).0 == k {
            let p = choose|p: int| 0 <= p < entries.len() && (#[trigger] entries[p]).0 == k;
            if p < n {
                assert(prev[p].0 == k);
            }
        }
        if count_key(prev, k) >= 1 {
            let p = choose|p: int| 0 <= p < prev.len() && (#[trigger] prev[p]).0 == k;
            assert(entries[p].0 == k);
        }
        if exists|p: int, q: int|
            0 <= p < q < entries.len() && (#[trigger] entries[p]).0 == k && (
            #[trigger] entries[q]).0 == k {
            let (p, q) = choose|p: int, q: int|
                0 <= p < q < entries.len() && (#[trigger] entries[p]).0 == k && (
                #[trigger] entries[q]).0 == k;
            if q < n {
                assert(prev[p].0 == k && prev[q].0 == k);
            } else {
                assert(prev[p].0 == k);
            }
        }
        if count_key(prev, k) >= 2 {
            let (p, q) = choose|p: int, q: int|
                0 <= p < q < prev.len() && (#[trigger] prev[p]).0 == k && (#[trigger] prev[q]).0
                    == k;
            assert(entries[p].0 == k && entries[q].0 == k);
        }
        if count_key(prev, k) >= 1 && entries.last().0 == k {
            let p = choose|p: int| 0 <= p < prev.len() && (#[trigger] prev[p]).0 == k;
            assert(entries[p].0 == k && entries[n].0 == k);
        }
    }
}

proof fn lemma_first_keys_contains(entries: Seq<(u128, usize)>, k: u128)
    ensures
        first_keys(entries).contains(k) <==> exists|p: int|
            0 <= p < entries.len() && (#[trigger] entries[p]).0 == k,
{
    lemma_count_two(entries, k);
    lemma_members_len(entries, k);
    if first_keys(entries).contains(k) {
        lemma_members_nonempty(entries, k);
    } else {
        lemma_members_empty(entries, k);
    }
}

proof fn lemma_multi_members_contains(gs: Seq<(u128, Seq<usize>)>, m: usize)
    ensures
        multi_members(gs).contains(m) <==> exists|j: int|
            0 <= j < gs.len() && (#[trigger] gs[j]).1.len() > 1 && gs[j].1.contains(m),
    decreases gs.len(),
{
    if gs.len() > 0 {
        let prev = gs.drop_last();
        let n = gs.len() - 1;
        lemma_multi_members_contains(prev, m);
        if gs.last().1.len() > 1 {
            let a = multi_members(prev);
            let b = gs.last().1;
            if (a + b).contains(m) {
                let w = choose|w: int| 0 <= w < (a + b).len() && (a + b)[w] == m;
                if w < a.len() {
                    assert(a[w] == m);
                    let j = choose|j: int|
                        0 <= j < prev.len() && (#[trigger] prev[j]).1.len() > 1 && prev[j].1.contains(m);
                    assert(gs[j] == prev[j]);
                } else {
                    assert(b[w - a.len()] == m);
                    assert(gs[n].1.contains(m));
                }
            }
            if exists|j: int| 0 <= j < gs.len() && (#[trigger] gs[j]).1.len() > 1 && gs[j].1.contains(m) {
                let j = choose|j: int|
                    0 <= j < gs.len() && (#[trigger] gs[j]).1.len() > 1 && gs[j].1.contains(m);
                if j < n {
                    assert(prev[j] == gs[j]);
                    let w = choose|w: int| 0 <= w < a.len() && a[w] == m;
                    assert((a + b)[w] == m);
                } else {
                    let w = choose|w: int| 0 <= w < b.len() && b[w] == m;
                    assert((a + b)[a.len() + w] == m);
                }
            }
        } else {
            if exists|j: int| 0 <= j < gs.len() && (#[trigger] gs[j]).1.len() > 1 && gs[j].1.contains(m) {
                let j = choose|j: int|
                    0 <= j < gs.len() && (#[trigger] gs[j]).1.len() > 1 && gs[j].1.contains(m);
                assert(j < n);
                assert(prev[j] == gs[j]);
            }
            if multi_members(prev).contains(m) {
                let j = choose|j: int|
                    0 <= j < prev.len() && (#[trigger] prev[j]).1.len() > 1 && prev[j].1.contains(m);
                assert(gs[j] == prev[j]);
            }
        }
    }
}

/// Grouping loses nothing and mixes nothing: every entry lies in the group of
/// its key, a group holds only items that were handed in with its key, and
/// no two groups share a key.
pub proof fn lemma_grouping_is_exact(entries: Seq<(u128, usize)>, k: u128, m: usize)
    ensures
        (exists|j: int|
            0 <= j < grouped(entries).len() && (#[trigger] grouped(entries)[j]).0 == k
                && grouped(entries)[j].1.contains(m)) <==> (exists|p: int|
            0 <= p < entries.len() && #[trigger] entries[p] == (k, m)),
        forall|i: int, j: int|
            0 <= i < j < grouped(entries).len() ==> (#[trigger] grouped(entries)[i]).0 != (
            #[trigger] grouped(entries)[j]).0,
{
    let g = grouped(entries);
    let keys = first_keys(entries);
    lemma_first_keys_bounded(entries);
    lemma_members_contains(entries, k, m);
    if exists|p: int| 0 <= p < entries.len() && #[trigger] entries[p] == (k, m) {
        let p = choose|p: int| 0 <= p < entries.len() && #[trigger] entries[p] == (k, m);
        lemma_first_keys_contains(entries, k);
        assert(entries[p].0 == k);
        let j = choose|j: int| 0 <= j < keys.len() && keys[j] == k;
        assert(g[j].0 == k && g[j].1 == members_with(entries, k));
    }
}

/// A file is read for hashing exactly when some other file has its size: a
/// file whose size is unique cannot have a duplicate.
pub proof fn lemma_hashed_iff_size_shared(sizes: Seq<u64>, f: usize)
    requires
        f < sizes.len(),
        sizes.len() <= usize::MAX,
    ensures
        multi_members(grouped(size_entries(sizes))).contains(f) <==> exists|g: int|
            0 <= g < sizes.len() && g != f && #[trigger] sizes[g] == sizes[f as int],
{
    let e = size_entries(sizes);
    let gs = grouped(e);
    let k = sizes[f as int] as u128;
    lemma_multi_members_contains(gs, f);
    lemma_members_len(e, k);
    lemma_count_two(e, k);
    lemma_first_keys_contains(e, k);
    lemma_members_contains(e, k, f);
    assert(e[f as int] == (k, f));
    let keys = first_keys(e);
    assert(keys.contains(k));
    let jk = choose|j: int| 0 <= j < keys.len() && keys[j] == k;
    if multi_members(gs).contains(f) {
        let j = choose|j: int|
            0 <= j < gs.len() && (#[trigger] gs[j]).1.len() > 1 && gs[j].1.contains(f);
        lemma_members_contains(e, gs[j].0, f);
        let p = choose|p: int| 0 <= p < e.len() && #[trigger] e[p] == (gs[j].0, f);
        assert(e[p] == (sizes[p] as u128, p as usize));
        assert(p == f);
        assert(gs[j].0 == k);
        let (p1, q1) = choose|p1: int, q1: int|
            0 <= p1 < q1 < e.len() && (#[trigger] e[p1]).0 == k && (#[trigger] e[q1]).0 == k;
        if p1 != f {
            assert(sizes[p1] == sizes[f as int]);
        } else {
            assert(sizes[q1] == sizes[f as int]);
        }
    }
    if exists|g: int| 0 <= g < sizes.len() && g != f && #[trigger] sizes[g] == sizes[f as int] {
        let g = choose|g: int| 0 <= g < sizes.len() && g != f && #[trigger] sizes[g] == sizes[f as int];
        assert(e[g].0 == k);
        if g < f {
            assert(0 <= g < f < e.len() && e[g].0 == k && e[f as int].0 == k);
        } else {
            assert(0 <= f < g < e.len() && e[f as int].0 == k && e[g].0 == k);
        }
        assert(gs[jk].1.len() > 1 && gs[jk].1.contains(f));
    }
}

/// How many hashed files have digest `d`.
pub open spec fn count_digest(hashed: Seq<(usize, Option<u128>)>, d: u128) -> nat
    decreases hashed.len(),
{
    if hashed.len() == 0 {
        0
    } else {
        count_digest(hashed.drop_last(), d) + if hashed.last().1 == Some(d) {
            1nat
        } else {
            0nat
        }
    }
}

proof fn lemma_digest_entries(hashed: Seq<(usize, Option<u128>)>, d: u128, m: usize)
    ensures
        count_key(digest_entries(hashed), d) == count_digest(hashed, d),
        (exists|p: int|
            0 <= p < digest_entries(hashed).len() && #[trigger] digest_entries(hashed)[p] == (d, m))
            <==> (exists|p: int| 0 <= p < hashed.len() && #[trigger] hashed[p] == (m, Some(d))),
    decreases hashed.len(),
{
    if hashed.len() > 0 {
        let prev = hashed.drop_last();
        let e = digest_entries(hashed);
        let ep = digest_entries(prev);
        lemma_digest_entries(prev, d, m);
        match hashed.last().1 {
            Some(x) => {
                assert(e.drop_last() == ep);
            },
            None => {},
        }
        if exists|p: int| 0 <= p < e.len() && #[trigger] e[p] == (d, m) {
            let p = choose|p: int| 0 <= p < e.len() && #[trigger] e[p] == (d, m);
            if p < ep.len() {
                assert(ep[p] == (d, m));
                let q = choose|q: int| 0 <= q < prev.len() && #[trigger] prev[q] == (m, Some(d));
                assert(hashed[q] == (m, Some(d)));
            } else {
                assert(hashed[hashed.len() - 1] == (m, Some(d)));
            }
        }
        if exists|p: int| 0 <= p < hashed.len() && #[trigger] hashed[p] == (m, Some(d)) {
            let p = choose|p: int| 0 <= p < hashed.len() && #[trigger] hashed[p] == (m, Some(d));
            if p < prev.len() {
                assert(prev[p] == (m, Some(d)));
                let q = choose|q: int| 0 <= q < ep.len() && #[trigger] ep[q] == (d, m);
                assert(e[q] == (d, m));
            } else {
                assert(e[ep.len() as int] == (d, m));
            }
        }
    }
}

proof fn lemma_count_digest_two(hashed: Seq<(usize, Option<u128>)>, d: u128)
    ensures
        count_digest(hashed, d) >= 2 <==> exists|p: int, q: int|
            0 <= p < q < hashed.len() && (#[trigger] hashed[p]).1 == Some(d) && (
            #[trigger] hashed[q]).1 == Some(d),
        count_digest(hashed, d) >= 1 <==> exists|p: int|
            0 <= p < hashed.len() && (#[trigger] hashed[p]).1 == Some(d),
    decreases hashed.len(),
{
    if hashed.len() > 0 {
        let prev = hashed.drop_last();
        let n = hashed.len() - 1;
        lemma_count_digest_two(prev, d);
        if exists|p: int| 0 <= p < hashed.len() && (#[trigger] hashed[p]).1 == Some(d) {
            let p = choose|p: int| 0 <= p < hashed.len() && (#[trigger] hashed[p]).1 == Some(d);
            if p < n {
                assert(prev[p].1 == Some(d));
            }
        }
        if count_digest(prev, d) >= 1 {
            let p = choose|p: int| 0 <= p < prev.len() && (#[trigger] prev[p]).1 == Some(d);
            assert(hashed[p].1 == Some(d));
        }
        if exists|p: int, q: int|
            0 <= p < q < hashed.len() && (#[trigger] hashed[p]).1 == Some(d) && (
            #[trigger] hashed[q]).1 == Some(d) {
            let (p, q) = choose|p: int, q: int|
                0 <= p < q < hashed.len() && (#[trigger] hashed[p]).1 == Some(d) && (
                #[trigger] hashed[q]).1 == Some(d);
            if q < n {
                assert(prev[p].1 == Some(d) && prev[q].1 == Some(d));
            } else {
                assert(prev[p].1 == Some(d));
            }
        }
        if count_digest(prev, d) >= 2 {
            let (p, q) = choose|p: int, q: int|
                0 <= p < q < prev.len() && (#[trigger] prev[p]).1 == Some(d) && (
                #[trigger] prev[q]).1 == Some(d);
            assert(hashed[p].1 == Some(d) && hashed[q].1 == Some(d));
        }
        if count_digest(prev, d) >= 1 && hashed.last().1 == Some(d) {
            let p = choose|p: int| 0 <= p < prev.len() && (#[trigger] prev[p]).1 == Some(d);
            assert(hashed[p].1 == Some(d) && hashed[n].1 == Some(d));
        }
    }
}

proof fn lemma_multi_groups_contains(gs: Seq<(u128, Seq<usize>)>, d: u128, m: usize)
    ensures
        (exists|j: int|
            0 <= j < multi_groups(gs).len() && (#[trigger] multi_groups(gs)[j]).0 == d
                && multi_groups(gs)[j].1.contains(m)) <==> (exists|j: int|
            0 <= j < gs.len() && (#[trigger] gs[j]).0 == d && gs[j].1.len() > 1 && gs[j].1.contains(
                m,
            )),
    decreases gs.len(),
{
    if gs.len() > 0 {
        let prev = gs.drop_last();
        let mg = multi_groups(gs);
        let mp = multi_groups(prev);
        lemma_multi_groups_contains(prev, d, m);
        if exists|j: int| 0 <= j < mg.len() && (#[trigger] mg[j]).0 == d && mg[j].1.contains(m) {
            let j = choose|j: int| 0 <= j < mg.len() && (#[trigger] mg[j]).0 == d && mg[j].1.contains(m);
            if j < mp.len() {
                assert(mg[j] == mp[j]);
                let i = choose|i: int|
                    0 <= i < prev.len() && (#[trigger] prev[i]).0 == d && prev[i].1.len() > 1
                        && prev[i].1.contains(m);
                assert(gs[i] == prev[i]);
            } else {
                assert(mg[j] == gs.last());
                assert(gs[gs.len() - 1] == gs.last());
            }
        }
        if exists|j: int|
            0 <= j < gs.len() && (#[trigger] gs[j]).0 == d && gs[j].1.len() > 1 && gs[j].1.contains(
                m,
            ) {
            let j = choose|j: int|
                0 <= j < gs.len() && (#[trigger] gs[j]).0 == d && gs[j].1.len() > 1
                    && gs[j].1.contains(m);
            if j < prev.len() {
                assert(prev[j] == gs[j]);
                let i = choose|i: int| 0 <= i < mp.len() && (#[trigger] mp[i]).0 == d && mp[i].1.contains(m);
                assert(mg[i] == mp[i]);
            } else {
                assert(mg[mp.len() as int] == gs[j]);
            }
        }
    }
}

/// A hashed file lies in the duplicate set of digest `d` exactly when it was
/// hashed to `d` and at least one other hashed file has `d` too: files with
/// equal content are duplicates of each other, and a file is never a
/// duplicate of itself alone.
pub proof fn lemma_duplicate_sets_exact(hashed: Seq<(usize, Option<u128>)>, d: u128, m: usize)
    ensures
        (exists|j: int|
            0 <= j < multi_groups(grouped(digest_entries(hashed))).len() && (#[trigger] multi_groups(
                grouped(digest_entries(hashed)),
            )[j]).0 == d && multi_groups(grouped(digest_entries(hashed)))[j].1.contains(m)) <==> (
        (exists|p: int| 0 <= p < hashed.len() && #[trigger] hashed[p] == (m, Some(d)))
            && count_digest(hashed, d) >= 2),
        count_digest(hashed, d) >= 2 <==> exists|p: int, q: int|
            0 <= p < q < hashed.len() && (#[trigger] hashed[p]).1 == Some(d) && (
            #[trigger] hashed[q]).1 == Some(d),
{
    let e = digest_entries(hashed);
    let gs = grouped(e);
    lemma_multi_groups_contains(gs, d, m);
    lemma_grouping_is_exact(e, d, m);
    lemma_digest_entries(hashed, d, m);
    lemma_members_len(e, d);
    lemma_count_digest_two(hashed, d);
    let keys = first_keys(e);
    if exists|j: int| 0 <= j < gs.len() && (#[trigger] gs[j]).0 == d && gs[j].1.len() > 1 && gs[j].1.contains(m) {
        let j = choose|j: int|
            0 <= j < gs.len() && (#[trigger] gs[j]).0 == d && gs[j].1.len() > 1 && gs[j].1.contains(m);
        assert(gs[j].1 == members_with(e, d));
    }
    if (exists|p: int| 0 <= p < hashed.len() && #[trigger] hashed[p] == (m, Some(d))) && count_digest(hashed, d) >= 2 {
        let j = choose|j: int| 0 <= j < gs.len() && (#[trigger] gs[j]).0 == d && gs[j].1.contains(m);
        assert(gs[j].1 == members_with(e, d));
    }
}

proof fn lemma_size_members_increasing(sizes: Seq<u64>, n: int, k: u128)
    requires
        0 <= n <= sizes.len(),
        sizes.len() <= usize::MAX,
    ensures
        forall|i: int, j: int|
            0 <= i < j < members_with(size_entries(sizes).take(n), k).len() ==> members_with(
                size_entries(sizes).take(n),
                k,
            )[i] < members_with(size_entries(sizes).take(n), k)[j],
        forall|i: int|
            0 <= i < members_with(size_entries(sizes).take(n), k).len() ==> members_with(
                size_entries(sizes).take(n),
                k,
            )[i] < n,
    decreases n,
{
    let e = size_entries(sizes).take(n);
    if n > 0 {
        lemma_size_members_increasing(sizes, n - 1, k);
        let ep = size_entries(sizes).take(n - 1);
        assert(e.drop_last() == ep);
        assert(e.last() == (sizes[n - 1] as u128, (n - 1) as usize));
        let mw = members_with(e, k);
        let mp = members_with(ep, k);
        if e.last().0 == k {
            assert(mw == mp.push((n - 1) as usize));
            assert forall|i: int, j: int| 0 <= i < j < mw.len() implies mw[i] < mw[j] by {
                if j == mw.len() - 1 {
                    assert(mw[i] == mp[i]);
                } else {
                    assert(mw[i] == mp[i] && mw[j] == mp[j]);
                }
            }
            assert forall|i: int| 0 <= i < mw.len() implies mw[i] < n by {
                if i < mw.len() - 1 {
                    assert(mw[i] == mp[i]);
                }
            }
        } else {
            assert(mw == mp);
        }
    } else {
        assert(e.len() == 0);
    }
}

proof fn lemma_multi_members_no_dup(gs: Seq<(u128, Seq<usize>)>)
    requires
        forall|j: int| 0 <= j < gs.len() ==> (#[trigger] gs[j]).1.no_duplicates(),
        forall|i: int, j: int, m: usize|
            0 <= i < j < gs.len() ==> !(#[trigger] gs[i].1.contains(m) && #[trigger] gs[j].1.contains(m)),
    ensures
        multi_members(gs).no_duplicates(),
    decreases gs.len(),
{
    if gs.len() > 0 {
        let prev = gs.drop_last();
        let n = gs.len() - 1;
        assert forall|j: int| 0 <= j < prev.len() implies (#[trigger] prev[j]).1.no_duplicates() by {
            assert(prev[j] == gs[j]);
        }
        assert forall|i: int, j: int, m: usize|
            0 <= i < j < prev.len() implies !(#[trigger] prev[i].1.contains(m) && #[trigger] prev[j].1.contains(m)) by {
            assert(prev[i] == gs[i] && prev[j] == gs[j]);
        }
        lemma_multi_members_no_dup(prev);
        if gs.last().1.len() > 1 {
            let a = multi_members(prev);
            let b = gs.last().1;
            assert(gs[n] == gs.last());
            assert(b.no_duplicates());
            assert forall|i: int, j: int|
                0 <= i < (a + b).len() && 0 <= j < (a + b).len() && i != j implies (a + b)[i] != (a
                    + b)[j] by {
                if i < a.len() && j >= a.len() {
                    let m = a[i];
                    if m == b[j - a.len()] {
                        lemma_multi_members_contains(prev, m);
                        assert(a.contains(m));
                        let g = choose|g: int|
                            0 <= g < prev.len() && (#[trigger] prev[g]).1.len() > 1
                                && prev[g].1.contains(m);
                        assert(prev[g] == gs[g]);
                        assert(b.contains(m));
                        assert(!(gs[g].1.contains(m) && gs[n].1.contains(m)));
                    }
                } else if j < a.len() && i >= a.len() {
                    let m = a[j];
                    if m == b[i - a.len()] {
                        lemma_multi_members_contains(prev, m);
                        assert(a.contains(m));
                        let g = choose|g: int|
                            0 <= g < prev.len() && (#[trigger] prev[g]).1.len() > 1
                                && prev[g].1.contains(m);
                        assert(prev[g] == gs[g]);
                        assert(b.contains(m));
                        assert(!(gs[g].1.contains(m) && gs[n].1.contains(m)));
                    }
                } else if i >= a.len() && j >= a.len() {
                    assert((a + b)[i] == b[i - a.len()] && (a + b)[j] == b[j - a.len()]);
                } else {
                    assert((a + b)[i] == a[i] && (a + b)[j] == a[j]);
                }
            }
        }
    }
}

/// Every file to be hashed is listed once: the list of files to hash has no
/// repeated file number, so no file is read twice and none can form a
/// duplicate set with itself.
pub proof fn lemma_hashed_once(sizes: Seq<u64>)
    requires
        sizes.len() <= usize::MAX,
    ensures
        multi_members(grouped(size_entries(sizes))).no_duplicates(),
{
    let e = size_entries(sizes);
    let gs = grouped(e);
    let keys = first_keys(e);
    lemma_first_keys_bounded(e);
    assert(e.take(sizes.len() as int) == e);
    assert forall|j: int| 0 <= j < gs.len() implies (#[trigger] gs[j]).1.no_duplicates() by {
        lemma_size_members_increasing(sizes, sizes.len() as int, keys[j]);
        assert(gs[j].1 == members_with(e, keys[j]));
    }
    assert forall|i: int, j: int, m: usize|
        0 <= i < j < gs.len() implies !(#[trigger] gs[i].1.contains(m) && #[trigger] gs[j].1.contains(m)) by {
        if gs[i].1.contains(m) && gs[j].1.contains(m) {
            lemma_members_contains(e, keys[i], m);
            lemma_members_contains(e, keys[j], m);
            let p = choose|p: int| 0 <= p < e.len() && #[trigger] e[p] == (keys[i], m);
            let q = choose|q: int| 0 <= q < e.len() && #[trigger] e[q] == (keys[j], m);
            assert(e[p] == (sizes[p] as u128, p as usize));
            assert(e[q] == (sizes[q] as u128, q as usize));
            assert(p == q);
            assert(keys[i] != keys[j]);
        }
    }
    lemma_multi_members_no_dup(gs);
}

proof fn lemma_multi_groups_elements(gs: Seq<(u128, Seq<usize>)>)
    ensures
        forall|j: int|
            0 <= j < multi_groups(gs).len() ==> exists|i: int|
                0 <= i < gs.len() && #[trigger] multi_groups(gs)[j] == gs[i] && gs[i].1.len() > 1,
        forall|j1: int, j2: int|
            0 <= j1 < j2 < multi_groups(gs).len() ==> exists|i1: int, i2: int|
                0 <= i1 < i2 < gs.len() && #[trigger] multi_groups(gs)[j1] == gs[i1]
                    && #[trigger] multi_groups(gs)[j2] == gs[i2],
    decreases gs.len(),
{
    if gs.len() > 0 {
        let prev = gs.drop_last();
        let n = gs.len() - 1;
        let mg = multi_groups(gs);
        let mp = multi_groups(prev);
        lemma_multi_groups_elements(prev);
        assert forall|j: int| 0 <= j < mg.len() implies exists|i: int|
            0 <= i < gs.len() && #[trigger] mg[j] == gs[i] && gs[i].1.len() > 1 by {
            if j < mp.len() {
                assert(mg[j] == mp[j]);
                let i = choose|i: int| 0 <= i < prev.len() && #[trigger] mp[j] == prev[i] && prev[i].1.len() > 1;
                assert(gs[i] == prev[i]);
            } else {
                assert(mg[j] == gs[n]);
            }
        }
        assert forall|j1: int, j2: int| 0 <= j1 < j2 < mg.len() implies exists|i1: int, i2: int|
            0 <= i1 < i2 < gs.len() && #[trigger] mg[j1] == gs[i1] && #[trigger] mg[j2] == gs[i2] by {
            if j2 < mp.len() {
                assert(mg[j1] == mp[j1] && mg[j2] == mp[j2]);
                let (i1, i2) = choose|i1: int, i2: int|
                    0 <= i1 < i2 < prev.len() && #[trigger] mp[j1] == prev[i1] && #[trigger] mp[j2] == prev[i2];
                assert(gs[i1] == prev[i1] && gs[i2] == prev[i2]);
            } else {
                assert(mg[j1] == mp[j1]);
                let i1 = choose|i1: int| 0 <= i1 < prev.len() && #[trigger] mp[j1] == prev[i1] && prev[i1].1.len() > 1;
                assert(gs[i1] == prev[i1]);
                assert(mg[j2] == gs[n]);
            }
        }
    }
}

/// The file numbers handed in are pairwise distinct.
pub open spec fn distinct_files(hashed: Seq<(usize, Option<u128>)>) -> bool {
    forall|p: int, q: int| 0 <= p < q < hashed.len() ==> #[trigger] hashed[p].0 != #[trigger] hashed[q].0
}

proof fn lemma_digest_entries_distinct(hashed: Seq<(usize, Option<u128>)>)
    requires
        distinct_files(hashed),
    ensures
        forall|p: int, q: int|
            0 <= p < q < digest_entries(hashed).len() ==> #[trigger] digest_entries(hashed)[p].1
                != #[trigger] digest_entries(hashed)[q].1,
    decreases hashed.len(),
{
    if hashed.len() > 0 {
        let prev = hashed.drop_last();
        let e = digest_entries(hashed);
        let ep = digest_entries(prev);
        assert forall|p: int, q: int| 0 <= p < q < prev.len() implies #[trigger] prev[p].0 != #[trigger] prev[q].0 by {
            assert(prev[p] == hashed[p] && prev[q] == hashed[q]);
        }
        lemma_digest_entries_distinct(prev);
        match hashed.last().1 {
            Some(d) => {
                assert(e == ep.push((d, hashed.last().0)));
                assert forall|p: int, q: int| 0 <= p < q < e.len() implies #[trigger] e[p].1 != #[trigger] e[q].1 by {
                    if q == e.len() - 1 {
                        let m = e[p].1;
                        let k = e[p].0;
                        assert(ep[p] == (k, m));
                        lemma_digest_entries(prev, k, m);
                        let r = choose|r: int| 0 <= r < prev.len() && #[trigger] prev[r] == (m, Some(k));
                        assert(hashed[r].0 != hashed[hashed.len() - 1].0);
                    } else {
                        assert(e[p] == ep[p] && e[q] == ep[q]);
                    }
                }
            },
            None => {},
        }
    }
}

proof fn lemma_members_distinct(entries: Seq<(u128, usize)>, k: u128)
    requires
        forall|p: int, q: int|
            0 <= p < q < entries.len() ==> #[trigger] entries[p].1 != #[trigger] entries[q].1,
    ensures
        members_with(entries, k).no_duplicates(),
    decreases entries.len(),
{
    if entries.len() > 0 {
        let prev = entries.drop_last();
        assert forall|p: int, q: int| 0 <= p < q < prev.len() implies #[trigger] prev[p].1 != #[trigger] prev[q].1 by {
            assert(prev[p] == entries[p] && prev[q] == entries[q]);
        }
        lemma_members_distinct(prev, k);
        if entries.last().0 == k {
            let mp = members_with(prev, k);
            let mw = members_with(entries, k);
            let m = entries.last().1;
            assert(mw == mp.push(m));
            if mp.contains(m) {
                lemma_members_contains(prev, k, m);
                let r = choose|r: int| 0 <= r < prev.len() && #[trigger] prev[r] == (k, m);
                assert(entries[r].1 == entries[entries.len() - 1].1);
            }
            assert forall|i: int, j: int| 0 <= i < mw.len() && 0 <= j < mw.len() && i != j implies mw[i] != mw[j] by {
                if i == mw.len() - 1 {
                    assert(mp[j] == mw[j]);
                } else if j == mw.len() - 1 {
                    assert(mp[i] == mw[i]);
                } else {
                    assert(mp[i] == mw[i] && mp[j] == mw[j]);
                }
            }
        }
    }
}

/// The duplicate sets are well formed: each holds at least two files, no two
/// sets share a digest, and when the files handed in are distinct (as the
/// list of files to hash is), no set names a file twice and no file is in
/// two sets -- a file is never its own duplicate, and never moved twice.
pub proof fn lemma_duplicate_sets_well_formed(hashed: Seq<(usize, Option<u128>)>)
    ensures
        forall|j: int|
            0 <= j < multi_groups(grouped(digest_entries(hashed))).len() ==> (
            #[trigger] multi_groups(grouped(digest_entries(hashed)))[j]).1.len() >= 2,
        forall|i: int, j: int|
            0 <= i < j < multi_groups(grouped(digest_entries(hashed))).len() ==> (
            #[trigger] multi_groups(grouped(digest_entries(hashed)))[i]).0 != (
            #[trigger] multi_groups(grouped(digest_entries(hashed)))[j]).0,
        distinct_files(hashed) ==> forall|j: int|
            0 <= j < multi_groups(grouped(digest_entries(hashed))).len() ==> (
            #[trigger] multi_groups(grouped(digest_entries(hashed)))[j]).1.no_duplicates(),
        distinct_files(hashed) ==> forall|i: int, j: int, m: usize|
            0 <= i < j < multi_groups(grouped(digest_entries(hashed))).len() ==> !(
            #[trigger] multi_groups(grouped(digest_entries(hashed)))[i].1.contains(m)
                && #[trigger] multi_groups(grouped(digest_entries(hashed)))[j].1.contains(m)),
{
    let e = digest_entries(hashed);
    let gs = grouped(e);
    let mg = multi_groups(gs);
    let keys = first_keys(e);
    lemma_first_keys_bounded(e);
    lemma_multi_groups_elements(gs);
    assert forall|j: int| 0 <= j < mg.len() implies (#[trigger] mg[j]).1.len() >= 2 by {
        let i = choose|i: int| 0 <= i < gs.len() && #[trigger] mg[j] == gs[i] && gs[i].1.len() > 1;
    }
    assert forall|a: int, b: int| 0 <= a < b < mg.len() implies (#[trigger] mg[a]).0 != (#[trigger] mg[b]).0 by {
        let (i1, i2) = choose|i1: int, i2: int|
            0 <= i1 < i2 < gs.len() && #[trigger] mg[a] == gs[i1] && #[trigger] mg[b] == gs[i2];
        assert(keys[i1] != keys[i2]);
    }
    if distinct_files(hashed) {
        lemma_digest_entries_distinct(hashed);
        assert forall|j: int| 0 <= j < mg.len() implies (#[trigger] mg[j]).1.no_duplicates() by {
            let i = choose|i: int| 0 <= i < gs.len() && #[trigger] mg[j] == gs[i] && gs[i].1.len() > 1;
            lemma_members_distinct(e, keys[i]);
        }
        assert forall|a: int, b: int, m: usize| 0 <= a < b < mg.len() implies !(#[trigger] mg[a].1.contains(m)
            && #[trigger] mg[b].1.contains(m)) by {
            if mg[a].1.contains(m) && mg[b].1.contains(m) {
                let (i1, i2) = choose|i1: int, i2: int|
                    0 <= i1 < i2 < gs.len() && #[trigger] mg[a] == gs[i1] && #[trigger] mg[b] == gs[i2];
                lemma_members_contains(e, keys[i1], m);
                lemma_members_contains(e, keys[i2], m);
                let p = choose|p: int| 0 <= p < e.len() && #[trigger] e[p] == (keys[i1], m);
                let q = choose|q: int| 0 <= q < e.len() && #[trigger] e[q] == (keys[i2], m);
                if p != q {
                    if p < q {
                        assert(e[p].1 != e[q].1);
                    } else {
                        assert(e[q].1 != e[p].1);
                    }
                }
                assert(keys[i1] != keys[i2]);
            }
        }
    }
}

/// How many of the files handed in have a digest.
pub open spec fn count_digested(hashed: Seq<(usize, Option<u128>)>) -> nat
    decreases hashed.len(),
{
    if hashed.len() == 0 {
        0
    } else {
        count_digested(hashed.drop_last()) + if hashed.last().1 is Some {
            1nat
        } else {
            0nat
        }
    }
}

/// The distinct digests among the files handed in.
pub open spec fn digests_of(hashed: Seq<(usize, Option<u128>)>) -> Set<u128> {
    Set::new(|d: u128| exists|p: int| 0 <= p < hashed.len() && #[trigger] hashed[p].1 == Some(d))
}

proof fn lemma_surplus_grouped(entries: Seq<(u128, usize)>)
    ensures
        surplus(grouped(entries)) == entries.len() - first_keys(entries).len(),
    decreases entries.len(),
{
    if entries.len() > 0 {
        let prev = entries.drop_last();
        let (k, m) = entries.last();
        lemma_surplus_grouped(prev);
        lemma_first_keys_bounded(prev);
        let gp = grouped(prev);
        let g = grouped(entries);
        let kp = first_keys(prev);
        if kp.contains(k) {
            let j = choose|j: int| 0 <= j < kp.len() && kp[j] == k;
            assert(first_keys(entries) == kp);
            assert(g =~= gp.update(j, (gp[j].0, gp[j].1.push(m)))) by {
                assert forall|i: int| 0 <= i < g.len() implies g[i] == gp.update(j, (gp[j].0, gp[j].1.push(m)))[i] by {
                    if i != j {
                        assert(kp[i] != k);
                    }
                }
            }
            lemma_surplus_grow(gp, j, m);
        } else {
            assert(first_keys(entries) == kp.push(k));
            lemma_members_empty(prev, k);
            assert(g =~= gp.push((k, seq![m]))) by {
                assert forall|i: int| 0 <= i < g.len() implies g[i] == gp.push((k, seq![m]))[i] by {
                    if i < kp.len() {
                        assert(kp[i] != k);
                    } else {
                        assert(members_with(entries, k) == Seq::<usize>::empty().push(m));
                    }
                }
            }
            assert(g.drop_last() == gp);
        }
    }
}

proof fn lemma_count_digested(hashed: Seq<(usize, Option<u128>)>)
    ensures
        digest_entries(hashed).len() == count_digested(hashed),
    decreases hashed.len(),
{
    if hashed.len() > 0 {
        lemma_count_digested(hashed.drop_last());
    }
}

/// The number of duplicates found is the number of files with a digest less
/// the number of distinct digests: of the files sharing a digest, all but one
/// are duplicates, and a file whose digest is unique is none.
pub proof fn lemma_found_counts_all_but_one_per_digest(hashed: Seq<(usize, Option<u128>)>)
    ensures
        digests_of(hashed).finite(),
        surplus(multi_groups(grouped(digest_entries(hashed)))) == count_digested(hashed)
            - digests_of(hashed).len(),
{
    let e = digest_entries(hashed);
    let gs = grouped(e);
    let keys = first_keys(e);
    lemma_surplus_grouped(e);
    assert forall|j: int| 0 <= j < gs.len() implies #[trigger] gs[j].1.len() > 0 by {
        lemma_grouped_nonempty(e, j);
    }
    lemma_multi_surplus(gs);
    lemma_count_digested(hashed);
    lemma_first_keys_bounded(e);
    assert forall|d: u128| keys.to_set().contains(d) <==> digests_of(hashed).contains(d) by {
        lemma_first_keys_contains(e, d);
        if keys.to_set().contains(d) {
            assert(keys.contains(d));
            let p = choose|p: int| 0 <= p < e.len() && (#[trigger] e[p]).0 == d;
            let m = e[p].1;
            lemma_digest_entries(hashed, d, m);
            assert(e[p] == (d, m));
            let q = choose|q: int| 0 <= q < hashed.len() && #[trigger] hashed[q] == (m, Some(d));
            assert(hashed[q].1 == Some(d));
        }
        if digests_of(hashed).contains(d) {
            let q = choose|q: int| 0 <= q < hashed.len() && #[trigger] hashed[q].1 == Some(d);
            let m = hashed[q].0;
            lemma_digest_entries(hashed, d, m);
            assert(hashed[q] == (m, Some(d)));
            let p = choose|p: int| 0 <= p < e.len() && #[trigger] e[p] == (d, m);
            assert(e[p].0 == d);
            assert(keys.contains(d));
        }
    }
    assert(keys.to_set() =~= digests_of(hashed));
    assert(keys.no_duplicates()) by {
        assert forall|i: int, j: int| 0 <= i < keys.len() && 0 <= j < keys.len() && i != j implies keys[i] != keys[j] by {
            if i > j {
                assert(keys[j] != keys[i]);
            }
        }
    }
    keys.unique_seq_to_set();
}

/// A group lists its items in the order in which they were handed in: when
/// no item is handed in twice, an item that comes earlier in a group also
/// comes earlier in the input. (The file kept of a set of equally old files is
/// therefore the one that came first.)
pub proof fn lemma_group_keeps_input_order(entries: Seq<(u128, usize)>, k: u128)
    requires
        forall|p: int, q: int|
            0 <= p < q < entries.len() ==> #[trigger] entries[p].1 != #[trigger] entries[q].1,
    ensures
        forall|i: int, j: int, p: int, q: int|
            #![trigger entries[p], entries[q], members_with(entries, k)[i], members_with(entries, k)[j]]
            0 <= i < j < members_with(entries, k).len() && 0 <= p < entries.len() && 0 <= q
                < entries.len() && entries[p] == (k, members_with(entries, k)[i])
                && entries[q] == (k, members_with(entries, k)[j]) ==> p < q,
    decreases entries.len(),
{
    if entries.len() > 0 {
        let n = entries.len() - 1;
        let prev = entries.drop_last();
        assert forall|p: int, q: int| 0 <= p < q < prev.len() implies #[trigger] prev[p].1 != #[trigger] prev[q].1 by {
            assert(prev[p] == entries[p] && prev[q] == entries[q]);
        }
        lemma_group_keeps_input_order(prev, k);
        let mw = members_with(entries, k);
        let mp = members_with(prev, k);
        assert forall|i: int, j: int, p: int, q: int|
            #![trigger entries[p], entries[q], mw[i], mw[j]]
            0 <= i < j < mw.len() && 0 <= p < entries.len() && 0 <= q < entries.len()
                && entries[p] == (k, mw[i]) && entries[q] == (k, mw[j]) implies p < q by {
            assert(i < mp.len());
            assert(mw[i] == mp[i]);
            lemma_members_contains(prev, k, mp[i]);
            assert(mp.contains(mp[i]));
            let p0 = choose|p0: int| 0 <= p0 < prev.len() && #[trigger] prev[p0] == (k, mp[i]);
            assert(entries[p0] == (k, mp[i]));
            if p != p0 {
                if p < p0 {
                    assert(entries[p].1 != entries[p0].1);
                } else {
                    assert(entries[p0].1 != entries[p].1);
                }
            }
            assert(p == p0 && p < n);
            if q < n {
                if j < mp.len() {
                    assert(mw[j] == mp[j]);
                    assert(prev[p] == (k, mp[i]) && prev[q] == (k, mp[j]));
                } else {
                    // the last item of the group is the last entry, so it is at n
                    assert(entries.last().0 == k);
                    assert(mw[j] == entries[n].1);
                    assert(entries[q].1 != entries[n].1);
                }
            }
        }
    }
}

} // verus!
