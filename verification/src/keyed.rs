use vstd::prelude::*;
use std::collections::HashMap;
use std::collections::hash_map::DefaultHasher;
use std::hash::Hash;
use std::hash::Hasher;
use vstd::std_specs::hash::DefaultHasherAdditionalSpecFns;

verus! {

broadcast use vstd::std_specs::hash::group_hash_axioms;

// ---------------------------------------------------------------------------
// Model of a keyed list update.
//
// An `#each` block keeps one rendered entry per item, identified by the key
// (hash) of the item. When the block's items change, the entries are matched
// against the new keys: a common head and a common tail stay where they are,
// entries of the middle are found again by key, the longest increasing run of
// reused entries keeps its place, other reused entries are moved, unmatched
// old entries are removed and unmatched new keys get fresh entries.
// ---------------------------------------------------------------------------

/// Length of the common head of `old` and `new`.
pub open spec fn is_common_head(old: Seq<u64>, new: Seq<u64>, h: int) -> bool {
    &&& 0 <= h <= old.len()
    &&& h <= new.len()
    &&& forall|i: int| 0 <= i < h ==> old[i] == new[i]
    &&& h < old.len() && h < new.len() ==> old[h] != new[h]
}

/// Length of the common tail of `old` and `new` after a head of length `h`.
pub open spec fn is_common_tail(old: Seq<u64>, new: Seq<u64>, h: int, t: int) -> bool {
    &&& 0 <= t <= old.len() - h
    &&& t <= new.len() - h
    &&& forall|i: int| old.len() - t <= i < old.len() ==> #[trigger] old[i] == new[new.len() - old.len() + i]
    &&& t < old.len() - h && t < new.len() - h ==> old[old.len() - 1 - t] != new[new.len() - 1
        - t]
}

/// The last index `i` in `lo..hi` with `keys[i] == k`, or -1.
pub open spec fn last_index_of(keys: Seq<u64>, lo: int, hi: int, k: u64) -> int
    decreases hi - lo,
{
    if hi <= lo {
        -1
    } else if keys[hi - 1] == k {
        hi - 1
    } else {
        last_index_of(keys, lo, hi - 1, k)
    }
}

/// The new position that the old middle entry `j` is matched to (-1: none):
/// the last position of its key in the middle of `new`.
pub open spec fn match_of(old: Seq<u64>, new: Seq<u64>, h: int, t: int, j: int) -> int {
    last_index_of(new, h, new.len() - t, old[j])
}

/// The last old middle entry in `h..hi` matched to new position `i`, or -1.
pub open spec fn last_claimant(old: Seq<u64>, new: Seq<u64>, h: int, t: int, hi: int, i: int) -> int
    decreases hi - h,
{
    if hi <= h {
        -1
    } else if match_of(old, new, h, t, hi - 1) == i {
        hi - 1
    } else {
        last_claimant(old, new, h, t, hi - 1, i)
    }
}

/// The old entry that new position `i` reuses, if any.
pub open spec fn source_of(old: Seq<u64>, new: Seq<u64>, h: int, t: int, i: int) -> Option<int> {
    if i < h {
        Some(i)
    } else if i >= new.len() - t {
        Some(old.len() - new.len() + i)
    } else {
        let c = last_claimant(old, new, h, t, old.len() - t, i);
        if c >= 0 {
            Some(c)
        } else {
            None
        }
    }
}

pub open spec fn opt_view(o: Option<usize>) -> Option<int> {
    match o {
        Some(v) => Some(v as int),
        None => None,
    }
}

/// `sources` reuses, for every new position, the old entry that `source_of` names.
pub open spec fn sources_match(
    old: Seq<u64>,
    new: Seq<u64>,
    h: int,
    t: int,
    sources: Seq<Option<usize>>,
) -> bool {
    &&& sources.len() == new.len()
    &&& forall|i: int| 0 <= i < new.len() ==> opt_view(#[trigger] sources[i]) == source_of(old, new, h, t, i)
}

/// `removed` lists, in increasing order, the old middle entries whose key
/// does not occur in the middle of `new`.
pub open spec fn removed_match(
    old: Seq<u64>,
    new: Seq<u64>,
    h: int,
    t: int,
    removed: Seq<usize>,
) -> bool {
    &&& forall|a: int, b: int| 0 <= a < b < removed.len() ==> removed[a] < removed[b]
    &&& forall|a: int| 0 <= a < removed.len() ==> h <= #[trigger] removed[a] < old.len() - t
        && match_of(old, new, h, t, removed[a] as int) < 0
    &&& forall|j: int| h <= j < old.len() - t && match_of(old, new, h, t, j) < 0 ==> #[trigger] removed.contains(j as usize)
}

// ---------------------------------------------------------------------------
// Basic facts about `last_index_of` and `last_claimant`.
// ---------------------------------------------------------------------------

pub proof fn lemma_last_index_of(keys: Seq<u64>, lo: int, hi: int, k: u64)
    requires
        0 <= lo,
        hi <= keys.len(),
    ensures
        ({
            let r = last_index_of(keys, lo, hi, k);
            &&& r >= 0 ==> lo <= r < hi && keys[r] == k
            &&& r >= 0 ==> forall|j: int| r < j < hi ==> keys[j] != k
            &&& r < 0 ==> r == -1 && forall|j: int| lo <= j < hi ==> keys[j] != k
        }),
    decreases hi - lo,
{
    if hi > lo && keys[hi - 1] != k {
        lemma_last_index_of(keys, lo, hi - 1, k);
    }
}

pub proof fn lemma_last_claimant(old: Seq<u64>, new: Seq<u64>, h: int, t: int, hi: int, i: int)
    requires
        0 <= h,
        hi <= old.len(),
    ensures
        ({
            let c = last_claimant(old, new, h, t, hi, i);
            &&& c >= 0 ==> h <= c < hi && match_of(old, new, h, t, c) == i
            &&& c >= 0 ==> forall|j: int| c < j < hi ==> match_of(old, new, h, t, j) != i
            &&& c < 0 ==> c == -1 && forall|j: int| h <= j < hi ==> match_of(old, new, h, t, j) != i
        }),
    decreases hi - h,
{
    if hi > h && match_of(old, new, h, t, hi - 1) != i {
        lemma_last_claimant(old, new, h, t, hi - 1, i);
    }
}

// ---------------------------------------------------------------------------
// The steps of the matching.
// ---------------------------------------------------------------------------

/// Length of the common head: entries that keep their key at the same position.
pub fn common_head(old: &Vec<u64>, new: &Vec<u64>) -> (h: usize)
    ensures
        is_common_head(old@, new@, h as int),
{
    let mut h: usize = 0;
    while h < old.len() && h < new.len() && old[h] == new[h]
        invariant
            h <= old.len(),
            h <= new.len(),
            forall|i: int| 0 <= i < h ==> old@[i] == new@[i],
        decreases old.len() - h,
    {
        h += 1;
    }
    h
}

/// Length of the common tail that follows a head of length `h`.
pub fn common_tail(old: &Vec<u64>, new: &Vec<u64>, h: usize) -> (t: usize)
    requires
        is_common_head(old@, new@, h as int),
    ensures
        is_common_tail(old@, new@, h as int, t as int),
{
    let mut t: usize = 0;
    while t < old.len() - h && t < new.len() - h && old[old.len() - 1 - t] == new[new.len() - 1
        - t]
        invariant
            h <= old.len(),
            h <= new.len(),
            t <= old.len() - h,
            t <= new.len() - h,
            forall|i: int| old.len() - t <= i < old.len() ==> #[trigger] old@[i] == new@[new.len() - old.len() + i],
        decreases old.len() - t,
    {
        t += 1;
    }
    t
}

/// Maps each key of the middle of `new` to its last position there.
fn middle_positions(new: &Vec<u64>, h: usize, t: usize) -> (m: HashMap<u64, usize>)
    requires
        h + t <= new.len(),
    ensures
        forall|k: u64| #[trigger]
            m@.contains_key(k) == (last_index_of(new@, h as int, new.len() - t, k) >= 0),
        forall|k: u64|
            #[trigger] m@.contains_key(k) ==> m@[k] as int == last_index_of(
                new@,
                h as int,
                new.len() - t,
                k,
            ),
{
    let mut m: HashMap<u64, usize> = HashMap::new();
    let end = new.len() - t;
    let mut i = h;
    while i < end
        invariant
            end == new.len() - t,
            h <= i <= end,
            forall|k: u64| #[trigger]
                m@.contains_key(k) == (last_index_of(new@, h as int, i as int, k) >= 0),
            forall|k: u64|
                #[trigger] m@.contains_key(k) ==> m@[k] as int == last_index_of(
                    new@,
                    h as int,
                    i as int,
                    k,
                ),
        decreases end - i,
    {
        m.insert(new[i], i);
        proof {
            assert forall|k: u64| #[trigger]
                m@.contains_key(k) == (last_index_of(new@, h as int, i + 1, k) >= 0) by {
                lemma_last_index_of(new@, h as int, i as int, k);
            }
        }
        i += 1;
    }
    m
}

/// For every new position, the old entry it reuses (head, tail, and middle
/// entries found again by key); and the old middle entries found nowhere.
pub fn match_sources(old: &Vec<u64>, new: &Vec<u64>, h: usize, t: usize) -> (res: (
    Vec<Option<usize>>,
    Vec<usize>,
))
    requires
        is_common_head(old@, new@, h as int),
        is_common_tail(old@, new@, h as int, t as int),
    ensures
        sources_match(old@, new@, h as int, t as int, res.0@),
        removed_match(old@, new@, h as int, t as int, res.1@),
{
    let m = middle_positions(new, h, t);
    let ghost o = old@;
    let ghost n = new@;
    let mut sources: Vec<Option<usize>> = Vec::new();
    let mut i: usize = 0;
    while i < new.len()
        invariant
            sources@.len() == i,
            i <= new.len(),
            h + t <= new.len(),
            h + t <= old.len(),
            forall|x: int| 0 <= x < i ==> #[trigger] sources@[x] == if x < h {
                Some(x as usize)
            } else if x >= new.len() - t {
                Some((old.len() - (new.len() - x)) as usize)
            } else {
                None::<usize>
            },
        decreases new.len() - i,
    {
        if i < h {
            sources.push(Some(i));
        } else if i >= new.len() - t {
            sources.push(Some(old.len() - (new.len() - i)));
        } else {
            sources.push(None);
        }
        i += 1;
    }
    let mut removed: Vec<usize> = Vec::new();
    let end = old.len() - t;
    let mut j = h;
    while j < end
        invariant
            o == old@,
            n == new@,
            is_common_head(o, n, h as int),
            is_common_tail(o, n, h as int, t as int),
            end == o.len() - t,
            h <= j <= end,
            forall|k: u64| #[trigger]
                m@.contains_key(k) == (last_index_of(n, h as int, n.len() - t, k) >= 0),
            forall|k: u64|
                #[trigger] m@.contains_key(k) ==> m@[k] as int == last_index_of(
                    n,
                    h as int,
                    n.len() - t,
                    k,
                ),
            sources@.len() == n.len(),
            forall|x: int|
                0 <= x < n.len() ==> opt_view(#[trigger] sources@[x]) == if x < h {
                    Some(x)
                } else if x >= n.len() - t {
                    Some(o.len() - n.len() + x)
                } else {
                    let c = last_claimant(o, n, h as int, t as int, j as int, x);
                    if c >= 0 {
                        Some(c)
                    } else {
                        None
                    }
                },
            forall|a: int, b: int| 0 <= a < b < removed@.len() ==> removed@[a] < removed@[b],
            forall|a: int|
                0 <= a < removed@.len() ==> h <= #[trigger] removed@[a] < j && match_of(
                    o,
                    n,
                    h as int,
                    t as int,
                    removed@[a] as int,
                ) < 0,
            forall|x: int|
                h <= x < j && match_of(o, n, h as int, t as int, x) < 0 ==> #[trigger] removed@.contains(
                    x as usize,
                ),
        decreases end - j,
    {
        let key = old[j];
        let ghost prev_removed = removed@;
        match m.get(&key) {
            Some(new_index) => {
                let ni = *new_index;
                proof {
                    lemma_last_index_of(n, h as int, n.len() - t, key);
                }
                sources.set(ni, Some(j));
            },
            None => {
                removed.push(j);
                proof {
                    assert(removed@.last() == j);
                }
            },
        }
        proof {
            assert forall|x: int|
                h <= x < j + 1 && match_of(o, n, h as int, t as int, x) < 0 implies #[trigger] removed@.contains(
                x as usize,
            ) by {
                if x == j {
                    assert(removed@[removed@.len() - 1] == j);
                } else {
                    assert(prev_removed.contains(x as usize));
                    let idx = choose|idx: int| 0 <= idx < prev_removed.len() && prev_removed[idx] == x as usize;
                    assert(removed@[idx] == x as usize);
                }
            }
        }
        j += 1;
    }
    proof {
        assert forall|x: int| 0 <= x < n.len() implies opt_view(#[trigger] sources@[x]) == source_of(
            o,
            n,
            h as int,
            t as int,
            x,
        ) by {}
    }
    (sources, removed)
}


// ---------------------------------------------------------------------------
// Runs of reused entries whose old positions increase.
// ---------------------------------------------------------------------------

/// The old position reused by the last reusing entry among the first `n`, or -1.
pub open spec fn last_source_before(src: Seq<Option<usize>>, n: int) -> int
    decreases n,
{
    if n <= 0 {
        -1
    } else {
        match src[n - 1] {
            Some(s) => s as int,
            None => last_source_before(src, n - 1),
        }
    }
}

/// The first `n` new positions that reuse an entry, cut into maximal runs in
/// which the reused old positions strictly increase (the first run may be empty).
pub open spec fn increasing_runs(src: Seq<Option<usize>>, n: int) -> Seq<Seq<int>>
    decreases n,
{
    if n <= 0 {
        seq![Seq::<int>::empty()]
    } else {
        let r = increasing_runs(src, n - 1);
        match src[n - 1] {
            None => r,
            Some(s) => if r.last().len() == 0 || s > last_source_before(src, n - 1) {
                r.update(r.len() - 1, r.last().push(n - 1))
            } else {
                r.push(seq![n - 1])
            },
        }
    }
}

/// Index of the last of the longest among the first `n` runs.
pub open spec fn longest_index(runs: Seq<Seq<int>>, n: int) -> int
    decreases n,
{
    if n <= 1 {
        0
    } else {
        let b = longest_index(runs, n - 1);
        if runs[n - 1].len() >= runs[b].len() {
            n - 1
        } else {
            b
        }
    }
}

/// The new positions whose entries keep their place: the last longest run.
pub open spec fn kept_positions(src: Seq<Option<usize>>) -> Seq<int> {
    let r = increasing_runs(src, src.len() as int);
    r[longest_index(r, r.len() as int)]
}

pub open spec fn run_view(r: Vec<usize>) -> Seq<int> {
    r@.map_values(|x: usize| x as int)
}

pub open spec fn runs_view(v: Seq<Vec<usize>>) -> Seq<Seq<int>> {
    v.map_values(|r: Vec<usize>| run_view(r))
}

proof fn lemma_runs_nonempty(src: Seq<Option<usize>>, n: int)
    ensures
        increasing_runs(src, n).len() >= 1,
    decreases n,
{
    if n > 0 {
        lemma_runs_nonempty(src, n - 1);
    }
}

proof fn lemma_longest_in_range(runs: Seq<Seq<int>>, n: int)
    requires
        1 <= n,
    ensures
        0 <= longest_index(runs, n) < n,
    decreases n,
{
    if n > 1 {
        lemma_longest_in_range(runs, n - 1);
    }
}

/// The new positions of the last longest run of reused entries whose old
/// positions increase: those entries need not move.
pub fn longest_increasing_run(sources: &Vec<Option<usize>>) -> (kept: Vec<usize>)
    requires
        forall|i: int| 0 <= i < sources.len() ==> (#[trigger] sources@[i] matches Some(s) ==> s
            <= i32::MAX),
        sources.len() <= i32::MAX,
    ensures
        run_view(kept) == kept_positions(sources@),
{
    let ghost src = sources@;
    let mut finished: Vec<Vec<usize>> = Vec::new();
    let mut current: Vec<usize> = Vec::new();
    let mut last_index: i32 = -1;
    let mut i: usize = 0;
    proof {
        assert(run_view(current) =~= Seq::<int>::empty());
        assert(runs_view(finished@) =~= Seq::<Seq<int>>::empty());
        assert(runs_view(finished@).push(run_view(current)) =~= seq![Seq::<int>::empty()]);
    }
    while i < sources.len()
        invariant
            src == sources@,
            i <= sources.len(),
            sources.len() <= i32::MAX,
            forall|x: int| 0 <= x < sources.len() ==> (#[trigger] sources@[x] matches Some(s) ==> s
                <= i32::MAX),
            runs_view(finished@).push(run_view(current)) == increasing_runs(src, i as int),
            last_index as int == last_source_before(src, i as int),
        decreases sources.len() - i,
    {
        let ghost before = increasing_runs(src, i as int);
        match sources[i] {
            Some(source_index) => {
                let s = source_index as i32;
                if current.len() == 0 || s > last_index {
                    let ghost old_cur = current;
                    current.push(i);
                    proof {
                        assert(run_view(current) =~= run_view(old_cur).push(i as int));
                        assert(runs_view(finished@).push(run_view(current)) =~= before.update(
                            before.len() - 1,
                            before.last().push(i as int),
                        ));
                    }
                } else {
                    let ghost old_fin = finished@;
                    let ghost old_cur = current;
                    finished.push(current);
                    current = Vec::new();
                    current.push(i);
                    proof {
                        assert(runs_view(finished@) =~= runs_view(old_fin).push(run_view(old_cur)));
                        assert(run_view(current) =~= seq![i as int]);
                        assert(runs_view(finished@).push(run_view(current)) =~= before.push(
                            seq![i as int],
                        ));
                    }
                }
                last_index = s;
            },
            None => {},
        }
        i += 1;
    }
    let ghost all = increasing_runs(src, src.len() as int);
    let ghost fin_before = finished@;
    finished.push(current);
    proof {
        assert(runs_view(finished@) =~= runs_view(fin_before).push(run_view(current)));
        assert(runs_view(finished@) == all);
    }
    let mut best: usize = 0;
    let mut k: usize = 1;
    while k < finished.len()
        invariant
            runs_view(finished@) == all,
            1 <= k <= finished.len(),
            best as int == longest_index(all, k as int),
            0 <= best < k,
        decreases finished.len() - k,
    {
        proof {
            assert(all[k as int] == run_view(finished@[k as int]));
            assert(all[best as int] == run_view(finished@[best as int]));
        }
        if finished[k].len() >= finished[best].len() {
            best = k;
        }
        k += 1;
    }
    proof {
        assert(all[best as int] == run_view(finished@[best as int]));
    }
    let mut kept: Vec<usize> = Vec::new();
    let mut x: usize = 0;
    while x < finished[best].len()
        invariant
            best < finished.len(),
            x <= finished@[best as int].len(),
            run_view(kept) == run_view(finished@[best as int]).subrange(0, x as int),
        decreases finished@[best as int].len() - x,
    {
        let ghost old_kept = kept;
        kept.push(finished[best][x]);
        proof {
            let row = finished@[best as int];
            assert(kept@ == old_kept@.push(row@[x as int]));
            assert(run_view(kept) =~= run_view(old_kept).push(row@[x as int] as int));
            assert(run_view(row)[x as int] == row@[x as int] as int);
            assert(run_view(kept) =~= run_view(row).subrange(0, x + 1));
        }
        x += 1;
    }
    proof {
        assert(run_view(finished@[best as int]).subrange(0, x as int) =~= run_view(
            finished@[best as int],
        ));
    }
    kept
}


// ---------------------------------------------------------------------------
// The plan of a keyed list update.
// ---------------------------------------------------------------------------

/// What becomes of the entry at a new position.
#[derive(Clone, Copy, Debug, PartialEq, Eq, Structural)]
pub enum Placement {
    /// The old entry at this index is reused and stays where it is.
    Keep(usize),
    /// The old entry at this index is reused and mounted again, at its new
    /// position (see `mount_anchor`).
    Move(usize),
    /// A fresh entry is created for the new item and mounted at its position
    /// (see `mount_anchor`).
    Create,
}

/// Where the entry of new position `i` is mounted when it is moved or
/// created: before the entry of position `i + 1`, or at the end of the block
/// (`None`) for the last position. Positions are handled from the last to the
/// first, so the entry of position `i + 1` already stands where it belongs.
pub fn mount_anchor(len: usize, i: usize) -> (anchor: Option<usize>)
    requires
        i < len,
    ensures
        anchor == (if i + 1 < len { Some((i + 1) as usize) } else { None::<usize> }),
{
    if i + 1 < len {
        Some(i + 1)
    } else {
        None
    }
}

/// The decisions of one update of a keyed list.
#[derive(Debug)]
pub struct EachPlan {
    /// Length of the common head of old and new keys.
    pub head: usize,
    /// Length of the common tail that follows the head.
    pub tail: usize,
    /// Old entries to unmount, in increasing order.
    pub removed: Vec<usize>,
    /// One placement per new position.
    pub placements: Vec<Placement>,
}

/// The reused old entries as a sequence over new positions.
pub open spec fn spec_sources(old: Seq<u64>, new: Seq<u64>, h: int, t: int) -> Seq<Option<usize>> {
    Seq::new(
        new.len(),
        |i: int|
            match source_of(old, new, h, t, i) {
                Some(s) => Some(s as usize),
                None => None,
            },
    )
}

pub open spec fn placement_fits(
    old: Seq<u64>,
    new: Seq<u64>,
    h: int,
    t: int,
    kept: Seq<int>,
    i: int,
    p: Placement,
) -> bool {
    match p {
        Placement::Keep(s) => source_of(old, new, h, t, i) == Some(s as int) && kept.contains(i),
        Placement::Move(s) => source_of(old, new, h, t, i) == Some(s as int) && !kept.contains(i),
        Placement::Create => source_of(old, new, h, t, i) is None,
    }
}

/// `plan` is the update plan from the keys `old` to the keys `new`.
pub open spec fn plan_matches(old: Seq<u64>, new: Seq<u64>, plan: EachPlan) -> bool {
    let h = plan.head as int;
    let t = plan.tail as int;
    &&& is_common_head(old, new, h)
    &&& is_common_tail(old, new, h, t)
    &&& removed_match(old, new, h, t, plan.removed@)
    &&& plan.placements@.len() == new.len()
    &&& forall|i: int|
        0 <= i < new.len() ==> placement_fits(
            old,
            new,
            h,
            t,
            kept_positions(spec_sources(old, new, h, t)),
            i,
            #[trigger] plan.placements@[i],
        )
}

/// The old entry that a new position reuses has the key of that position.
pub proof fn lemma_source_key(old: Seq<u64>, new: Seq<u64>, h: int, t: int, i: int)
    requires
        is_common_head(old, new, h),
        is_common_tail(old, new, h, t),
        0 <= i < new.len(),
    ensures
        source_of(old, new, h, t, i) matches Some(s) ==> 0 <= s < old.len() && old[s] == new[i],
        source_of(old, new, h, t, i) matches Some(s) ==> (i < h ==> s == i) && (i >= new.len() - t
            ==> s >= old.len() - t) && (h <= i < new.len() - t ==> h <= s < old.len() - t),
{
    if h <= i < new.len() - t {
        lemma_last_claimant(old, new, h, t, old.len() - t, i);
        let c = last_claimant(old, new, h, t, old.len() - t, i);
        if c >= 0 {
            lemma_last_index_of(new, h, new.len() - t, old[c]);
        }
    } else if i >= new.len() - t {
        assert(old[old.len() - new.len() + i] == new[new.len() - old.len() + (old.len() - new.len() + i)]);
    }
}

fn contains_index(v: &Vec<usize>, x: usize) -> (res: bool)
    ensures
        res == run_view(*v).contains(x as int),
{
    let mut k: usize = 0;
    while k < v.len()
        invariant
            k <= v.len(),
            forall|j: int| 0 <= j < k ==> v@[j] != x,
        decreases v.len() - k,
    {
        if v[k] == x {
            proof {
                assert(run_view(*v)[k as int] == x as int);
            }
            return true;
        }
        k += 1;
    }
    proof {
        if run_view(*v).contains(x as int) {
            let j = choose|j: int| 0 <= j < run_view(*v).len() && run_view(*v)[j] == x as int;
            assert(v@[j] == x);
        }
    }
    false
}

/// Plans the update of a keyed list from the keys `old_keys` of the current
/// entries to the keys `new_keys` of the new items.
pub fn plan_each_update(old_keys: &Vec<u64>, new_keys: &Vec<u64>) -> (plan: EachPlan)
    requires
        old_keys.len() <= i32::MAX,
        new_keys.len() <= i32::MAX,
    ensures
        plan_matches(old_keys@, new_keys@, plan),
{
    let head = common_head(old_keys, new_keys);
    let tail = common_tail(old_keys, new_keys, head);
    let (sources, removed) = match_sources(old_keys, new_keys, head, tail);
    let ghost o = old_keys@;
    let ghost n = new_keys@;
    let ghost ss = spec_sources(o, n, head as int, tail as int);
    proof {
        assert forall|i: int| 0 <= i < sources.len() implies (#[trigger] sources@[i] matches Some(
            s,
        ) ==> s <= i32::MAX) by {
            lemma_source_key(o, n, head as int, tail as int, i);
        }
        assert forall|i: int| 0 <= i < n.len() implies #[trigger] sources@[i] == ss[i] by {
            lemma_source_key(o, n, head as int, tail as int, i);
        }
        assert(sources@ =~= ss);
    }
    let kept = longest_increasing_run(&sources);
    let mut placements: Vec<Placement> = Vec::new();
    let mut i: usize = 0;
    while i < sources.len()
        invariant
            sources@ == ss,
            ss.len() == n.len(),
            sources_match(o, n, head as int, tail as int, sources@),
            run_view(kept) == kept_positions(ss),
            i <= sources.len(),
            placements@.len() == i,
            forall|x: int|
                0 <= x < i ==> placement_fits(
                    o,
                    n,
                    head as int,
                    tail as int,
                    kept_positions(ss),
                    x,
                    #[trigger] placements@[x],
                ),
        decreases sources.len() - i,
    {
        match sources[i] {
            Some(s) => {
                if contains_index(&kept, i) {
                    placements.push(Placement::Keep(s));
                } else {
                    placements.push(Placement::Move(s));
                }
            },
            None => {
                placements.push(Placement::Create);
            },
        }
        i += 1;
    }
    EachPlan { head, tail, removed, placements }
}


// ---------------------------------------------------------------------------
// Laws of the keyed list update.
// ---------------------------------------------------------------------------

/// The old entry that a placement reuses, if any.
pub open spec fn reused(p: Placement) -> Option<int> {
    match p {
        Placement::Keep(s) => Some(s as int),
        Placement::Move(s) => Some(s as int),
        Placement::Create => None,
    }
}

pub open spec fn src_val(src: Seq<Option<usize>>, i: int) -> int {
    match src[i] {
        Some(s) => s as int,
        None => -1,
    }
}

proof fn lemma_runs_increasing(src: Seq<Option<usize>>, n: int)
    requires
        0 <= n <= src.len(),
    ensures
        ({
            let r = increasing_runs(src, n);
            &&& r.len() >= 1
            &&& forall|k: int, a: int|
                0 <= k < r.len() && 0 <= a < r[k].len() ==> 0 <= #[trigger] r[k][a] < n
                    && src[r[k][a]] is Some
            &&& forall|k: int, a: int, b: int|
                0 <= k < r.len() && 0 <= a < b < r[k].len() ==> #[trigger] r[k][a] < #[trigger] r[k][b]
                    && src_val(src, r[k][a]) < src_val(src, r[k][b])
            &&& r.last().len() > 0 ==> src_val(src, r.last().last()) == last_source_before(src, n)
        }),
    decreases n,
{
    if n > 0 {
        lemma_runs_increasing(src, n - 1);
        let r = increasing_runs(src, n - 1);
        let r2 = increasing_runs(src, n);
        match src[n - 1] {
            None => {},
            Some(s) => {
                if r.last().len() == 0 || s > last_source_before(src, n - 1) {
                    let last = r.last().push(n - 1);
                    assert(r2 == r.update(r.len() - 1, last));
                    assert forall|k: int, a: int, b: int|
                        0 <= k < r2.len() && 0 <= a < b < r2[k].len() implies #[trigger] r2[k][a]
                        < #[trigger] r2[k][b] && src_val(src, r2[k][a]) < src_val(src, r2[k][b]) by {
                        if k == r.len() - 1 && b == r2[k].len() - 1 {
                            assert(r2[k][b] == n - 1);
                            if a < b - 1 {
                                assert(r[k][a] < r[k][b - 1]);
                            }
                        } else if k == r.len() - 1 {
                            assert(r2[k][a] == r[k][a]);
                            assert(r2[k][b] == r[k][b]);
                        }
                    }
                } else {
                    assert(r2 == r.push(seq![n - 1]));
                }
            },
        }
    }
}

/// Every reused entry has the key of the position that reuses it: after the
/// update the entries carry exactly the new keys, in the new order.
pub proof fn law_each_update_keeps_keys(old: Seq<u64>, new: Seq<u64>, plan: EachPlan)
    requires
        plan_matches(old, new, plan),
    ensures
        forall|i: int|
            0 <= i < new.len() ==> (reused(#[trigger] plan.placements@[i]) matches Some(s) ==> 0
                <= s < old.len() && old[s] == new[i]),
{
    assert forall|i: int| 0 <= i < new.len() implies (reused(
        #[trigger] plan.placements@[i],
    ) matches Some(s) ==> 0 <= s < old.len() && old[s] == new[i]) by {
        lemma_source_key(old, new, plan.head as int, plan.tail as int, i);
    }
}

/// A key that does not occur among the old keys always gets a fresh entry.
pub proof fn law_each_update_new_key_created(old: Seq<u64>, new: Seq<u64>, plan: EachPlan, i: int)
    requires
        plan_matches(old, new, plan),
        0 <= i < new.len(),
        !old.contains(new[i]),
    ensures
        plan.placements@[i] == Placement::Create,
{
    lemma_source_key(old, new, plan.head as int, plan.tail as int, i);
    if let Some(s) = source_of(old, new, plan.head as int, plan.tail as int, i) {
        assert(old[s] == new[i]);
    }
}

/// No old entry is reused twice.
pub proof fn law_each_update_reuses_once(
    old: Seq<u64>,
    new: Seq<u64>,
    plan: EachPlan,
    i1: int,
    i2: int,
)
    requires
        plan_matches(old, new, plan),
        0 <= i1 < i2 < new.len(),
        reused(plan.placements@[i1]) is Some,
        reused(plan.placements@[i2]) is Some,
    ensures
        reused(plan.placements@[i1]) != reused(plan.placements@[i2]),
{
    let h = plan.head as int;
    let t = plan.tail as int;
    lemma_source_key(old, new, h, t, i1);
    lemma_source_key(old, new, h, t, i2);
    if h <= i1 < new.len() - t && h <= i2 < new.len() - t {
        lemma_last_claimant(old, new, h, t, old.len() - t, i1);
        lemma_last_claimant(old, new, h, t, old.len() - t, i2);
    }
}

/// An entry that is unmounted is not reused.
pub proof fn law_each_update_removed_not_reused(
    old: Seq<u64>,
    new: Seq<u64>,
    plan: EachPlan,
    i: int,
    a: int,
)
    requires
        plan_matches(old, new, plan),
        0 <= i < new.len(),
        0 <= a < plan.removed@.len(),
    ensures
        reused(plan.placements@[i]) != Some(plan.removed@[a] as int),
{
    let h = plan.head as int;
    let t = plan.tail as int;
    lemma_source_key(old, new, h, t, i);
    if h <= i < new.len() - t {
        lemma_last_claimant(old, new, h, t, old.len() - t, i);
    }
}

/// When the old keys are distinct and the new keys are distinct, the old
/// entry with the key of a new position is the one reused at that position.
pub proof fn law_each_update_reuses_same_key(
    old: Seq<u64>,
    new: Seq<u64>,
    plan: EachPlan,
    i: int,
    j: int,
)
    requires
        plan_matches(old, new, plan),
        forall|a: int, b: int| 0 <= a < b < old.len() ==> old[a] != old[b],
        forall|a: int, b: int| 0 <= a < b < new.len() ==> new[a] != new[b],
        0 <= i < new.len(),
        0 <= j < old.len(),
        old[j] == new[i],
    ensures
        reused(plan.placements@[i]) == Some(j),
{
    let h = plan.head as int;
    let t = plan.tail as int;
    let o = old.len() as int;
    let n = new.len() as int;
    lemma_source_key(old, new, h, t, i);
    if i < h {
        assert(old[i] == new[i]);
        if i != j {
            if i < j {
                assert(old[i] != old[j]);
            } else {
                assert(old[j] != old[i]);
            }
        }
    } else if i >= n - t {
        let s = o - n + i;
        assert(old[s] == new[n - o + s]);
        if s != j {
            if s < j {
                assert(old[s] != old[j]);
            } else {
                assert(old[j] != old[s]);
            }
        }
    } else {
        if j < h {
            assert(old[j] == new[j]);
            assert(new[j] != new[i]);
        }
        if j >= o - t {
            let k = n - o + j;
            assert(old[j] == new[k]);
            assert(new[i] != new[k]);
        }
        lemma_last_index_of(new, h, n - t, old[j]);
        let r = match_of(old, new, h, t, j);
        if r != i {
            if r < i {
                assert(new[r] != new[i]);
            } else {
                assert(new[i] != new[r]);
            }
        }
        lemma_last_claimant(old, new, h, t, o - t, i);
        let c = last_claimant(old, new, h, t, o - t, i);
        lemma_last_index_of(new, h, n - t, old[c]);
        if c != j {
            assert(old[c] == new[i]);
            if c < j {
                assert(old[c] != old[j]);
            } else {
                assert(old[j] != old[c]);
            }
        }
    }
    assert(placement_fits(
        old,
        new,
        h,
        t,
        kept_positions(spec_sources(old, new, h, t)),
        i,
        plan.placements@[i],
    ));
}

/// When the old keys are distinct, every old entry is either reused by some
/// new position or unmounted.
pub proof fn law_each_update_accounts_for_old(old: Seq<u64>, new: Seq<u64>, plan: EachPlan, j: int)
    requires
        plan_matches(old, new, plan),
        forall|a: int, b: int| 0 <= a < b < old.len() ==> old[a] != old[b],
        0 <= j < old.len(),
    ensures
        plan.removed@.contains(j as usize) || exists|i: int|
            0 <= i < new.len() && reused(#[trigger] plan.placements@[i]) == Some(j),
{
    let h = plan.head as int;
    let t = plan.tail as int;
    if j < h {
        assert(reused(plan.placements@[j]) == Some(j));
    } else if j >= old.len() - t {
        let i = new.len() - old.len() + j;
        assert(reused(plan.placements@[i]) == Some(j));
    } else {
        let i = match_of(old, new, h, t, j);
        if i >= 0 {
            lemma_last_index_of(new, h, new.len() - t, old[j]);
            lemma_last_claimant(old, new, h, t, old.len() - t, i);
            let c = last_claimant(old, new, h, t, old.len() - t, i);
            if c != j {
                lemma_last_index_of(new, h, new.len() - t, old[c]);
                assert(old[c] == new[i]);
                if c < j {
                    assert(old[c] != old[j]);
                } else {
                    assert(old[j] != old[c]);
                }
            }
            assert(reused(plan.placements@[i]) == Some(j));
        }
    }
}

/// Entries that keep their place are already in the new relative order.
pub proof fn law_each_update_kept_in_order(
    old: Seq<u64>,
    new: Seq<u64>,
    plan: EachPlan,
    i1: int,
    i2: int,
)
    requires
        plan_matches(old, new, plan),
        0 <= i1 < i2 < new.len(),
        plan.placements@[i1] is Keep,
        plan.placements@[i2] is Keep,
    ensures
        reused(plan.placements@[i1])->0 < reused(plan.placements@[i2])->0,
{
    let h = plan.head as int;
    let t = plan.tail as int;
    let src = spec_sources(old, new, h, t);
    let r = increasing_runs(src, src.len() as int);
    lemma_runs_increasing(src, src.len() as int);
    lemma_longest_in_range(r, r.len() as int);
    let k = longest_index(r, r.len() as int);
    let kept = r[k];
    assert(kept.contains(i1));
    assert(kept.contains(i2));
    let a = choose|a: int| 0 <= a < kept.len() && kept[a] == i1;
    let b = choose|b: int| 0 <= b < kept.len() && kept[b] == i2;
    if b < a {
        assert(r[k][b] < r[k][a]);
    }
    assert(a != b);
    assert(r[k][a] < r[k][b]);
    lemma_source_key(old, new, h, t, i1);
    lemma_source_key(old, new, h, t, i2);
}


proof fn lemma_runs_of_identity(src: Seq<Option<usize>>, n: int)
    requires
        0 <= n <= src.len(),
        forall|i: int| 0 <= i < src.len() ==> #[trigger] src[i] == Some(i as usize),
        src.len() <= usize::MAX,
    ensures
        increasing_runs(src, n) == seq![Seq::new(n as nat, |x: int| x)],
        last_source_before(src, n) == n - 1,
    decreases n,
{
    if n > 0 {
        lemma_runs_of_identity(src, n - 1);
        let prev = Seq::new((n - 1) as nat, |x: int| x);
        assert(prev.push(n - 1) =~= Seq::new(n as nat, |x: int| x));
        assert(seq![prev].update(0, prev.push(n - 1)) =~= seq![Seq::new(n as nat, |x: int| x)]);
    } else {
        assert(Seq::new(0, |x: int| x) =~= Seq::<int>::empty());
    }
}

/// Updating a list to the keys it already has keeps every entry in place
/// and unmounts nothing.
pub proof fn law_each_update_unchanged(keys: Seq<u64>, plan: EachPlan)
    requires
        plan_matches(keys, keys, plan),
        keys.len() <= usize::MAX,
    ensures
        plan.removed@.len() == 0,
        forall|i: int| 0 <= i < keys.len() ==> #[trigger] plan.placements@[i] == Placement::Keep(i as usize),
{
    let h = plan.head as int;
    let t = plan.tail as int;
    assert(h == keys.len());
    assert(t == 0);
    if plan.removed@.len() > 0 {
        assert(h <= plan.removed@[0] < keys.len() - t);
    }
    let src = spec_sources(keys, keys, h, t);
    assert forall|i: int| 0 <= i < src.len() implies #[trigger] src[i] == Some(i as usize) by {}
    lemma_runs_of_identity(src, src.len() as int);
    let r = increasing_runs(src, src.len() as int);
    assert(longest_index(r, r.len() as int) == 0);
    assert forall|i: int| 0 <= i < keys.len() implies #[trigger] plan.placements@[i] == Placement::Keep(i as usize) by {
        assert(kept_positions(src)[i] == i);
        assert(kept_positions(src).contains(i));
    }
}


/// Moves the reused old entries to their new positions: slot `i` holds the
/// old entry that placement `i` reuses and is empty where a fresh entry is due.
/// Old entries that no placement reuses are dropped.
pub fn rebuild_entries<T>(old: Vec<T>, placements: &Vec<Placement>) -> (slots: Vec<Option<T>>)
    requires
        forall|i: int|
            0 <= i < placements.len() ==> (reused(#[trigger] placements@[i]) matches Some(s) ==> s
                < old.len()),
        forall|i1: int, i2: int|
            0 <= i1 < placements.len() && 0 <= i2 < placements.len() && i1 != i2 && reused(
                #[trigger] placements@[i1],
            ) is Some ==> reused(placements@[i1]) != reused(#[trigger] placements@[i2]),
    ensures
        slots@.len() == placements.len(),
        forall|i: int|
            0 <= i < placements.len() ==> match reused(#[trigger] placements@[i]) {
                Some(s) => slots@[i] == Some(old@[s]),
                None => slots@[i] is None,
            },
{
    let ghost orig = old@;
    let n = old.len();
    let mut old = old;
    let mut reversed: Vec<Option<T>> = Vec::new();
    while old.len() > 0
        invariant
            old@.len() + reversed@.len() == n,
            n == orig.len(),
            old@ == orig.subrange(0, old@.len() as int),
            forall|k: int| 0 <= k < reversed@.len() ==> #[trigger] reversed@[k] == Some(orig[n - 1 - k]),
        decreases old.len(),
    {
        let ghost before = old@;
        let x = old.pop().unwrap();
        proof {
            assert(x == orig[old@.len() as int]);
            assert(old@ =~= orig.subrange(0, old@.len() as int));
        }
        reversed.push(Some(x));
    }
    let mut slots: Vec<Option<T>> = Vec::new();
    let mut i: usize = 0;
    while i < placements.len()
        invariant
            n == orig.len(),
            reversed@.len() == n,
            i <= placements.len(),
            slots@.len() == i,
            forall|k: int|
                0 <= k < placements.len() ==> (reused(#[trigger] placements@[k]) matches Some(s) ==> s
                    < n),
            forall|i1: int, i2: int|
                0 <= i1 < placements.len() && 0 <= i2 < placements.len() && i1 != i2 && reused(
                    #[trigger] placements@[i1],
                ) is Some ==> reused(placements@[i1]) != reused(#[trigger] placements@[i2]),
            forall|k: int|
                0 <= k < n ==> (#[trigger] reversed@[k] == Some(orig[n - 1 - k]) || exists|x: int|
                    0 <= x < i && reused(#[trigger] placements@[x]) == Some(n - 1 - k)),
            forall|x: int|
                0 <= x < i ==> match reused(#[trigger] placements@[x]) {
                    Some(s) => slots@[x] == Some(orig[s]),
                    None => slots@[x] is None,
                },
        decreases placements.len() - i,
    {
        match placements[i] {
            Placement::Keep(s) | Placement::Move(s) => {
                let k = n - 1 - s;
                proof {
                    if reversed@[k as int] != Some(orig[n - 1 - k]) {
                        let x = choose|x: int|
                            0 <= x < i && reused(#[trigger] placements@[x]) == Some(n - 1 - k);
                        assert(reused(placements@[x]) != reused(placements@[i as int]));
                    }
                }
                let ghost rev_before = reversed@;
                let item = reversed[k].take();
                proof {
                    assert(item == Some(orig[s as int]));
                    assert forall|kk: int|
                        0 <= kk < n implies (#[trigger] reversed@[kk] == Some(orig[n - 1 - kk])
                        || exists|x: int|
                        0 <= x < i + 1 && reused(#[trigger] placements@[x]) == Some(n - 1 - kk)) by {
                        if kk == k {
                            assert(reused(placements@[i as int]) == Some(n - 1 - kk));
                        } else {
                            assert(reversed@[kk] == rev_before[kk]);
                        }
                    }
                }
                slots.push(item);
            },
            Placement::Create => {
                slots.push(None);
            },
        }
        i += 1;
    }
    slots
}


/// Which old entries no new position reuses (`true` at `j` when none does):
/// these are the entries to unmount. With distinct old keys they are exactly
/// the plan's `removed` entries; with repeated keys they also include the
/// entries that lose their key to a later old entry.
pub fn unreused_entries(old_len: usize, placements: &Vec<Placement>) -> (unused: Vec<bool>)
    requires
        forall|i: int|
            0 <= i < placements.len() ==> (reused(#[trigger] placements@[i]) matches Some(s) ==> s
                < old_len),
    ensures
        unused@.len() == old_len,
        forall|j: int|
            0 <= j < old_len ==> (#[trigger] unused@[j] <==> !exists|i: int|
                0 <= i < placements.len() && reused(#[trigger] placements@[i]) == Some(j)),
{
    let mut unused: Vec<bool> = Vec::new();
    let mut j: usize = 0;
    while j < old_len
        invariant
            j <= old_len,
            unused@.len() == j,
            forall|k: int| 0 <= k < j ==> unused@[k],
        decreases old_len - j,
    {
        unused.push(true);
        j += 1;
    }
    let mut i: usize = 0;
    while i < placements.len()
        invariant
            i <= placements.len(),
            unused@.len() == old_len,
            forall|k: int|
                0 <= k < placements.len() ==> (reused(#[trigger] placements@[k]) matches Some(s) ==> s
                    < old_len),
            forall|jj: int|
                0 <= jj < old_len ==> (#[trigger] unused@[jj] <==> !exists|k: int|
                    0 <= k < i && reused(#[trigger] placements@[k]) == Some(jj)),
        decreases placements.len() - i,
    {
        let ghost before = unused@;
        match placements[i] {
            Placement::Keep(s) | Placement::Move(s) => {
                unused.set(s, false);
            },
            Placement::Create => {},
        }
        proof {
            assert forall|jj: int|
                0 <= jj < old_len implies (#[trigger] unused@[jj] <==> !exists|k: int|
                    0 <= k < i + 1 && reused(#[trigger] placements@[k]) == Some(jj)) by {
                if !unused@[jj] && before[jj] {
                    assert(reused(placements@[i as int]) == Some(jj));
                }
                if unused@[jj] {
                    if exists|k: int| 0 <= k < i + 1 && reused(#[trigger] placements@[k]) == Some(jj) {
                        let k = choose|k: int| 0 <= k < i + 1 && reused(#[trigger] placements@[k]) == Some(jj);
                        if k < i {
                            assert(!before[jj]);
                        }
                    }
                }
            }
        }
        i += 1;
    }
    unused
}

/// Plans the update of a keyed list and moves the reused entries into place.
/// `old_entries[j]` is the entry rendered for key `old_keys[j]`.
pub fn reconcile_entries<T>(old_keys: &Vec<u64>, old_entries: Vec<T>, new_keys: &Vec<u64>) -> (res: (
    EachPlan,
    Vec<Option<T>>,
))
    requires
        old_keys.len() <= i32::MAX,
        new_keys.len() <= i32::MAX,
        old_entries.len() == old_keys.len(),
    ensures
        plan_matches(old_keys@, new_keys@, res.0),
        res.1@.len() == new_keys.len(),
        forall|i: int|
            0 <= i < new_keys.len() ==> match reused(#[trigger] res.0.placements@[i]) {
                Some(s) => res.1@[i] == Some(old_entries@[s]),
                None => res.1@[i] is None,
            },
{
    let plan = plan_each_update(old_keys, new_keys);
    proof {
        law_each_update_keeps_keys(old_keys@, new_keys@, plan);
        assert forall|i1: int, i2: int|
            0 <= i1 < plan.placements.len() && 0 <= i2 < plan.placements.len() && i1 != i2
                && reused(#[trigger] plan.placements@[i1]) is Some implies reused(
            plan.placements@[i1],
        ) != reused(#[trigger] plan.placements@[i2]) by {
            if reused(plan.placements@[i2]) is Some {
                if i1 < i2 {
                    law_each_update_reuses_once(old_keys@, new_keys@, plan, i1, i2);
                } else {
                    law_each_update_reuses_once(old_keys@, new_keys@, plan, i2, i1);
                }
            }
        }
    }
    let slots = rebuild_entries(old_entries, &plan.placements);
    (plan, slots)
}

/// Feeds `item` into the hasher (`Hash::hash`). The bytes written depend on
/// the item type's `Hash` impl and on the machine's byte order; nothing is
/// stated of them.
#[verifier::external_body]
fn hash_into<T: Hash>(item: &T, state: &mut DefaultHasher) {
    item.hash(state)
}

/// The key of an item of a keyed list: its hash under a fresh `DefaultHasher`,
/// that is, the hasher's digest (`finish`) of the byte strings that the item's
/// `Hash` impl wrote into it. Which byte strings those are is not stated (see
/// `hash_into`).
pub fn hash_item<T: Hash>(item: &T) -> (key: u64)
    ensures
        exists|written: Seq<Seq<u8>>| key == #[trigger] DefaultHasher::spec_finish(written),
{
    let mut hasher = DefaultHasher::new();
    hash_into(item, &mut hasher);
    let key = hasher.finish();
    proof {
        let written = hasher@;
        assert(key == DefaultHasher::spec_finish(written));
    }
    key
}

} // verus!
