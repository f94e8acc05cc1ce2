use vstd::prelude::*;
use crate::keyed::{
    law_each_update_keeps_keys, law_each_update_kept_in_order, law_each_update_reuses_once,
    plan_matches, reused, EachPlan, Placement,
};

verus! {

// ---------------------------------------------------------------------------
// Carrying out the plan of a keyed list update on the block's children.
//
// The children of an #each block are modelled by the identities of their
// entries: the old entry `j` is `j`, and the fresh entry created for new
// position `i` is `old_len + i`.
// ---------------------------------------------------------------------------

/// The identity of the entry at new position `k`.
pub open spec fn entry_id(p: Seq<Placement>, old_len: int, k: int) -> int {
    match reused(p[k]) {
        Some(s) => s,
        None => old_len + k,
    }
}

/// The identities of the entries in the new order.
pub open spec fn entry_ids(p: Seq<Placement>, old_len: int) -> Seq<int> {
    Seq::new(p.len(), |k: int| entry_id(p, old_len, k))
}

pub open spec fn distinct_ids(d: Seq<int>) -> bool {
    forall|a: int, b: int| 0 <= a < b < d.len() ==> d[a] != d[b]
}

/// `x` comes before `y` among the children `d`.
pub open spec fn before(d: Seq<int>, x: int, y: int) -> bool {
    exists|a: int, b: int| 0 <= a < b < d.len() && d[a] == x && d[b] == y
}

/// The children after the entry of position `i` is placed (positions are
/// placed from the last to the first): a kept entry stays; a moved entry is
/// taken out, and a moved or created entry is put before the entry of
/// position `i + 1` (`mount_anchor`), or at the end for the last position.
pub open spec fn place_step(d: Seq<int>, p: Seq<Placement>, old_len: int, i: int) -> Seq<int> {
    match p[i] {
        Placement::Keep(_) => d,
        _ => {
            let x = entry_id(p, old_len, i);
            let d1 = if d.contains(x) {
                d.remove(d.index_of(x))
            } else {
                d
            };
            if i + 1 < p.len() {
                d1.insert(d1.index_of(entry_id(p, old_len, i + 1)), x)
            } else {
                d1.push(x)
            }
        },
    }
}

/// The children after the positions `i..` were placed, from the last down.
pub open spec fn place_from(d: Seq<int>, p: Seq<Placement>, old_len: int, i: int) -> Seq<int>
    decreases p.len() - i,
{
    if i < 0 || i >= p.len() {
        d
    } else {
        place_step(place_from(d, p, old_len, i + 1), p, old_len, i)
    }
}

// ---------------------------------------------------------------------------
// Facts about taking a child out and putting one in.
// ---------------------------------------------------------------------------

proof fn lemma_index_of(d: Seq<int>, x: int)
    requires
        distinct_ids(d),
        d.contains(x),
    ensures
        0 <= d.index_of(x) < d.len(),
        d[d.index_of(x)] == x,
        forall|a: int| 0 <= a < d.len() && d[a] == x ==> a == d.index_of(x),
{
    let c = d.index_of(x);
    assert forall|a: int| 0 <= a < d.len() && d[a] == x implies a == c by {
        if a < c {
            assert(d[a] != d[c]);
        } else if a > c {
            assert(d[c] != d[a]);
        }
    }
}

proof fn lemma_remove(d: Seq<int>, x: int)
    requires
        distinct_ids(d),
        d.contains(x),
    ensures
        ({
            let r = d.remove(d.index_of(x));
            &&& distinct_ids(r)
            &&& forall|y: int| r.contains(y) <==> (d.contains(y) && y != x)
            &&& forall|y: int, w: int| y != x && w != x ==> (before(r, y, w) <==> before(d, y, w))
        }),
{
    lemma_index_of(d, x);
    let c = d.index_of(x);
    let r = d.remove(c);
    d.remove_ensures(c);
    assert forall|a: int, b: int| 0 <= a < b < r.len() implies r[a] != r[b] by {
        let a1 = if a < c { a } else { a + 1 };
        let b1 = if b < c { b } else { b + 1 };
        assert(r[a] == d[a1] && r[b] == d[b1]);
    }
    assert forall|y: int| r.contains(y) <==> (d.contains(y) && y != x) by {
        if r.contains(y) {
            let a = choose|a: int| 0 <= a < r.len() && r[a] == y;
            let a1 = if a < c { a } else { a + 1 };
            assert(d[a1] == y);
            assert(a1 != c);
        }
        if d.contains(y) && y != x {
            let a = choose|a: int| 0 <= a < d.len() && d[a] == y;
            assert(a != c);
            let a1 = if a < c { a } else { a - 1 };
            assert(r[a1] == y);
        }
    }
    assert forall|y: int, w: int| y != x && w != x implies (before(r, y, w) <==> before(d, y, w)) by {
        if before(r, y, w) {
            let (a, b) = choose|a: int, b: int| 0 <= a < b < r.len() && r[a] == y && r[b] == w;
            let a1 = if a < c { a } else { a + 1 };
            let b1 = if b < c { b } else { b + 1 };
            assert(d[a1] == y && d[b1] == w);
        }
        if before(d, y, w) {
            let (a, b) = choose|a: int, b: int| 0 <= a < b < d.len() && d[a] == y && d[b] == w;
            assert(a != c && b != c);
            let a1 = if a < c { a } else { a - 1 };
            let b1 = if b < c { b } else { b - 1 };
            assert(r[a1] == y && r[b1] == w);
        }
    }
}

proof fn lemma_insert_before(d: Seq<int>, anchor: int, x: int)
    requires
        distinct_ids(d),
        d.contains(anchor),
        !d.contains(x),
    ensures
        ({
            let r = d.insert(d.index_of(anchor), x);
            &&& distinct_ids(r)
            &&& forall|y: int| r.contains(y) <==> (d.contains(y) || y == x)
            &&& forall|y: int, w: int| y != x && w != x ==> (before(r, y, w) <==> before(d, y, w))
            &&& before(r, x, anchor)
            &&& forall|w: int| before(d, anchor, w) ==> before(r, x, w)
            &&& forall|w: int| before(d, w, anchor) ==> before(r, w, x)
        }),
{
    lemma_index_of(d, anchor);
    let c = d.index_of(anchor);
    let r = d.insert(c, x);
    d.insert_ensures(c, x);
    assert forall|a: int| 0 <= a < r.len() implies #[trigger] r[a] == (if a < c {
        d[a]
    } else if a == c {
        x
    } else {
        d[a - 1]
    }) by {
        if a > c {
            assert(r[(a - 1) + 1] == d[a - 1]);
        }
    }
    assert forall|a: int, b: int| 0 <= a < b < r.len() implies r[a] != r[b] by {
        if a == c {
            assert(d.contains(r[b]));
        } else if b == c {
            assert(d.contains(r[a]));
        } else {
            let a1 = if a < c { a } else { a - 1 };
            let b1 = if b < c { b } else { b - 1 };
            assert(r[a] == d[a1] && r[b] == d[b1]);
        }
    }
    assert forall|y: int| r.contains(y) <==> (d.contains(y) || y == x) by {
        if r.contains(y) {
            let a = choose|a: int| 0 <= a < r.len() && r[a] == y;
            if a != c {
                let a1 = if a < c { a } else { a - 1 };
                assert(d[a1] == y);
            }
        }
        if d.contains(y) {
            let a = choose|a: int| 0 <= a < d.len() && d[a] == y;
            let a1 = if a < c { a } else { a + 1 };
            assert(r[a1] == y);
        }
        if y == x {
            assert(r[c] == y);
        }
    }
    assert forall|y: int, w: int| y != x && w != x implies (before(r, y, w) <==> before(d, y, w)) by {
        if before(r, y, w) {
            let (a, b) = choose|a: int, b: int| 0 <= a < b < r.len() && r[a] == y && r[b] == w;
            assert(a != c && b != c);
            let a1 = if a < c { a } else { a - 1 };
            let b1 = if b < c { b } else { b - 1 };
            assert(d[a1] == y && d[b1] == w);
        }
        if before(d, y, w) {
            let (a, b) = choose|a: int, b: int| 0 <= a < b < d.len() && d[a] == y && d[b] == w;
            let a1 = if a < c { a } else { a + 1 };
            let b1 = if b < c { b } else { b + 1 };
            assert(r[a1] == y && r[b1] == w);
        }
    }
    assert(r[c] == x && r[c + 1] == anchor);
    assert forall|w: int| before(d, anchor, w) implies before(r, x, w) by {
        let (a, b) = choose|a: int, b: int| 0 <= a < b < d.len() && d[a] == anchor && d[b] == w;
        assert(a == c);
        assert(r[b + 1] == w);
    }
    assert forall|w: int| before(d, w, anchor) implies before(r, w, x) by {
        let (a, b) = choose|a: int, b: int| 0 <= a < b < d.len() && d[a] == w && d[b] == anchor;
        assert(b == c);
        assert(r[a] == w);
    }
}

proof fn lemma_push(d: Seq<int>, x: int)
    requires
        distinct_ids(d),
        !d.contains(x),
    ensures
        ({
            let r = d.push(x);
            &&& distinct_ids(r)
            &&& forall|y: int| r.contains(y) <==> (d.contains(y) || y == x)
            &&& forall|y: int, w: int| y != x && w != x ==> (before(r, y, w) <==> before(d, y, w))
            &&& forall|w: int| d.contains(w) ==> before(r, w, x)
        }),
{
    let r = d.push(x);
    assert forall|a: int, b: int| 0 <= a < b < r.len() implies r[a] != r[b] by {
        if b == d.len() {
            assert(d.contains(r[a]));
        }
    }
    assert forall|y: int| r.contains(y) <==> (d.contains(y) || y == x) by {
        if r.contains(y) {
            let a = choose|a: int| 0 <= a < r.len() && r[a] == y;
            if a < d.len() {
                assert(d[a] == y);
            }
        }
        if d.contains(y) {
            let a = choose|a: int| 0 <= a < d.len() && d[a] == y;
            assert(r[a] == y);
        }
        if y == x {
            assert(r[d.len() as int] == y);
        }
    }
    assert forall|y: int, w: int| y != x && w != x implies (before(r, y, w) <==> before(d, y, w)) by {
        if before(r, y, w) {
            let (a, b) = choose|a: int, b: int| 0 <= a < b < r.len() && r[a] == y && r[b] == w;
            assert(b < d.len());
            assert(d[a] == y && d[b] == w);
        }
        if before(d, y, w) {
            let (a, b) = choose|a: int, b: int| 0 <= a < b < d.len() && d[a] == y && d[b] == w;
            assert(r[a] == y && r[b] == w);
        }
    }
    assert forall|w: int| d.contains(w) implies before(r, w, x) by {
        let a = choose|a: int| 0 <= a < d.len() && d[a] == w;
        assert(r[a] == w && r[d.len() as int] == x);
    }
}

// ---------------------------------------------------------------------------
// Placing the entries, from the last position down.
// ---------------------------------------------------------------------------

/// What a plan's placements give the placing: reused entries are old
/// entries, none is reused twice, and kept entries keep their old order.
pub open spec fn placements_valid(p: Seq<Placement>, old_len: int) -> bool {
    &&& forall|k: int| 0 <= k < p.len() ==> (reused(#[trigger] p[k]) matches Some(s) ==> 0 <= s < old_len)
    &&& forall|k1: int, k2: int|
        0 <= k1 < k2 < p.len() && reused(#[trigger] p[k1]) is Some && reused(#[trigger] p[k2]) is Some
            ==> reused(p[k1]) != reused(p[k2])
    &&& forall|k1: int, k2: int|
        0 <= k1 < k2 < p.len() && #[trigger] p[k1] is Keep && #[trigger] p[k2] is Keep ==> reused(
            p[k1],
        )->0 < reused(p[k2])->0
}

proof fn lemma_ids_distinct(p: Seq<Placement>, old_len: int, k1: int, k2: int)
    requires
        placements_valid(p, old_len),
        0 <= old_len,
        0 <= k1 < p.len(),
        0 <= k2 < p.len(),
        k1 != k2,
    ensures
        entry_id(p, old_len, k1) != entry_id(p, old_len, k2),
{
    if k1 < k2 {
        assert(reused(p[k1]) is Some && reused(p[k2]) is Some ==> reused(p[k1]) != reused(p[k2]));
    } else {
        assert(reused(p[k2]) is Some && reused(p[k1]) is Some ==> reused(p[k2]) != reused(p[k1]));
    }
}

/// `x` is the entry of a position from `i` on, or a reused entry.
pub open spec fn covered(p: Seq<Placement>, old_len: int, i: int, x: int) -> bool {
    exists|k: int| 0 <= k < p.len() && x == #[trigger] entry_id(p, old_len, k) && (k >= i || reused(p[k]) is Some)
}

/// The children after the positions `i..` were placed.
pub open spec fn placed_inv(d: Seq<int>, p: Seq<Placement>, old_len: int, i: int) -> bool {
    &&& distinct_ids(d)
    &&& forall|a: int| 0 <= a < d.len() ==> #[trigger] covered(p, old_len, i, d[a])
    &&& forall|k: int| i <= k < p.len() ==> d.contains(#[trigger] entry_id(p, old_len, k))
    &&& forall|k: int| 0 <= k < i && reused(p[k]) is Some ==> d.contains(#[trigger] entry_id(p, old_len, k))
    &&& forall|k1: int, k2: int|
        i <= k1 < k2 < p.len() ==> before(d, #[trigger] entry_id(p, old_len, k1), #[trigger] entry_id(p, old_len, k2))
    &&& forall|k: int, m: int|
        0 <= k < i <= m < p.len() && p[k] is Keep ==> before(
            d,
            #[trigger] entry_id(p, old_len, k),
            #[trigger] entry_id(p, old_len, m),
        )
    &&& forall|k1: int, k2: int|
        0 <= k1 < k2 < i && p[k1] is Keep && p[k2] is Keep ==> before(
            d,
            #[trigger] entry_id(p, old_len, k1),
            #[trigger] entry_id(p, old_len, k2),
        )
}

proof fn lemma_place_step(d: Seq<int>, p: Seq<Placement>, o: int, i: int)
    requires
        placements_valid(p, o),
        0 <= o,
        0 <= i < p.len(),
        placed_inv(d, p, o, i + 1),
    ensures
        placed_inv(place_step(d, p, o, i), p, o, i),
{
    let x = entry_id(p, o, i);
    let len = p.len() as int;
    assert forall|k: int| 0 <= k < len && k != i implies #[trigger] entry_id(p, o, k) != x by {
        lemma_ids_distinct(p, o, k, i);
    }
    match p[i] {
        Placement::Keep(_) => {
            assert(reused(p[i]) is Some);
            assert(d.contains(x));
            assert forall|a: int| 0 <= a < d.len() implies #[trigger] covered(p, o, i, d[a]) by {
                assert(covered(p, o, i + 1, d[a]));
                let k = choose|k: int|
                    0 <= k < p.len() && d[a] == #[trigger] entry_id(p, o, k) && (k >= i + 1
                        || reused(p[k]) is Some);
                assert(d[a] == entry_id(p, o, k));
            }
        },
        _ => {
            let d1 = if d.contains(x) {
                d.remove(d.index_of(x))
            } else {
                d
            };
            if d.contains(x) {
                lemma_remove(d, x);
            } else {
                assert(p[i] is Create);
            }
            if let Placement::Create = p[i] {
                if d.contains(x) {
                    let a = choose|a: int| 0 <= a < d.len() && d[a] == x;
                    assert(covered(p, o, i + 1, d[a]));
                    let k = choose|k: int|
                        0 <= k < p.len() && d[a] == #[trigger] entry_id(p, o, k) && (k >= i + 1
                            || reused(p[k]) is Some);
                    assert(k != i);
                }
            }
            // d1: d without x
            assert(distinct_ids(d1));
            assert(forall|y: int| d1.contains(y) <==> (d.contains(y) && y != x));
            assert(forall|y: int, w: int| y != x && w != x ==> (before(d1, y, w) <==> before(d, y, w)));
            let r = place_step(d, p, o, i);
            if i + 1 < len {
                let anchor = entry_id(p, o, i + 1);
                assert(d.contains(anchor));
                lemma_insert_before(d1, anchor, x);
                assert(r == d1.insert(d1.index_of(anchor), x));
                assert forall|k2: int| i < k2 < len implies before(r, x, #[trigger] entry_id(p, o, k2)) by {
                    if k2 > i + 1 {
                        assert(before(d, anchor, entry_id(p, o, k2)));
                        assert(before(d1, anchor, entry_id(p, o, k2)));
                    }
                }
                assert forall|k: int| 0 <= k < i && p[k] is Keep implies before(r, #[trigger] entry_id(p, o, k), x) by {
                    assert(before(d, entry_id(p, o, k), anchor));
                    assert(before(d1, entry_id(p, o, k), anchor));
                }
            } else {
                lemma_push(d1, x);
                assert forall|k: int| 0 <= k < i && p[k] is Keep implies before(r, #[trigger] entry_id(p, o, k), x) by {
                    assert(reused(p[k]) is Some);
                    assert(d.contains(entry_id(p, o, k)));
                    assert(d1.contains(entry_id(p, o, k)));
                }
            }
            assert forall|a: int| 0 <= a < r.len() implies #[trigger] covered(p, o, i, r[a]) by {
                if r[a] == x {
                    assert(r[a] == entry_id(p, o, i));
                } else {
                    assert(r.contains(r[a]));
                    assert(d.contains(r[a]));
                    let b = choose|b: int| 0 <= b < d.len() && d[b] == r[a];
                    assert(covered(p, o, i + 1, d[b]));
                    let k = choose|k: int|
                        0 <= k < p.len() && d[b] == #[trigger] entry_id(p, o, k) && (k >= i + 1
                            || reused(p[k]) is Some);
                    assert(r[a] == entry_id(p, o, k));
                }
            }
            assert forall|k: int| i <= k < len implies r.contains(#[trigger] entry_id(p, o, k)) by {
                if k > i {
                    assert(d.contains(entry_id(p, o, k)));
                }
            }
            assert forall|k: int| 0 <= k < i && reused(p[k]) is Some implies r.contains(
                #[trigger] entry_id(p, o, k),
            ) by {
                assert(d.contains(entry_id(p, o, k)));
            }
            assert forall|k1: int, k2: int| i <= k1 < k2 < len implies before(
                r,
                #[trigger] entry_id(p, o, k1),
                #[trigger] entry_id(p, o, k2),
            ) by {
                if k1 > i {
                    assert(before(d, entry_id(p, o, k1), entry_id(p, o, k2)));
                }
            }
            assert forall|k: int, m: int| 0 <= k < i <= m < len && p[k] is Keep implies before(
                r,
                #[trigger] entry_id(p, o, k),
                #[trigger] entry_id(p, o, m),
            ) by {
                if m > i {
                    assert(before(d, entry_id(p, o, k), entry_id(p, o, m)));
                }
            }
            assert forall|k1: int, k2: int| 0 <= k1 < k2 < i && p[k1] is Keep && p[k2] is Keep implies before(
                r,
                #[trigger] entry_id(p, o, k1),
                #[trigger] entry_id(p, o, k2),
            ) by {
                assert(before(d, entry_id(p, o, k1), entry_id(p, o, k2)));
            }
        },
    }
}

proof fn lemma_place_from(d: Seq<int>, p: Seq<Placement>, o: int, i: int)
    requires
        placements_valid(p, o),
        0 <= o,
        0 <= i <= p.len(),
        placed_inv(d, p, o, p.len() as int),
    ensures
        placed_inv(place_from(d, p, o, i), p, o, i),
    decreases p.len() - i,
{
    if i < p.len() {
        lemma_place_from(d, p, o, i + 1);
        lemma_place_step(place_from(d, p, o, i + 1), p, o, i);
    }
}

/// The requirements of `lemma_ordered_children`.
pub open spec fn ordered_like(d: Seq<int>, ids: Seq<int>) -> bool {
    &&& distinct_ids(d)
    &&& distinct_ids(ids)
    &&& forall|a: int| 0 <= a < d.len() ==> ids.contains(#[trigger] d[a])
    &&& forall|k: int| 0 <= k < ids.len() ==> d.contains(#[trigger] ids[k])
    &&& forall|k1: int, k2: int| 0 <= k1 < k2 < ids.len() ==> before(d, #[trigger] ids[k1], #[trigger] ids[k2])
}

proof fn lemma_ordered_prefix(d: Seq<int>, ids: Seq<int>, a: int)
    requires
        ordered_like(d, ids),
        0 <= a <= ids.len(),
    ensures
        a <= d.len(),
        forall|b: int| 0 <= b < a ==> d[b] == ids[b],
    decreases a,
{
    if a > 0 {
        let a = a - 1;
        lemma_ordered_prefix(d, ids, a);
        assert(d.contains(ids[a]));
        let c = choose|c: int| 0 <= c < d.len() && d[c] == ids[a];
        if c < a {
            assert(d[c] == ids[c]);
            assert(ids[c] != ids[a]);
        }
        if c > a {
            assert(ids.contains(d[a]));
            let m = choose|m: int| 0 <= m < ids.len() && ids[m] == d[a];
            if m < a {
                assert(d[m] == ids[m]);
                assert(d[m] != d[a]);
            }
            if m == a {
                assert(d[a] != d[c]);
            }
            assert(m > a);
            assert(before(d, ids[a], ids[m]));
            let (x, y) = choose|x: int, y: int| 0 <= x < y < d.len() && d[x] == ids[a] && d[y] == ids[m];
            if x != c {
                if x < c {
                    assert(d[x] != d[c]);
                } else {
                    assert(d[c] != d[x]);
                }
            }
            if y != a {
                if y < a {
                    assert(d[y] != d[a]);
                } else {
                    assert(d[a] != d[y]);
                }
            }
        }
    }
}

/// Children that hold every identity of `ids` once, in the order of `ids`,
/// and nothing else, are `ids`.
proof fn lemma_ordered_children(d: Seq<int>, ids: Seq<int>)
    requires
        ordered_like(d, ids),
    ensures
        d == ids,
{
    let n = ids.len() as int;
    lemma_ordered_prefix(d, ids, n);
    if d.len() > n {
        assert(ids.contains(d[n]));
        let m = choose|m: int| 0 <= m < ids.len() && ids[m] == d[n];
        assert(d[m] == ids[m]);
        assert(d[m] != d[n]);
    }
    assert(d =~= ids);
}

proof fn lemma_children_are_entries(children: Seq<int>, p: Seq<Placement>, o: int)
    requires
        forall|x: int|
            children.contains(x) <==> exists|k: int| 0 <= k < p.len() && reused(#[trigger] p[k]) == Some(x),
    ensures
        forall|a: int| 0 <= a < children.len() ==> #[trigger] covered(p, o, p.len() as int, children[a]),
{
    assert forall|a: int| 0 <= a < children.len() implies #[trigger] covered(p, o, p.len() as int, children[a]) by {
        assert(children.contains(children[a]));
        let k = choose|k: int| 0 <= k < p.len() && reused(#[trigger] p[k]) == Some(children[a]);
        assert(children[a] == entry_id(p, o, k));
    }
}

/// Carrying out the plan of a keyed list update puts the block's entries in
/// the new order. The children start as the old entries that some new
/// position reuses, in their old order (the others were unmounted, see
/// `unreused_entries`); then, from the last new position to the first, each
/// moved entry is taken out and each moved or created entry is put before the
/// entry of the next position (`mount_anchor`), or at the end for the last.
/// Afterwards the children are the entries of the new positions, in order.
pub proof fn law_each_mount_gives_new_order(
    old: Seq<u64>,
    new: Seq<u64>,
    plan: EachPlan,
    children: Seq<int>,
)
    requires
        plan_matches(old, new, plan),
        forall|a: int, b: int| 0 <= a < b < children.len() ==> children[a] < children[b],
        forall|x: int|
            children.contains(x) <==> exists|k: int|
                0 <= k < new.len() && reused(#[trigger] plan.placements@[k]) == Some(x),
    ensures
        place_from(children, plan.placements@, old.len() as int, 0) == entry_ids(
            plan.placements@,
            old.len() as int,
        ),
{
    let p = plan.placements@;
    let o = old.len() as int;
    let len = p.len() as int;
    law_each_update_keeps_keys(old, new, plan);
    assert forall|k1: int, k2: int|
        0 <= k1 < k2 < p.len() && reused(#[trigger] p[k1]) is Some && reused(#[trigger] p[k2]) is Some
            implies reused(p[k1]) != reused(p[k2]) by {
        law_each_update_reuses_once(old, new, plan, k1, k2);
    }
    assert forall|k1: int, k2: int|
        0 <= k1 < k2 < p.len() && #[trigger] p[k1] is Keep && #[trigger] p[k2] is Keep implies reused(
            p[k1],
        )->0 < reused(p[k2])->0 by {
        law_each_update_kept_in_order(old, new, plan, k1, k2);
    }
    assert(placements_valid(p, o));
    // the children before any placing
    assert(distinct_ids(children));
    lemma_children_are_entries(children, p, o);
    assert forall|k: int| 0 <= k < len && reused(p[k]) is Some implies children.contains(
        #[trigger] entry_id(p, o, k),
    ) by {
        assert(reused(plan.placements@[k]) == Some(entry_id(p, o, k)));
    }
    assert forall|k1: int, k2: int| 0 <= k1 < k2 < len && p[k1] is Keep && p[k2] is Keep implies before(
        children,
        #[trigger] entry_id(p, o, k1),
        #[trigger] entry_id(p, o, k2),
    ) by {
        let x1 = entry_id(p, o, k1);
        let x2 = entry_id(p, o, k2);
        assert(reused(plan.placements@[k1]) == Some(x1));
        assert(reused(plan.placements@[k2]) == Some(x2));
        assert(children.contains(x1) && children.contains(x2));
        let a1 = choose|a: int| 0 <= a < children.len() && children[a] == x1;
        let a2 = choose|a: int| 0 <= a < children.len() && children[a] == x2;
        if a2 <= a1 {
            if a2 < a1 {
                assert(children[a2] < children[a1]);
            }
        }
    }
    assert(placed_inv(children, p, o, len));
    lemma_place_from(children, p, o, 0);
    let d = place_from(children, p, o, 0);
    let ids = entry_ids(p, o);
    assert forall|a: int, b: int| 0 <= a < b < ids.len() implies ids[a] != ids[b] by {
        lemma_ids_distinct(p, o, a, b);
    }
    assert forall|a: int| 0 <= a < d.len() implies ids.contains(#[trigger] d[a]) by {
        assert(covered(p, o, 0, d[a]));
        let k = choose|k: int|
            0 <= k < p.len() && d[a] == #[trigger] entry_id(p, o, k) && (k >= 0 || reused(p[k]) is Some);
        assert(ids[k] == d[a]);
    }
    assert forall|k: int| 0 <= k < ids.len() implies d.contains(#[trigger] ids[k]) by {
        assert(d.contains(entry_id(p, o, k)));
    }
    assert forall|k1: int, k2: int| 0 <= k1 < k2 < ids.len() implies before(d, #[trigger] ids[k1], #[trigger] ids[k2]) by {
        assert(before(d, entry_id(p, o, k1), entry_id(p, o, k2)));
    }
    lemma_ordered_children(d, ids);
}

} // verus!
