use vstd::prelude::*;
use vstd::string::*;

verus! {

/// The segments of `s` between '/' separators, empty segments included
/// (the same segments that `str::split('/')` yields, in order).
pub open spec fn split_segments(s: Seq<char>) -> Seq<Seq<char>>
    decreases s.len(),
{
    if s.len() == 0 {
        seq![Seq::<char>::empty()]
    } else {
        let prev = split_segments(s.drop_last());
        if s.last() == '/' {
            prev.push(Seq::<char>::empty())
        } else {
            prev.update(prev.len() - 1, prev.last().push(s.last()))
        }
    }
}

/// A pattern segment that starts with ':' names a parameter.
pub open spec fn is_param_segment(seg: Seq<char>) -> bool {
    seg.len() > 0 && seg[0] == ':'
}

/// Number of parameter segments among the first `k` segments.
pub open spec fn params_before(pattern: Seq<Seq<char>>, k: int) -> nat
    decreases k,
{
    if k <= 0 {
        0
    } else if is_param_segment(pattern[k - 1]) {
        params_before(pattern, k - 1) + 1
    } else {
        params_before(pattern, k - 1)
    }
}

/// Some literal segment among the first `k` differs from the path segment at its position.
pub open spec fn literal_mismatch_before(
    pattern: Seq<Seq<char>>,
    path: Seq<Seq<char>>,
    k: int,
) -> bool {
    exists|j: int|
        0 <= j < k && !is_param_segment(#[trigger] pattern[j]) && pattern[j] != path[j]
}

/// The (name, value) pairs bound by the first `k` segments: the i-th parameter
/// segment takes the i-th name and the path segment at its position.
pub open spec fn bound_params(
    pattern: Seq<Seq<char>>,
    path: Seq<Seq<char>>,
    names: Seq<Seq<char>>,
    k: int,
) -> Seq<(Seq<char>, Seq<char>)>
    decreases k,
{
    if k <= 0 {
        Seq::empty()
    } else if is_param_segment(pattern[k - 1]) {
        bound_params(pattern, path, names, k - 1).push(
            (names[params_before(pattern, k - 1) as int], path[k - 1]),
        )
    } else {
        bound_params(pattern, path, names, k - 1)
    }
}

/// Every parameter segment that the matcher reaches has a name to bind to.
pub open spec fn names_suffice(
    pattern: Seq<Seq<char>>,
    path: Seq<Seq<char>>,
    name_count: nat,
) -> bool {
    pattern.len() == path.len() ==> forall|k: int|
        0 <= k < pattern.len() && is_param_segment(#[trigger] pattern[k])
            && !literal_mismatch_before(pattern, path, k) ==> params_before(pattern, k)
            < name_count
}

pub open spec fn pairs_view(v: Seq<(String, String)>) -> Seq<(Seq<char>, Seq<char>)> {
    v.map_values(|p: (String, String)| (p.0@, p.1@))
}

pub open spec fn strs_view(v: Seq<&str>) -> Seq<Seq<char>> {
    v.map_values(|s: &str| s@)
}

/// String equality on the characters of two string slices.
pub fn str_eq(a: &str, b: &str) -> (res: bool)
    ensures
        res == (a@ == b@),
{
    let n = a.unicode_len();
    if n != b.unicode_len() {
        return false;
    }
    let mut i: usize = 0;
    while i < n
        invariant
            n == a@.len(),
            n == b@.len(),
            i <= n,
            forall|j: int| 0 <= j < i ==> a@[j] == b@[j],
        decreases n - i,
    {
        if a.get_char(i) != b.get_char(i) {
            return false;
        }
        i += 1;
    }
    proof {
        assert(a@ =~= b@);
    }
    true
}

/// Splits `s` at every '/', like `str::split('/')`.
pub fn split_slash(s: &str) -> (segs: Vec<&str>)
    ensures
        strs_view(segs@) == split_segments(s@),
{
    let n = s.unicode_len();
    let mut segs: Vec<&str> = Vec::new();
    let mut start: usize = 0;
    let mut i: usize = 0;
    proof {
        assert(s@.subrange(0, 0) =~= Seq::<char>::empty());
        assert(strs_view(segs@) =~= Seq::<Seq<char>>::empty());
        assert(split_segments(s@.subrange(0, 0)) =~= seq![Seq::<char>::empty()]);
        assert(strs_view(segs@).push(s@.subrange(0, 0)) =~= seq![Seq::<char>::empty()]);
    }
    while i < n
        invariant
            n == s@.len(),
            start <= i <= n,
            split_segments(s@.subrange(0, i as int)) == strs_view(segs@).push(
                s@.subrange(start as int, i as int),
            ),
        decreases n - i,
    {
        let c = s.get_char(i);
        proof {
            let pre = s@.subrange(0, i as int);
            let cur = s@.subrange(0, i + 1);
            assert(cur.drop_last() =~= pre);
            assert(cur.last() == c);
            if c != '/' {
                assert(s@.subrange(start as int, i + 1) =~= s@.subrange(start as int, i as int).push(c));
                let prev = split_segments(pre);
                assert(prev.update(prev.len() - 1, prev.last().push(c)) =~= strs_view(segs@).push(
                    s@.subrange(start as int, i + 1),
                ));
            }
        }
        if c == '/' {
            let seg = s.substring_char(start, i);
            let ghost old_segs = segs@;
            segs.push(seg);
            proof {
                assert(strs_view(segs@) =~= strs_view(old_segs).push(seg@));
                assert(s@.subrange(i + 1, i + 1) =~= Seq::<char>::empty());
            }
            start = i + 1;
        }
        i += 1;
    }
    let last = s.substring_char(start, n);
    let ghost old_segs = segs@;
    segs.push(last);
    proof {
        assert(s@.subrange(0, n as int) =~= s@);
        assert(strs_view(segs@) =~= strs_view(old_segs).push(last@));
    }
    segs
}

/// Simple route matching: "/users/:id" matches "/users/42" and binds the first
/// name of `param_names` to "42". Returns `None` when the segment counts differ
/// or a literal segment differs from the path.
pub fn match_pattern(pattern: &str, path: &str, param_names: &[&str]) -> (res: Option<
    Vec<(String, String)>,
>)
    requires
        names_suffice(
            split_segments(pattern@),
            split_segments(path@),
            param_names@.len(),
        ),
    ensures
        ({
            let pp = split_segments(pattern@);
            let ap = split_segments(path@);
            &&& res is None <==> (pp.len() != ap.len() || literal_mismatch_before(
                pp,
                ap,
                pp.len() as int,
            ))
            &&& res matches Some(v) ==> pairs_view(v@) == bound_params(
                pp,
                ap,
                strs_view(param_names@),
                pp.len() as int,
            )
        }),
{
    let pattern_parts = split_slash(pattern);
    let path_parts = split_slash(path);
    let ghost pp = split_segments(pattern@);
    let ghost ap = split_segments(path@);
    let ghost names = strs_view(param_names@);
    proof {
        assert(pattern_parts@.len() == pp.len());
        assert(path_parts@.len() == ap.len());
    }
    if pattern_parts.len() != path_parts.len() {
        return None;
    }
    let mut params: Vec<(String, String)> = Vec::new();
    let mut param_idx: usize = 0;
    let mut k: usize = 0;
    while k < pattern_parts.len()
        invariant
            pp == split_segments(pattern@),
            ap == split_segments(path@),
            names == strs_view(param_names@),
            strs_view(pattern_parts@) == pp,
            strs_view(path_parts@) == ap,
            pp.len() == ap.len(),
            names_suffice(pp, ap, param_names@.len()),
            k <= pp.len(),
            param_idx == params_before(pp, k as int),
            !literal_mismatch_before(pp, ap, k as int),
            pairs_view(params@) == bound_params(pp, ap, names, k as int),
        decreases pattern_parts.len() - k,
    {
        let p = pattern_parts[k];
        let actual = path_parts[k];
        proof {
            assert(p@ == pp[k as int]);
            assert(actual@ == ap[k as int]);
        }
        let is_param = p.unicode_len() > 0 && p.get_char(0) == ':';
        if is_param {
            proof {
                assert(is_param_segment(pp[k as int]));
            }
            let name = String::from_str(param_names[param_idx]);
            let value = String::from_str(actual);
            let ghost old_params = params@;
            params.push((name, value));
            proof {
                assert(pairs_view(params@) =~= pairs_view(old_params).push((name@, value@)));
            }
            param_idx += 1;
        } else {
            if !str_eq(p, actual) {
                proof {
                    assert(literal_mismatch_before(pp, ap, pp.len() as int)) by {
                        assert(!is_param_segment(pp[k as int]) && pp[k as int] != ap[k as int]);
                    }
                }
                return None;
            }
        }
        proof {
            assert forall|j: int|
                0 <= j < k + 1 && !is_param_segment(#[trigger] pp[j]) implies pp[j] == ap[j] by {
                if j < k {
                    if pp[j] != ap[j] {
                        assert(literal_mismatch_before(pp, ap, k as int));
                    }
                }
            }
        }
        k += 1;
    }
    Some(params)
}


proof fn lemma_bound_params_len(
    pattern: Seq<Seq<char>>,
    path: Seq<Seq<char>>,
    names: Seq<Seq<char>>,
    k: int,
)
    ensures
        bound_params(pattern, path, names, k).len() == params_before(pattern, k),
    decreases k,
{
    if k > 0 {
        lemma_bound_params_len(pattern, path, names, k - 1);
    }
}

/// A successful match binds exactly one value per parameter segment of the pattern.
pub proof fn law_match_binds_every_param(
    pattern: Seq<char>,
    path: Seq<char>,
    names: Seq<Seq<char>>,
)
    ensures
        bound_params(
            split_segments(pattern),
            split_segments(path),
            names,
            split_segments(pattern).len() as int,
        ).len() == params_before(split_segments(pattern), split_segments(pattern).len() as int),
{
    lemma_bound_params_len(
        split_segments(pattern),
        split_segments(path),
        names,
        split_segments(pattern).len() as int,
    );
}

/// The segments joined again with '/' between them.
pub open spec fn join_segments(segs: Seq<Seq<char>>) -> Seq<char>
    decreases segs.len(),
{
    if segs.len() == 0 {
        Seq::empty()
    } else if segs.len() == 1 {
        segs[0]
    } else {
        join_segments(segs.drop_last()) + seq!['/'] + segs.last()
    }
}

/// The pattern's segments with the parameter segments replaced, in order, by
/// `values`.
pub open spec fn substitute_params(pattern: Seq<Seq<char>>, values: Seq<Seq<char>>) -> Seq<Seq<char>> {
    Seq::new(
        pattern.len(),
        |k: int|
            if is_param_segment(pattern[k]) {
                values[params_before(pattern, k) as int]
            } else {
                pattern[k]
            },
    )
}

proof fn lemma_split_nonempty(s: Seq<char>)
    ensures
        split_segments(s).len() >= 1,
    decreases s.len(),
{
    if s.len() > 0 {
        lemma_split_nonempty(s.drop_last());
    }
}

proof fn lemma_join_extend_last(segs: Seq<Seq<char>>, c: char)
    requires
        segs.len() >= 1,
    ensures
        join_segments(segs.update(segs.len() - 1, segs.last().push(c))) == join_segments(segs).push(c),
{
    let u = segs.update(segs.len() - 1, segs.last().push(c));
    if segs.len() > 1 {
        assert(u.drop_last() =~= segs.drop_last());
        assert(join_segments(u) == join_segments(u.drop_last()) + seq!['/'] + u.last());
        assert(join_segments(u) =~= join_segments(segs).push(c));
    }
}

/// Joining the segments of a split gives back the string.
proof fn lemma_join_split(s: Seq<char>)
    ensures
        join_segments(split_segments(s)) == s,
    decreases s.len(),
{
    if s.len() > 0 {
        let prev = split_segments(s.drop_last());
        lemma_join_split(s.drop_last());
        lemma_split_nonempty(s.drop_last());
        if s.last() == '/' {
            let segs = prev.push(Seq::<char>::empty());
            assert(segs.drop_last() =~= prev);
            assert(join_segments(segs) =~= s.drop_last() + seq!['/']);
            assert(s =~= s.drop_last() + seq!['/']);
        } else {
            lemma_join_extend_last(prev, s.last());
            assert(s =~= s.drop_last().push(s.last()));
        }
    }
}

/// The parameter bound by the parameter segment at `j` sits at its parameter
/// index among the bound pairs.
proof fn lemma_bound_param_at(
    pattern: Seq<Seq<char>>,
    path: Seq<Seq<char>>,
    names: Seq<Seq<char>>,
    k: int,
    j: int,
)
    requires
        0 <= j < k <= pattern.len(),
        is_param_segment(pattern[j]),
    ensures
        bound_params(pattern, path, names, k)[params_before(pattern, j) as int] == (
            names[params_before(pattern, j) as int],
            path[j],
        ),
    decreases k,
{
    lemma_bound_params_len(pattern, path, names, k - 1);
    if j < k - 1 {
        lemma_params_before_monotone(pattern, j + 1, k - 1);
        lemma_bound_param_at(pattern, path, names, k - 1, j);
    }
}

proof fn lemma_params_before_monotone(pattern: Seq<Seq<char>>, a: int, b: int)
    requires
        0 <= a <= b,
    ensures
        params_before(pattern, a) <= params_before(pattern, b),
    decreases b,
{
    if a < b {
        lemma_params_before_monotone(pattern, a, b - 1);
    }
}

/// The i-th bound pair carries the i-th name.
proof fn lemma_bound_names(pattern: Seq<Seq<char>>, path: Seq<Seq<char>>, names: Seq<Seq<char>>, k: int)
    ensures
        forall|i: int|
            0 <= i < bound_params(pattern, path, names, k).len() ==> (#[trigger] bound_params(
                pattern,
                path,
                names,
                k,
            )[i]).0 == names[i],
    decreases k,
{
    if k > 0 {
        lemma_bound_names(pattern, path, names, k - 1);
        lemma_bound_params_len(pattern, path, names, k - 1);
    }
}

/// Along a match without literal mismatch, the parameters never outnumber the names.
proof fn lemma_params_within_names(pp: Seq<Seq<char>>, ap: Seq<Seq<char>>, name_count: nat, m: int)
    requires
        pp.len() == ap.len(),
        0 <= m <= pp.len(),
        !literal_mismatch_before(pp, ap, pp.len() as int),
        names_suffice(pp, ap, name_count),
    ensures
        params_before(pp, m) <= name_count,
    decreases m,
{
    if m > 0 {
        lemma_params_within_names(pp, ap, name_count, m - 1);
        if is_param_segment(pp[m - 1]) {
            if literal_mismatch_before(pp, ap, m - 1) {
                let j = choose|j: int|
                    0 <= j < m - 1 && !is_param_segment(#[trigger] pp[j]) && pp[j] != ap[j];
                assert(literal_mismatch_before(pp, ap, pp.len() as int));
            }
        }
    }
}

/// A successful match can be undone: putting the bound values back in place
/// of the pattern's parameter segments and joining the segments with '/'
/// gives the path, and the bound names are the first names, in order.
pub proof fn law_match_round_trip(pattern: Seq<char>, path: Seq<char>, names: Seq<Seq<char>>)
    requires
        split_segments(pattern).len() == split_segments(path).len(),
        !literal_mismatch_before(
            split_segments(pattern),
            split_segments(path),
            split_segments(pattern).len() as int,
        ),
        names_suffice(split_segments(pattern), split_segments(path), names.len()),
    ensures
        ({
            let pp = split_segments(pattern);
            let bound = bound_params(pp, split_segments(path), names, pp.len() as int);
            &&& join_segments(substitute_params(pp, bound.map_values(|p: (Seq<char>, Seq<char>)| p.1)))
                == path
            &&& bound.map_values(|p: (Seq<char>, Seq<char>)| p.0) == names.subrange(0, bound.len() as int)
        }),
{
    let pp = split_segments(pattern);
    let ap = split_segments(path);
    let n = pp.len() as int;
    let bound = bound_params(pp, ap, names, n);
    let values = bound.map_values(|p: (Seq<char>, Seq<char>)| p.1);
    lemma_bound_params_len(pp, ap, names, n);
    assert forall|k: int| 0 <= k < n implies #[trigger] substitute_params(pp, values)[k] == ap[k] by {
        if is_param_segment(pp[k]) {
            lemma_bound_param_at(pp, ap, names, n, k);
            lemma_params_before_monotone(pp, k + 1, n);
        } else {
            if pp[k] != ap[k] {
                assert(literal_mismatch_before(pp, ap, n));
            }
        }
    }
    assert(substitute_params(pp, values) =~= ap);
    lemma_join_split(path);
    lemma_bound_names(pp, ap, names, n);
    lemma_params_within_names(pp, ap, names.len(), n);
    assert(bound.map_values(|p: (Seq<char>, Seq<char>)| p.0) =~= names.subrange(0, bound.len() as int));
}

} // verus!
