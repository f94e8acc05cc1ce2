use vstd::prelude::*;

verus! {

/// Event target paths are stored innermost-first: a fragment nested at
/// position `addition` under `base` gets `addition` in front of `base`.
pub fn prepend_path(base: &Vec<u32>, addition: u32) -> (out: Vec<u32>)
    requires
        base.len() < usize::MAX,
    ensures
        out@ == seq![addition] + base@,
{
    let mut out: Vec<u32> = Vec::new();
    out.push(addition);
    let mut i: usize = 0;
    while i < base.len()
        invariant
            i <= base.len(),
            out@ == seq![addition] + base@.subrange(0, i as int),
        decreases base.len() - i,
    {
        out.push(base[i]);
        proof {
            assert(base@.subrange(0, i + 1) == base@.subrange(0, i as int).push(base@[i as int]));
        }
        i += 1;
    }
    proof {
        assert(base@.subrange(0, base.len() as int) == base@);
    }
    out
}

} // verus!
