use vstd::prelude::*;

verus! {

/// A snippet argument whose value is recomputed by `thunk` whenever `gate`
/// says the flags of an update concern it; `version` counts the recomputations.
pub struct DynamicArg<T, F, G> {
    thunk: F,
    gate: G,
    version: u64,
    value: T,
}

impl<T, F: Fn() -> T, G: Fn(u64) -> bool> DynamicArg<T, F, G> {
    pub closed spec fn value(&self) -> T {
        self.value
    }

    pub closed spec fn spec_version(&self) -> u64 {
        self.version
    }

    pub closed spec fn thunk(&self) -> F {
        self.thunk
    }

    pub closed spec fn gate(&self) -> G {
        self.gate
    }

    /// Both closures can be called on any input.
    pub open spec fn wf(&self) -> bool {
        &&& self.thunk().requires(())
        &&& forall|flags: u64| #[trigger] self.gate().requires((flags,))
    }

    /// Evaluates the callback once for the initial value; the version starts at 0.
    pub fn new(callback: F, gate_closure: G) -> (arg: Self)
        requires
            callback.requires(()),
            forall|flags: u64| #[trigger] gate_closure.requires((flags,)),
        ensures
            arg.wf(),
            arg.thunk() == callback,
            arg.gate() == gate_closure,
            arg.spec_version() == 0,
            callback.ensures((), arg.value()),
    {
        let value = callback();
        DynamicArg { thunk: callback, gate: gate_closure, version: 0, value }
    }

    /// If `gate(flags)` holds: increments the counter of recomputations and
    /// evaluates the thunk again. Otherwise changes nothing.
    pub fn update(&mut self, flags: u64) -> (changed: bool)
        requires
            old(self).wf(),
            old(self).spec_version() < u64::MAX || forall|b: bool|
                old(self).gate().ensures((flags,), b) ==> !b,
        ensures
            final(self).wf(),
            final(self).thunk() == old(self).thunk(),
            final(self).gate() == old(self).gate(),
            old(self).gate().ensures((flags,), changed),
            version_step(old(self).spec_version(), final(self).spec_version(), changed),
            changed ==> old(self).thunk().ensures((), final(self).value()),
            !changed ==> final(self).value() == old(self).value(),
    {
        proof {
            assert(self.gate().requires((flags,)));
        }
        let gate = &self.gate;
        let changed = gate(flags);
        if changed {
            self.version = self.version + 1;
            let thunk = &self.thunk;
            self.value = thunk();
        }
        proof {
            assert forall|f: u64| #[trigger] self.gate().requires((f,)) by {
                assert(old(self).gate().requires((f,)));
            }
        }
        changed
    }

    pub fn get(&self) -> (v: &T)
        ensures
            *v == self.value(),
    {
        &self.value
    }

    pub fn version(&self) -> (v: u64)
        ensures
            v == self.spec_version(),
    {
        self.version
    }
}

/// One update's effect on the version: one more when the update fired, the
/// same otherwise.
pub open spec fn version_step(before: u64, after: u64, fired: bool) -> bool {
    if fired {
        after == before + 1
    } else {
        after == before
    }
}

/// How many of the updates fired.
pub open spec fn count_fired(fired: Seq<bool>) -> nat
    decreases fired.len(),
{
    if fired.len() == 0 {
        0
    } else {
        count_fired(fired.drop_last()) + if fired.last() {
            1nat
        } else {
            0nat
        }
    }
}

/// Over a run of updates, the version grows by exactly the number of updates
/// that fired: never more than the number of updates, never less than
/// where it started. `versions[i]` is the version before update `i`, and
/// `versions[i + 1]` the version after it.
pub proof fn law_versions_count_fired_updates(versions: Seq<u64>, fired: Seq<bool>)
    requires
        versions.len() == fired.len() + 1,
        forall|i: int| 0 <= i < fired.len() ==> version_step(#[trigger] versions[i], versions[i + 1], fired[i]),
    ensures
        versions.last() == versions[0] + count_fired(fired),
        versions[0] <= versions.last() <= versions[0] + fired.len(),
    decreases fired.len(),
{
    if fired.len() > 0 {
        let k = fired.len() - 1;
        law_versions_count_fired_updates(versions.drop_last(), fired.drop_last());
        lemma_count_fired_bound(fired.drop_last());
        assert(version_step(versions[k], versions[k + 1], fired[k]));
        assert(versions.drop_last().last() == versions[k]);
    }
}

proof fn lemma_count_fired_bound(fired: Seq<bool>)
    ensures
        count_fired(fired) <= fired.len(),
    decreases fired.len(),
{
    if fired.len() > 0 {
        lemma_count_fired_bound(fired.drop_last());
    }
}

/// Decides when a text that shows a dynamic argument is refreshed: it counts
/// the argument's versions already shown and fires once per version it lags.
pub struct VersionGate {
    seen: u64,
}

impl VersionGate {
    pub closed spec fn seen(&self) -> u64 {
        self.seen
    }

    pub fn new() -> (g: Self)
        ensures
            g.seen() == 0,
    {
        VersionGate { seen: 0 }
    }

    /// Fires when `current` is ahead of the versions seen, and then counts one more.
    pub fn check(&mut self, current: u64) -> (fire: bool)
        ensures
            fire == gate_fires(old(self).seen(), current),
            final(self).seen() == gate_next(old(self).seen(), current),
    {
        if current > self.seen {
            self.seen = self.seen + 1;
            true
        } else {
            false
        }
    }
}

/// Whether a gate that has seen `seen` versions fires when checked against `current`.
pub open spec fn gate_fires(seen: u64, current: u64) -> bool {
    current > seen
}

/// The versions seen after one check against `current`.
pub open spec fn gate_next(seen: u64, current: u64) -> u64 {
    if gate_fires(seen, current) {
        (seen + 1) as u64
    } else {
        seen
    }
}

/// The outcomes of `n` checks in a row against the same version.
pub open spec fn gate_outcomes(seen: u64, current: u64, n: nat) -> Seq<bool>
    decreases n,
{
    if n == 0 {
        Seq::empty()
    } else {
        seq![gate_fires(seen, current)] + gate_outcomes(gate_next(seen, current), current, (n - 1) as nat)
    }
}

/// Checked again and again against the same version, a gate that lags `k`
/// versions behind fires on exactly the next `k` checks and then stays quiet.
pub proof fn law_gate_fires_once_per_version(seen: u64, current: u64, n: nat)
    requires
        seen <= current,
    ensures
        gate_outcomes(seen, current, n).len() == n,
        forall|i: int| 0 <= i < n ==> #[trigger] gate_outcomes(seen, current, n)[i] == (i < current - seen),
    decreases n,
{
    if n > 0 {
        let next = gate_next(seen, current);
        law_gate_fires_once_per_version(next, current, (n - 1) as nat);
        let rest = gate_outcomes(next, current, (n - 1) as nat);
        let all = gate_outcomes(seen, current, n);
        assert(all == seq![gate_fires(seen, current)] + rest);
        assert forall|i: int| 0 <= i < n implies #[trigger] all[i] == (i < current - seen) by {
            if i > 0 {
                assert(all[i] == rest[i - 1]);
            }
        }
    }
}

} // verus!
