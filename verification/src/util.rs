//! Shared numerical bookkeeping: the sample-average step sizer.

use vstd::prelude::*;
use crate::game::{Action, State, spec_is_terminal};
use crate::rat::{add_keep, mul_spec, rat_lt, Rat};
use crate::table::{sat_inc, SaCounts, SaTable};

verus! {

/// Add `amount` to the entry of a pair in a rational table, returning the
/// new value (the entry is unchanged when the sum is not representable).
pub fn increment(map: &mut SaTable, s: State, a: Action, amount: Rat) -> (r: Rat)
    requires
        old(map).wf(),
        !spec_is_terminal(s),
        amount.wf(),
    ensures
        final(map).wf(),
        r == add_keep(old(map).at(s, a), amount),
        r.wf(),
        final(map).slots() == old(map).slots().update(crate::table::sa_slot(s, a), r),
        final(map).at(s, a) == r,
        forall|s2: State, a2: Action| !(s2 == s && a2 == a) ==> #[trigger] final(map).at(s2, a2)
            == old(map).at(s2, a2),
{
    let prev = map.get(s, a);
    let new_val = prev.add_or_keep(amount);
    map.set(s, a, new_val);
    new_val
}

/// The greedy action under a tabular value function: `Hit` when it is
/// estimated strictly better than `Stick`, `Stick` otherwise.
pub open spec fn greedy_action(t: SaTable, s: State) -> Action {
    if rat_lt(t.at(s, Action::Stick), t.at(s, Action::Hit)) {
        Action::Hit
    } else {
        Action::Stick
    }
}

/// One traced value update: `v + step * td * trace` in checked rational
/// arithmetic, leaving `v` unchanged when a step of the computation is not
/// representable.
pub open spec fn traced_value_update(v: Rat, step: Rat, td: Rat, tr: Rat) -> Rat {
    match mul_spec(step, td) {
        None => v,
        Some(m) => match mul_spec(m, tr) {
            None => v,
            Some(d) => add_keep(v, d),
        },
    }
}

/// Executable counterpart of [`traced_value_update`].
pub fn apply_traced_update(v: Rat, step: Rat, td: Rat, tr: Rat) -> (r: Rat)
    requires
        v.wf(),
        step.wf(),
        td.wf(),
        tr.wf(),
    ensures
        r == traced_value_update(v, step, td, tr),
        r.wf(),
{
    match step.checked_mul(td) {
        None => v,
        Some(m) => match m.checked_mul(tr) {
            None => v,
            Some(d) => v.add_or_keep(d),
        },
    }
}

/// The reciprocal `1 / n` as a rational (already in lowest terms).
pub open spec fn recip_rat(n: u64) -> Rat {
    Rat { num: 1, den: n as i64 }
}

/// Keeps one lifetime visit counter per state/action pair and yields the
/// sample-average step size `1 / visits`, so the n-th visit to a pair gets
/// step size `1/n` exactly.
pub struct VaryingStepSizer {
    pub visits: SaCounts,
}

impl VaryingStepSizer {
    /// Counters present and bounded.
    pub open spec fn wf(self) -> bool {
        self.visits.wf()
    }

    /// A step sizer with no visits recorded.
    pub fn new() -> (t: Self)
        ensures
            t.wf(),
            t.visits.entries@ == Seq::new(crate::table::N_PAIRS as nat, |j: int| 0u64),
            forall|s: State, a: Action| #[trigger] t.visits.at(s, a) == 0,
    {
        VaryingStepSizer { visits: SaCounts::new() }
    }

    /// Record one visit to the pair and return the step size `1 / visits`.
    pub fn update(&mut self, state: State, action: Action) -> (r: Rat)
        requires
            old(self).wf(),
            !spec_is_terminal(state),
        ensures
            final(self).wf(),
            final(self).visits.at(state, action) == sat_inc(old(self).visits.at(state, action)),
            final(self).visits.entries@ == old(self).visits.entries@.update(
                crate::table::sa_slot(state, action),
                sat_inc(old(self).visits.at(state, action)),
            ),
            forall|s2: State, a2: Action| !(s2 == state && a2 == action)
                ==> #[trigger] final(self).visits.at(s2, a2) == old(self).visits.at(s2, a2),
            r == recip_rat(final(self).visits.at(state, action)),
            r.wf(),
    {
        let n = self.visits.increment(state, action);
        Rat::recip(n)
    }
}

} // verus!
