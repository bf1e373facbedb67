//! Sarsa(lambda): on-policy temporal-difference control with accumulating
//! eligibility traces.

use vstd::prelude::*;
use crate::game::{Action, State, spec_is_terminal};
use crate::gpi::Alg;
use crate::rat::{add_keep, mul_keep, rat_one, rat_zero, sub_keep, Rat};
use crate::table::{sat_inc, SaCounts, SaTable, N_PAIRS};
use crate::util::{greedy_action, recip_rat, traced_value_update, apply_traced_update};

verus! {

/// The eligibility trace of a pair after the current pair's trace was
/// incremented by one (accumulating traces).
pub open spec fn bumped_trace(tr: SaTable, s: State, a: Action, s2: State, a2: Action) -> Rat {
    if s2 == s && a2 == a {
        add_keep(tr.at(s, a), rat_one())
    } else {
        tr.at(s2, a2)
    }
}

/// The next action an on-policy update uses: the one the behavior policy
/// sampled when it supplied one, the greedy action at `ns` otherwise.
pub open spec fn supplied_or_greedy(v: SaTable, ns: State, na: Option<Action>) -> Action {
    match na {
        Some(x) => x,
        None => greedy_action(v, ns),
    }
}

/// The TD error `reward + value(next pair) - value(current pair)` in
/// checked rational arithmetic.
pub open spec fn td_error(reward: Rat, next_v: Rat, cur_v: Rat) -> Rat {
    sub_keep(add_keep(reward, next_v), cur_v)
}

/// How one transition moves a Sarsa(lambda) learner.  A terminal `state`
/// cannot be visited and changes nothing.  Otherwise the pair's lifetime
/// visit count is bumped (step size `1/visits`), the TD error is computed
/// against the supplied next action (or the greedy one when none was
/// supplied), the pair's trace is incremented by one, every tracked pair's
/// value moves by `step * td * trace`, every trace decays by `lambda`, and
/// the next action the update committed to is returned.
pub open spec fn sarsa_step_rel(
    pre: SarsaLambda,
    state: State,
    action: Action,
    reward: Rat,
    next_state: State,
    next_action: Option<Action>,
    post: SarsaLambda,
    back: Option<Action>,
) -> bool {
    &&& post.lambda == pre.lambda
    &&& (spec_is_terminal(state) ==> {
        &&& post.value_fn == pre.value_fn
        &&& post.total_visits == pre.total_visits
        &&& post.traces == pre.traces
        &&& back == next_action
    })
    &&& (!spec_is_terminal(state) ==> ({
        let n = sat_inc(pre.total_visits.at(state, action));
        let used = supplied_or_greedy(pre.value_fn, next_state, next_action);
        let td = td_error(
            reward,
            pre.value_fn.at(next_state, used),
            pre.value_fn.at(state, action),
        );
        &&& post.total_visits.at(state, action) == n
        &&& forall|s2: State, a2: Action|
            !(s2 == state && a2 == action) ==> #[trigger] post.total_visits.at(s2, a2)
                == pre.total_visits.at(s2, a2)
        &&& forall|s2: State, a2: Action|
            !spec_is_terminal(s2) ==> #[trigger] post.value_fn.at(s2, a2)
                == traced_value_update(
                pre.value_fn.at(s2, a2),
                recip_rat(n),
                td,
                bumped_trace(pre.traces, state, action, s2, a2),
            )
        &&& forall|s2: State, a2: Action|
            !spec_is_terminal(s2) ==> #[trigger] post.traces.at(s2, a2) == mul_keep(
                bumped_trace(pre.traces, state, action, s2, a2),
                pre.lambda,
            )
        &&& back == Some(used)
    }))
}

/// Sarsa(lambda): after every transition, every traced pair's value moves by
/// `step * td * trace`, with the step size decaying as `1 / visits` of the
/// transition's own pair, and all traces decaying by `lambda`.
pub struct SarsaLambda {
    pub value_fn: SaTable,
    pub total_visits: SaCounts,
    pub traces: SaTable,
    pub lambda: Rat,
}

impl SarsaLambda {
    /// Internal consistency: tables well-formed and a well-formed `lambda`.
    pub open spec fn wf(self) -> bool {
        &&& self.value_fn.wf()
        &&& self.total_visits.wf()
        &&& self.traces.wf()
        &&& self.lambda.wf()
    }

    /// A fresh algorithm with the given trace-decay rate; all value
    /// estimates, visit counts and traces start at zero.
    pub fn new(lambda: Rat) -> (r: Self)
        requires
            lambda.wf(),
        ensures
            r.wf(),
            r.lambda == lambda,
            r.value_fn.slots() == Seq::new(crate::table::N_PAIRS as nat, |j: int| rat_zero()),
            r.total_visits.entries@ == Seq::new(crate::table::N_PAIRS as nat, |j: int| 0u64),
            r.traces.slots() == Seq::new(crate::table::N_PAIRS as nat, |j: int| rat_zero()),
            forall|s: State, a: Action| #[trigger] r.value_fn.at(s, a) == rat_zero(),
            forall|s: State, a: Action| #[trigger] r.total_visits.at(s, a) == 0,
            forall|s: State, a: Action| #[trigger] r.traces.at(s, a) == rat_zero(),
    {
        SarsaLambda {
            value_fn: SaTable::new(),
            total_visits: SaCounts::new(),
            traces: SaTable::new(),
            lambda,
        }
    }
}

impl Alg for SarsaLambda {
    open spec fn inv(&self) -> bool {
        self.wf()
    }

    open spec fn reward_model(&self, s: State, a: Action) -> Rat {
        self.value_fn.at(s, a)
    }

    fn choose_best_action(&self, state: State) -> (a: Action) {
        let hit = self.value_fn.get(state, Action::Hit);
        let stick = self.value_fn.get(state, Action::Stick);
        if stick.lt(hit) {
            Action::Hit
        } else {
            Action::Stick
        }
    }

    fn get_expected_reward(&self, state: State, action: Action) -> (r: Rat) {
        self.value_fn.get(state, action)
    }

    open spec fn begin_rel(pre: Self, post: Self) -> bool {
        &&& post.value_fn == pre.value_fn
        &&& post.total_visits == pre.total_visits
        &&& post.lambda == pre.lambda
        &&& forall|s: State, a: Action| #[trigger] post.traces.at(s, a) == rat_zero()
    }

    open spec fn end_rel(pre: Self, post: Self) -> bool {
        post == pre
    }

    /// Clear the eligibility traces.
    fn on_episode_begin(&mut self)
    {
        self.traces = SaTable::new();
    }

    open spec fn needs_next_action_spec(&self) -> bool {
        true
    }

    open spec fn step_rel(
        pre: Self,
        state: State,
        action: Action,
        reward: Rat,
        next_state: State,
        next_action: Option<Action>,
        post: Self,
        back: Option<Action>,
    ) -> bool {
        sarsa_step_rel(pre, state, action, reward, next_state, next_action, post, back)
    }

    /// On-policy: the update target uses the behavior policy's sampled next
    /// action.
    fn needs_next_action(&self) -> (r: bool) {
        true
    }

    /// One Sarsa(lambda) step; the exact update is [`sarsa_step_rel`].
    fn on_episode_step(
        &mut self,
        state: State,
        action: Action,
        reward: Rat,
        next_state: State,
        next_action: Option<Action>,
    ) -> (r: Option<Action>)
    {
        if state.is_terminal() {
            return next_action;
        }
        let n = self.total_visits.increment(state, action);
        let step = Rat::recip(n);
        let used = match next_action {
            Some(x) => x,
            None => self.choose_best_action(next_state),
        };
        let next_v = self.value_fn.get(next_state, used);
        let cur_v = self.value_fn.get(state, action);
        let td = reward.add_or_keep(next_v).sub_or_keep(cur_v);
        let bumped = crate::util::increment(&mut self.traces, state, action, Rat::of_int(1));
        let ghost traces1 = self.traces;
        let ghost values0 = self.value_fn;
        let ghost visits1 = self.total_visits;
        proof {
            assert forall|s2: State, a2: Action| !spec_is_terminal(s2) implies #[trigger] traces1.at(
                s2,
                a2,
            ) == bumped_trace(old(self).traces, state, action, s2, a2) by {}
        }
        let mut i: usize = 0;
        while i < N_PAIRS
            invariant
                self.value_fn.wf(),
                self.traces.wf(),
                step.wf(),
                td.wf(),
                self.lambda.wf(),
                i <= N_PAIRS,
                self.total_visits == visits1,
                visits1.at(state, action) == sat_inc(old(self).total_visits.at(state, action)),
                forall|s2: State, a2: Action|
                    !(s2 == state && a2 == action) ==> #[trigger] visits1.at(s2, a2) == old(
                        self,
                    ).total_visits.at(s2, a2),
                self.lambda == old(self).lambda,
                traces1.wf(),
                values0.wf(),
                forall|j: int| 0 <= j < i ==> #[trigger] self.value_fn.slots()[j]
                    == traced_value_update(values0.slots()[j], step, td, traces1.slots()[j]),
                forall|j: int| i <= j < N_PAIRS ==> #[trigger] self.value_fn.slots()[j]
                    == values0.slots()[j],
                forall|j: int| 0 <= j < i ==> #[trigger] self.traces.slots()[j] == mul_keep(
                    traces1.slots()[j],
                    self.lambda,
                ),
                forall|j: int| i <= j < N_PAIRS ==> #[trigger] self.traces.slots()[j]
                    == traces1.slots()[j],
            decreases N_PAIRS - i,
        {
            let tr = self.traces.get_slot(i);
            let v = self.value_fn.get_slot(i);
            self.value_fn.set_slot(i, apply_traced_update(v, step, td, tr));
            self.traces.set_slot(i, tr.mul_or_keep(self.lambda));
            i = i + 1;
        }
        proof {
            assert forall|s2: State, a2: Action| !spec_is_terminal(s2) implies #[trigger] self.traces.at(
                s2,
                a2,
            ) == mul_keep(
                bumped_trace(old(self).traces, state, action, s2, a2),
                old(self).lambda,
            ) by {
                crate::table::lemma_slot_bounds(s2, a2);
                let j = crate::table::sa_slot(s2, a2);
                assert(traces1.at(s2, a2) == bumped_trace(old(self).traces, state, action, s2, a2));
                assert(self.traces.slots()[j] == mul_keep(traces1.slots()[j], self.lambda));
            }
            assert forall|s2: State, a2: Action| !spec_is_terminal(s2) implies {
                &&& #[trigger] self.value_fn.at(s2, a2) == traced_value_update(
                    old(self).value_fn.at(s2, a2),
                    recip_rat(n),
                    td,
                    bumped_trace(old(self).traces, state, action, s2, a2),
                )
            } by {
                crate::table::lemma_slot_bounds(s2, a2);
                let j = crate::table::sa_slot(s2, a2);
                assert(self.value_fn.slots()[j] == traced_value_update(
                    values0.slots()[j],
                    step,
                    td,
                    traces1.slots()[j],
                ));
                assert(values0.slots()[j] == old(self).value_fn.at(s2, a2));
                assert(traces1.slots()[j] == bumped_trace(
                    old(self).traces,
                    state,
                    action,
                    s2,
                    a2,
                ));
                assert(used == supplied_or_greedy(old(self).value_fn, next_state, next_action));
                assert(td == td_error(
                    reward,
                    old(self).value_fn.at(next_state, used),
                    old(self).value_fn.at(state, action),
                ));
            }
            assert(self.total_visits.at(state, action) == sat_inc(
                old(self).total_visits.at(state, action),
            ));
        }
        Some(used)
    }

    fn on_episode_end(&mut self) {
    }
}

} // verus!
