//! Q-learning(lambda): off-policy temporal-difference control with
//! accumulating eligibility traces.

use vstd::prelude::*;
use crate::game::{Action, State, spec_is_terminal};
use crate::gpi::Alg;
use crate::rat::{mul_keep, rat_zero, Rat};
use crate::sarsa::{bumped_trace, td_error};
use crate::table::{sat_inc, SaTable, N_PAIRS};
use crate::util::{greedy_action, recip_rat, traced_value_update, apply_traced_update, VaryingStepSizer};

verus! {

/// How one transition moves a Q-learning(lambda) learner.  A terminal
/// `state` cannot be visited and changes nothing.  Otherwise the update is
/// the Sarsa(lambda) update except that the TD target uses the greedy
/// action at the successor state, and no next-action override is returned.
pub open spec fn ql_step_rel(
    pre: QLearning,
    state: State,
    action: Action,
    reward: Rat,
    next_state: State,
    next_action: Option<Action>,
    post: QLearning,
    back: Option<Action>,
) -> bool {
    &&& post.lambda == pre.lambda
    &&& back is None
    &&& (spec_is_terminal(state) ==> {
        &&& post.value_fn == pre.value_fn
        &&& post.step_sizer == pre.step_sizer
        &&& post.traces == pre.traces
    })
    &&& (!spec_is_terminal(state) ==> ({
        let n = sat_inc(pre.step_sizer.visits.at(state, action));
        let target = greedy_action(pre.value_fn, next_state);
        let td = td_error(
            reward,
            pre.value_fn.at(next_state, target),
            pre.value_fn.at(state, action),
        );
        &&& post.step_sizer.visits.at(state, action) == n
        &&& forall|s2: State, a2: Action|
            !(s2 == state && a2 == action) ==> #[trigger] post.step_sizer.visits.at(s2, a2)
                == pre.step_sizer.visits.at(s2, a2)
        &&& forall|s2: State, a2: Action|
            !spec_is_terminal(s2) ==> #[trigger] post.value_fn.at(s2, a2)
                == traced_value_update(
                pre.value_fn.at(s2, a2),
                recip_rat(n),
                td,
                bumped_trace(pre.traces, state, action, s2, a2),
            )
        &&& forall|s2: State, a2: Action|
            !spec_is_terminal(s2) ==> #[trigger] post.traces.at(s2, a2) == mul_keep(
                bumped_trace(pre.traces, state, action, s2, a2),
                pre.lambda,
            )
    }))
}

/// Q-learning(lambda): structurally the Sarsa(lambda) update, but the TD
/// target uses the algorithm's own greedy action at the successor state (the
/// target policy), not the behavior policy's sampled next action.
pub struct QLearning {
    pub value_fn: SaTable,
    pub step_sizer: VaryingStepSizer,
    pub traces: SaTable,
    pub lambda: Rat,
}

impl QLearning {
    /// Internal consistency: tables well-formed and a well-formed `lambda`.
    pub open spec fn wf(self) -> bool {
        &&& self.value_fn.wf()
        &&& self.step_sizer.wf()
        &&& self.traces.wf()
        &&& self.lambda.wf()
    }

    /// A fresh algorithm with the given trace-decay rate; all value
    /// estimates, visit counts and traces start at zero.
    pub fn new(lambda: Rat) -> (r: Self)
        requires
            lambda.wf(),
        ensures
            r.wf(),
            r.lambda == lambda,
            r.value_fn.slots() == Seq::new(crate::table::N_PAIRS as nat, |j: int| rat_zero()),
            r.step_sizer.visits.entries@ == Seq::new(crate::table::N_PAIRS as nat, |j: int| 0u64),
            r.traces.slots() == Seq::new(crate::table::N_PAIRS as nat, |j: int| rat_zero()),
            forall|s: State, a: Action| #[trigger] r.value_fn.at(s, a) == rat_zero(),
            forall|s: State, a: Action| #[trigger] r.step_sizer.visits.at(s, a) == 0,
            forall|s: State, a: Action| #[trigger] r.traces.at(s, a) == rat_zero(),
    {
        QLearning {
            value_fn: SaTable::new(),
            step_sizer: VaryingStepSizer::new(),
            traces: SaTable::new(),
            lambda,
        }
    }
}

impl Alg for QLearning {
    open spec fn inv(&self) -> bool {
        self.wf()
    }

    open spec fn reward_model(&self, s: State, a: Action) -> Rat {
        self.value_fn.at(s, a)
    }

    fn choose_best_action(&self, state: State) -> (a: Action) {
        let hit = self.value_fn.get(state, Action::Hit);
        let stick = self.value_fn.get(state, Action::Stick);
        if stick.lt(hit) {
            Action::Hit
        } else {
            Action::Stick
        }
    }

    fn get_expected_reward(&self, state: State, action: Action) -> (r: Rat) {
        self.value_fn.get(state, action)
    }

    open spec fn begin_rel(pre: Self, post: Self) -> bool {
        &&& post.value_fn == pre.value_fn
        &&& post.step_sizer == pre.step_sizer
        &&& post.lambda == pre.lambda
        &&& forall|s: State, a: Action| #[trigger] post.traces.at(s, a) == rat_zero()
    }

    open spec fn end_rel(pre: Self, post: Self) -> bool {
        post == pre
    }

    /// Clear the eligibility traces.
    fn on_episode_begin(&mut self)
    {
        self.traces = SaTable::new();
    }

    open spec fn needs_next_action_spec(&self) -> bool {
        false
    }

    open spec fn step_rel(
        pre: Self,
        state: State,
        action: Action,
        reward: Rat,
        next_state: State,
        next_action: Option<Action>,
        post: Self,
        back: Option<Action>,
    ) -> bool {
        ql_step_rel(pre, state, action, reward, next_state, next_action, post, back)
    }

    /// Off-policy: the update computes its own greedy next action.
    fn needs_next_action(&self) -> (r: bool) {
        false
    }

    /// One Q-learning(lambda) step; the exact update is [`ql_step_rel`].
    fn on_episode_step(
        &mut self,
        state: State,
        action: Action,
        reward: Rat,
        next_state: State,
        next_action: Option<Action>,
    ) -> (r: Option<Action>)
    {
        if state.is_terminal() {
            return None;
        }
        let step = self.step_sizer.update(state, action);
        let ghost n = self.step_sizer.visits.at(state, action);
        let target = self.choose_best_action(next_state);
        let next_v = self.value_fn.get(next_state, target);
        let cur_v = self.value_fn.get(state, action);
        let td = reward.add_or_keep(next_v).sub_or_keep(cur_v);
        let bumped = crate::util::increment(&mut self.traces, state, action, Rat::of_int(1));
        let ghost traces1 = self.traces;
        let ghost values0 = self.value_fn;
        let ghost visits1 = self.step_sizer;
        proof {
            assert forall|s2: State, a2: Action| !spec_is_terminal(s2) implies #[trigger] traces1.at(
                s2,
                a2,
            ) == bumped_trace(old(self).traces, state, action, s2, a2) by {}
        }
        let mut i: usize = 0;
        while i < N_PAIRS
            invariant
                self.value_fn.wf(),
                self.traces.wf(),
                step.wf(),
                td.wf(),
                self.lambda.wf(),
                i <= N_PAIRS,
                self.step_sizer == visits1,
                visits1.visits.at(state, action) == sat_inc(
                    old(self).step_sizer.visits.at(state, action),
                ),
                n == visits1.visits.at(state, action),
                step == recip_rat(n),
                forall|s2: State, a2: Action|
                    !(s2 == state && a2 == action) ==> #[trigger] visits1.visits.at(s2, a2)
                        == old(self).step_sizer.visits.at(s2, a2),
                self.lambda == old(self).lambda,
                traces1.wf(),
                values0.wf(),
                forall|j: int| 0 <= j < i ==> #[trigger] self.value_fn.slots()[j]
                    == traced_value_update(values0.slots()[j], step, td, traces1.slots()[j]),
                forall|j: int| i <= j < N_PAIRS ==> #[trigger] self.value_fn.slots()[j]
                    == values0.slots()[j],
                forall|j: int| 0 <= j < i ==> #[trigger] self.traces.slots()[j] == mul_keep(
                    traces1.slots()[j],
                    self.lambda,
                ),
                forall|j: int| i <= j < N_PAIRS ==> #[trigger] self.traces.slots()[j]
                    == traces1.slots()[j],
            decreases N_PAIRS - i,
        {
            let tr = self.traces.get_slot(i);
            let v = self.value_fn.get_slot(i);
            self.value_fn.set_slot(i, apply_traced_update(v, step, td, tr));
            self.traces.set_slot(i, tr.mul_or_keep(self.lambda));
            i = i + 1;
        }
        proof {
            assert forall|s2: State, a2: Action| !spec_is_terminal(s2) implies #[trigger] self.traces.at(
                s2,
                a2,
            ) == mul_keep(
                bumped_trace(old(self).traces, state, action, s2, a2),
                old(self).lambda,
            ) by {
                crate::table::lemma_slot_bounds(s2, a2);
                let j = crate::table::sa_slot(s2, a2);
                assert(traces1.at(s2, a2) == bumped_trace(old(self).traces, state, action, s2, a2));
                assert(self.traces.slots()[j] == mul_keep(traces1.slots()[j], self.lambda));
            }
            assert forall|s2: State, a2: Action| !spec_is_terminal(s2) implies {
                &&& #[trigger] self.value_fn.at(s2, a2) == traced_value_update(
                    old(self).value_fn.at(s2, a2),
                    recip_rat(n),
                    td,
                    bumped_trace(old(self).traces, state, action, s2, a2),
                )
            } by {
                crate::table::lemma_slot_bounds(s2, a2);
                let j = crate::table::sa_slot(s2, a2);
                assert(self.value_fn.slots()[j] == traced_value_update(
                    values0.slots()[j],
                    step,
                    td,
                    traces1.slots()[j],
                ));
                assert(values0.slots()[j] == old(self).value_fn.at(s2, a2));
                assert(traces1.slots()[j] == bumped_trace(
                    old(self).traces,
                    state,
                    action,
                    s2,
                    a2,
                ));
                assert(td == td_error(
                    reward,
                    old(self).value_fn.at(next_state, greedy_action(old(self).value_fn, next_state)),
                    old(self).value_fn.at(state, action),
                ));
            }
            assert forall|s2: State, a2: Action| !(s2 == state && a2 == action)
                implies #[trigger] self.step_sizer.visits.at(s2, a2) == old(
                self,
            ).step_sizer.visits.at(s2, a2) by {
                assert(self.step_sizer.visits.at(s2, a2) == visits1.visits.at(s2, a2));
            }
        }
        None
    }

    fn on_episode_end(&mut self) {
    }
}

} // verus!
