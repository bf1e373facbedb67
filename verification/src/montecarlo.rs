//! First-visit Monte Carlo control.

use vstd::prelude::*;
use crate::game::{Action, State, spec_is_terminal};
use crate::gpi::Alg;
use crate::rat::{add_keep, mul_spec, rat_zero, sub_spec, Rat};
use crate::table::{sa_slot, sat_inc, SaTable};
use crate::util::{recip_rat, VaryingStepSizer};

verus! {

/// Whether the pair `(s, a)` occurs in a visited list.
pub open spec fn visited_has(v: Seq<(State, Action)>, s: State, a: Action) -> bool {
    exists|i: int| 0 <= i < v.len() && v[i] == (s, a)
}

/// The first-visit list after one transition from `s` with `a`: the pair
/// is appended the first time it is seen, and only non-terminal states can
/// be visited.
pub open spec fn record_first_visit(v: Seq<(State, Action)>, s: State, a: Action) -> Seq<
    (State, Action),
> {
    if !spec_is_terminal(s) && !visited_has(v, s, a) {
        v.push((s, a))
    } else {
        v
    }
}

/// The incremental sample-mean update: `v + (1/n) * (total - v)`, performed
/// in checked rational arithmetic; if any step of the computation is not
/// representable the value is left unchanged.
pub open spec fn mc_update(v: Rat, total: Rat, n: u64) -> Rat {
    match sub_spec(total, v) {
        None => v,
        Some(diff) => match mul_spec(recip_rat(n), diff) {
            None => v,
            Some(delta) => add_keep(v, delta),
        },
    }
}

/// How one transition moves a Monte Carlo learner: the pair is recorded on
/// its first visit this episode, the reward joins the episode return, value
/// estimates and lifetime counters wait for the episode's end, and no
/// next-action override is returned.
pub open spec fn mc_step_rel(
    pre: MonteCarlo,
    state: State,
    action: Action,
    reward: Rat,
    next_state: State,
    next_action: Option<Action>,
    post: MonteCarlo,
    back: Option<Action>,
) -> bool {
    &&& post.value_fn == pre.value_fn
    &&& post.step_sizer == pre.step_sizer
    &&& post.reward_this_episode == add_keep(pre.reward_this_episode, reward)
    &&& post.visited_this_episode@ == record_first_visit(
        pre.visited_this_episode@,
        state,
        action,
    )
    &&& back is None
}

/// The value estimates and lifetime visit counters (as slot sequences)
/// after crediting the first `k` entries of the episode's first-visit list
/// with the episode's total return: each listed pair's counter is bumped
/// once and its value moves toward `total` by the sample-average step size.
pub open spec fn mc_credit(
    values: Seq<Rat>,
    counts: Seq<u64>,
    visited: Seq<(State, Action)>,
    total: Rat,
    k: int,
) -> (Seq<Rat>, Seq<u64>)
    decreases k,
{
    if k <= 0 {
        (values, counts)
    } else {
        let prev = mc_credit(values, counts, visited, total, k - 1);
        let j = sa_slot(visited[k - 1].0, visited[k - 1].1);
        let n = sat_inc(prev.1[j]);
        (prev.0.update(j, mc_update(prev.0[j], total, n)), prev.1.update(j, n))
    }
}

/// How the episode's end moves a Monte Carlo learner: the whole first-visit
/// list is credited in order, and the episode bookkeeping is untouched.
/// Because the list holds each pair at most once, every listed pair's
/// counter grows by exactly one and its value receives exactly one update.
pub open spec fn mc_end_rel(pre: MonteCarlo, post: MonteCarlo) -> bool {
    &&& post.reward_this_episode == pre.reward_this_episode
    &&& post.visited_this_episode@ == pre.visited_this_episode@
    &&& ({
        let credited = mc_credit(
            pre.value_fn.slots(),
            pre.step_sizer.visits.entries@,
            pre.visited_this_episode@,
            pre.reward_this_episode,
            pre.visited_this_episode@.len() as int,
        );
        &&& post.value_fn.slots() == credited.0
        &&& post.step_sizer.visits.entries@ == credited.1
    })
}

/// Monte Carlo control: accumulates the undiscounted return of each episode
/// and moves every first-visited pair's value estimate toward that return by
/// the sample-average step size.
pub struct MonteCarlo {
    pub value_fn: SaTable,
    pub step_sizer: VaryingStepSizer,
    pub reward_this_episode: Rat,
    pub visited_this_episode: Vec<(State, Action)>,
}

impl MonteCarlo {
    /// Internal consistency: tables well-formed, and the first-visit list
    /// holds distinct, non-terminal pairs.
    pub open spec fn wf(self) -> bool {
        &&& self.value_fn.wf()
        &&& self.step_sizer.wf()
        &&& self.reward_this_episode.wf()
        &&& forall|i: int| 0 <= i < self.visited_this_episode@.len()
            ==> !spec_is_terminal((#[trigger] self.visited_this_episode@[i]).0)
        &&& forall|i: int, j: int|
            0 <= i < j < self.visited_this_episode@.len() ==> self.visited_this_episode@[i]
                != self.visited_this_episode@[j]
    }

    /// A fresh algorithm: all value estimates and counters zero.
    pub fn new() -> (r: Self)
        ensures
            r.wf(),
            r.value_fn.slots() == Seq::new(crate::table::N_PAIRS as nat, |j: int| rat_zero()),
            r.step_sizer.visits.entries@ == Seq::new(crate::table::N_PAIRS as nat, |j: int| 0u64),
            forall|s: State, a: Action| #[trigger] r.value_fn.at(s, a) == rat_zero(),
            forall|s: State, a: Action| #[trigger] r.step_sizer.visits.at(s, a) == 0,
            r.reward_this_episode == rat_zero(),
            r.visited_this_episode@ == Seq::<(State, Action)>::empty(),
    {
        MonteCarlo {
            value_fn: SaTable::new(),
            step_sizer: VaryingStepSizer::new(),
            reward_this_episode: Rat::of_int(0),
            visited_this_episode: Vec::new(),
        }
    }
}

/// Linear scan for a pair in the first-visit list.
fn visited_lookup(v: &Vec<(State, Action)>, s: State, a: Action) -> (r: bool)
    ensures
        r == visited_has(v@, s, a),
{
    let mut i: usize = 0;
    while i < v.len()
        invariant
            i <= v@.len(),
            forall|j: int| 0 <= j < i ==> v@[j] != (s, a),
        decreases v@.len() - i,
    {
        let (s2, a2) = v[i];
        if s2 == s && a2 == a {
            assert(v@[i as int] == (s, a));
            return true;
        }
        i = i + 1;
    }
    false
}

impl Alg for MonteCarlo {
    open spec fn inv(&self) -> bool {
        self.wf()
    }

    open spec fn reward_model(&self, s: State, a: Action) -> Rat {
        self.value_fn.at(s, a)
    }

    fn choose_best_action(&self, state: State) -> (a: Action) {
        let hit = self.value_fn.get(state, Action::Hit);
        let stick = self.value_fn.get(state, Action::Stick);
        if stick.lt(hit) {
            Action::Hit
        } else {
            Action::Stick
        }
    }

    fn get_expected_reward(&self, state: State, action: Action) -> (r: Rat) {
        self.value_fn.get(state, action)
    }

    open spec fn begin_rel(pre: Self, post: Self) -> bool {
        &&& post.value_fn == pre.value_fn
        &&& post.step_sizer == pre.step_sizer
        &&& post.reward_this_episode == rat_zero()
        &&& post.visited_this_episode@ == Seq::<(State, Action)>::empty()
    }

    open spec fn end_rel(pre: Self, post: Self) -> bool {
        mc_end_rel(pre, post)
    }

    /// Clear the first-visit set and zero the episode return.
    fn on_episode_begin(&mut self)
    {
        self.reward_this_episode = Rat::of_int(0);
        self.visited_this_episode = Vec::new();
    }

    open spec fn needs_next_action_spec(&self) -> bool {
        false
    }

    open spec fn step_rel(
        pre: Self,
        state: State,
        action: Action,
        reward: Rat,
        next_state: State,
        next_action: Option<Action>,
        post: Self,
        back: Option<Action>,
    ) -> bool {
        mc_step_rel(pre, state, action, reward, next_state, next_action, post, back)
    }

    fn needs_next_action(&self) -> (r: bool) {
        false
    }

    /// Record the pair on its first visit this episode and accumulate the
    /// reward into the episode return; see [`mc_step_rel`].
    fn on_episode_step(
        &mut self,
        state: State,
        action: Action,
        reward: Rat,
        next_state: State,
        next_action: Option<Action>,
    ) -> (r: Option<Action>)
    {
        if !state.is_terminal() && !visited_lookup(&self.visited_this_episode, state, action) {
            self.visited_this_episode.push((state, action));
            proof {
                let v0 = old(self).visited_this_episode@;
                assert forall|i: int, j: int|
                    0 <= i < j < self.visited_this_episode@.len() implies self
                    .visited_this_episode@[i] != self.visited_this_episode@[j] by {
                    if j == v0.len() {
                        assert(!visited_has(v0, state, action));
                        assert(v0[i] != (state, action));
                    }
                }
            }
        }
        self.reward_this_episode = self.reward_this_episode.add_or_keep(reward);
        None
    }

    /// Credit assignment; the exact update is [`mc_end_rel`].
    fn on_episode_end(&mut self)
    {
        let ghost v0 = old(self).visited_this_episode@;
        let ghost values0 = old(self).value_fn.slots();
        let ghost counts0 = old(self).step_sizer.visits.entries@;
        let total = self.reward_this_episode;
        let n = self.visited_this_episode.len();
        let mut idx: usize = 0;
        while idx < n
            invariant
                idx <= n,
                n == self.visited_this_episode@.len(),
                self.wf(),
                self.visited_this_episode@ == v0,
                self.reward_this_episode == old(self).reward_this_episode,
                total == old(self).reward_this_episode,
                values0 == old(self).value_fn.slots(),
                counts0 == old(self).step_sizer.visits.entries@,
                self.value_fn.slots() == mc_credit(values0, counts0, v0, total, idx as int).0,
                self.step_sizer.visits.entries@ == mc_credit(
                    values0,
                    counts0,
                    v0,
                    total,
                    idx as int,
                ).1,
            decreases n - idx,
        {
            let (s, a) = self.visited_this_episode[idx];
            proof {
                assert(v0[idx as int] == (s, a));
                crate::table::lemma_slot_bounds(s, a);
            }
            let step = self.step_sizer.update(s, a);
            let oldv = self.value_fn.get(s, a);
            let newv = match total.checked_sub(oldv) {
                None => oldv,
                Some(diff) => match step.checked_mul(diff) {
                    None => oldv,
                    Some(delta) => oldv.add_or_keep(delta),
                },
            };
            self.value_fn.set(s, a, newv);
            proof {
                let prev = mc_credit(values0, counts0, v0, total, idx as int);
                let j = sa_slot(s, a);
                assert(newv == mc_update(prev.0[j], total, sat_inc(prev.1[j])));
                assert(mc_credit(values0, counts0, v0, total, idx + 1) == (
                    prev.0.update(j, mc_update(prev.0[j], total, sat_inc(prev.1[j]))),
                    prev.1.update(j, sat_inc(prev.1[j])),
                ));
            }
            idx = idx + 1;
        }
    }
}

} // verus!
