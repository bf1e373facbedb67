//! Linear function approximation with eligibility traces: the value of a
//! state/action pair is the dot product of a coarse tile-coded feature
//! vector with a learned weight vector.

use vstd::prelude::*;
use crate::game::{Action, State, spec_is_terminal};
use crate::gpi::Alg;
use crate::rat::{add_keep, mul_keep, mul_spec, rat_lt, rat_zero, Rat};
use crate::sarsa::{bumped_trace, td_error};
use crate::table::{slot_pair, slot_pair_at, SaTable, N_PAIRS};

verus! {

pub const NUM_DEALER_RANGES: usize = 3;

pub const NUM_PLAYER_RANGES: usize = 6;

pub const NUM_FEATURES: usize = 36;

/// The k-th overlapping dealer range, `[1+3k, 5+3k)`.
pub open spec fn in_dealer_range(k: int, d: int) -> bool {
    1 + 3 * k <= d < 5 + 3 * k
}

/// The k-th overlapping player range, `[1+3k, 7+3k)`.
pub open spec fn in_player_range(k: int, p: int) -> bool {
    1 + 3 * k <= p < 7 + 3 * k
}

/// Entry `i` of the tile-coded feature vector of `(s, a)`: the product of
/// three binary indicators, laid out dealer-major, then player, then action.
pub open spec fn spec_feature(s: State, a: Action, i: int) -> bool {
    &&& in_dealer_range(i / 12, s.dealer as int)
    &&& in_player_range((i / 2) % 6, s.player as int)
    &&& i % 2 == crate::table::action_index(a)
}

/// The whole feature vector of `(s, a)` as a sequence.
pub open spec fn feature_seq(s: State, a: Action) -> Seq<bool> {
    Seq::new(NUM_FEATURES as nat, |i: int| spec_feature(s, a, i))
}

/// The dot product of the first `n` entries of a binary feature vector with
/// a weight vector, in checked rational arithmetic.
pub open spec fn dot_spec(f: Seq<bool>, w: Seq<Rat>, n: int) -> Rat
    decreases n,
{
    if n <= 0 {
        rat_zero()
    } else {
        let prev = dot_spec(f, w, n - 1);
        if f[n - 1] {
            add_keep(prev, w[n - 1])
        } else {
            prev
        }
    }
}

/// Mark, in the prefix of `target`, whether `value` lies inside each range;
/// entries of `target` beyond the ranges are left unchanged.
pub fn get_ranges_inside(value: i32, ranges: &Vec<(i32, i32)>, target: &mut Vec<bool>)
    requires
        old(target)@.len() >= ranges@.len(),
    ensures
        final(target)@.len() == old(target)@.len(),
        forall|k: int| 0 <= k < ranges@.len() ==> #[trigger] final(target)@[k] == (ranges@[k].0
            <= value < ranges@[k].1),
        forall|k: int| ranges@.len() <= k < old(target)@.len() ==> #[trigger] final(target)@[k]
            == old(target)@[k],
{
    let mut k: usize = 0;
    while k < ranges.len()
        invariant
            k <= ranges@.len(),
            ranges@.len() <= target@.len(),
            target@.len() == old(target)@.len(),
            forall|j: int| 0 <= j < k ==> #[trigger] target@[j] == (ranges@[j].0 <= value
                < ranges@[j].1),
            forall|j: int| k <= j < target@.len() ==> #[trigger] target@[j] == old(target)@[j],
        decreases ranges@.len() - k,
    {
        let (lo, hi) = ranges[k];
        target.set(k, lo <= value && value < hi);
        k = k + 1;
    }
}

/// A buffer of `n` cleared indicator entries.
fn bool_buffer(n: usize) -> (r: Vec<bool>)
    ensures
        r@.len() == n,
{
    let mut out: Vec<bool> = Vec::new();
    let mut k: usize = 0;
    while k < n
        invariant
            out@.len() == k,
            k <= n,
        decreases n - k,
    {
        out.push(false);
        k = k + 1;
    }
    out
}

/// The tile-coded feature vector of `(state, action)`: 3 overlapping dealer
/// ranges crossed with 6 overlapping player ranges and the 2 actions.
pub fn to_feature_vector(state: State, action: Action) -> (r: Vec<bool>)
    ensures
        r@.len() == NUM_FEATURES,
        r@ == feature_seq(state, action),
        forall|i: int| 0 <= i < NUM_FEATURES ==> #[trigger] r@[i] == spec_feature(
            state,
            action,
            i,
        ),
{
    let dealer_ranges: Vec<(i32, i32)> = vec![(1, 5), (4, 8), (7, 11)];
    let player_ranges: Vec<(i32, i32)> = vec![(1, 7), (4, 10), (7, 13), (10, 16), (13, 19), (16, 22)];
    let mut dealer_ind: Vec<bool> = bool_buffer(dealer_ranges.len());
    get_ranges_inside(state.dealer, &dealer_ranges, &mut dealer_ind);
    let mut player_ind: Vec<bool> = bool_buffer(player_ranges.len());
    get_ranges_inside(state.player, &player_ranges, &mut player_ind);
    let hit = match action {
        Action::Hit => true,
        Action::Stick => false,
    };
    let mut vector: Vec<bool> = Vec::new();
    let mut i: usize = 0;
    while i < NUM_FEATURES
        invariant
            vector@.len() == i,
            i <= NUM_FEATURES,
            dealer_ind@.len() == 3,
            player_ind@.len() == 6,
            forall|k: int| 0 <= k < 3 ==> #[trigger] dealer_ind@[k] == in_dealer_range(
                k,
                state.dealer as int,
            ),
            forall|k: int| 0 <= k < 6 ==> #[trigger] player_ind@[k] == in_player_range(
                k,
                state.player as int,
            ),
            hit == (action == Action::Hit),
            forall|j: int| 0 <= j < i ==> #[trigger] vector@[j] == spec_feature(
                state,
                action,
                j,
            ),
        decreases NUM_FEATURES - i,
    {
        let di = i / 12;
        let pi = (i / 2) % 6;
        let ai = i % 2;
        let f = dealer_ind[di] && player_ind[pi] && (if ai == 0 {
            hit
        } else {
            !hit
        });
        vector.push(f);
        i = i + 1;
    }
    proof {
        assert(vector@ =~= feature_seq(state, action));
    }
    vector
}

/// The dot product of a binary feature vector with a weight vector.
pub fn dot_product(features: &Vec<bool>, weights: &Vec<Rat>) -> (r: Rat)
    requires
        features@.len() == weights@.len(),
        forall|i: int| 0 <= i < weights@.len() ==> #[trigger] weights@[i].wf(),
    ensures
        r == dot_spec(features@, weights@, features@.len() as int),
        r.wf(),
{
    proof {
        crate::table::lemma_rat_zero_wf();
    }
    let mut acc = Rat::of_int(0);
    let mut i: usize = 0;
    while i < features.len()
        invariant
            i <= features@.len(),
            features@.len() == weights@.len(),
            forall|k: int| 0 <= k < weights@.len() ==> #[trigger] weights@[k].wf(),
            acc == dot_spec(features@, weights@, i as int),
            acc.wf(),
        decreases features@.len() - i,
    {
        if features[i] {
            acc = acc.add_or_keep(weights[i]);
        }
        i = i + 1;
    }
    acc
}

/// The common factor `step_size * trace * td` of one pair's weight update,
/// or `None` when it is not representable.
pub open spec fn lfa_delta(step: Rat, tr: Rat, td: Rat) -> Option<Rat> {
    match mul_spec(step, tr) {
        None => None,
        Some(m) => mul_spec(m, td),
    }
}

/// The weight vector after crediting one traced pair: every weight whose
/// feature fires for the pair moves by the pair's delta; an unrepresentable
/// delta leaves the weights unchanged.
pub open spec fn lfa_apply_pair(w: Seq<Rat>, pr: (State, Action), tr: Rat, step: Rat, td: Rat)
    -> Seq<Rat> {
    match lfa_delta(step, tr, td) {
        None => w,
        Some(delta) => Seq::new(
            w.len(),
            |k: int| if spec_feature(pr.0, pr.1, k) {
                add_keep(w[k], delta)
            } else {
                w[k]
            },
        ),
    }
}

/// The weight vector after crediting the first `j` pair slots in order.
pub open spec fn lfa_sweep(w: Seq<Rat>, traces: Seq<Rat>, step: Rat, td: Rat, j: int) -> Seq<Rat>
    decreases j,
{
    if j <= 0 {
        w
    } else {
        lfa_apply_pair(lfa_sweep(w, traces, step, td, j - 1), slot_pair(j - 1), traces[j - 1], step, td)
    }
}

/// Move every weight whose feature fires for the pair by `delta`.
fn apply_pair_delta(weights: &mut Vec<Rat>, pr: (State, Action), features: &Vec<bool>, delta: Rat)
    requires
        old(weights)@.len() == NUM_FEATURES,
        forall|i: int| 0 <= i < NUM_FEATURES ==> #[trigger] old(weights)@[i].wf(),
        features@.len() == NUM_FEATURES,
        forall|i: int| 0 <= i < NUM_FEATURES ==> #[trigger] features@[i] == spec_feature(
            pr.0,
            pr.1,
            i,
        ),
        delta.wf(),
    ensures
        final(weights)@ == Seq::new(
            NUM_FEATURES as nat,
            |k: int| if spec_feature(pr.0, pr.1, k) {
                add_keep(old(weights)@[k], delta)
            } else {
                old(weights)@[k]
            },
        ),
        forall|i: int| 0 <= i < NUM_FEATURES ==> #[trigger] final(weights)@[i].wf(),
{
    let mut k: usize = 0;
    while k < NUM_FEATURES
        invariant
            k <= NUM_FEATURES,
            weights@.len() == NUM_FEATURES,
            features@.len() == NUM_FEATURES,
            delta.wf(),
            forall|i: int| 0 <= i < NUM_FEATURES ==> #[trigger] old(weights)@[i].wf(),
            forall|i: int| 0 <= i < NUM_FEATURES ==> #[trigger] features@[i] == spec_feature(
                pr.0,
                pr.1,
                i,
            ),
            forall|i: int| 0 <= i < k ==> #[trigger] weights@[i] == (if spec_feature(
                pr.0,
                pr.1,
                i,
            ) {
                add_keep(old(weights)@[i], delta)
            } else {
                old(weights)@[i]
            }),
            forall|i: int| k <= i < NUM_FEATURES ==> #[trigger] weights@[i] == old(weights)@[i],
            forall|i: int| 0 <= i < NUM_FEATURES ==> weights@[i].wf(),
        decreases NUM_FEATURES - k,
    {
        if features[k] {
            let wk = weights[k];
            weights.set(k, wk.add_or_keep(delta));
        }
        k = k + 1;
    }
    proof {
        assert(weights@ =~= Seq::new(
            NUM_FEATURES as nat,
            |k: int| if spec_feature(pr.0, pr.1, k) {
                add_keep(old(weights)@[k], delta)
            } else {
                old(weights)@[k]
            },
        ));
    }
}

/// How one transition moves the approximator.  A terminal `state` cannot
/// be visited and changes nothing.  Otherwise the TD error is computed
/// against the supplied next action (or the greedy one when none was
/// supplied), the pair's trace is incremented by one, every traced pair
/// credits the weights whose features fire for it by
/// `step_size * trace * td`, every trace decays by `lambda`, and the next
/// action the update committed to is returned.
pub open spec fn lfa_step_rel(
    pre: LinearFunctionApproximator,
    state: State,
    action: Action,
    reward: Rat,
    next_state: State,
    next_action: Option<Action>,
    post: LinearFunctionApproximator,
    back: Option<Action>,
) -> bool {
    &&& post.lambda == pre.lambda
    &&& post.step_size == pre.step_size
    &&& (spec_is_terminal(state) ==> {
        &&& post.weights == pre.weights
        &&& post.traces == pre.traces
        &&& back == next_action
    })
    &&& (!spec_is_terminal(state) ==> ({
        let used = match next_action {
            Some(x) => x,
            None => if rat_lt(
                pre.reward_model(next_state, Action::Stick),
                pre.reward_model(next_state, Action::Hit),
            ) {
                Action::Hit
            } else {
                Action::Stick
            },
        };
        let td = td_error(
            reward,
            pre.reward_model(next_state, used),
            pre.reward_model(state, action),
        );
        &&& forall|s2: State, a2: Action|
            !spec_is_terminal(s2) ==> #[trigger] post.traces.at(s2, a2) == mul_keep(
                bumped_trace(pre.traces, state, action, s2, a2),
                pre.lambda,
            )
        &&& post.weights@ == lfa_sweep(
            pre.weights@,
            pre.traces.slots().update(
                crate::table::sa_slot(state, action),
                bumped_trace(pre.traces, state, action, state, action),
            ),
            pre.step_size,
            td,
            N_PAIRS as int,
        )
        &&& back == Some(used)
    }))
}

/// Linear function approximation with eligibility traces and a constant
/// step size; the weights persist across episodes.
pub struct LinearFunctionApproximator {
    pub traces: SaTable,
    pub weights: Vec<Rat>,
    pub lambda: Rat,
    pub step_size: Rat,
}

impl LinearFunctionApproximator {
    /// Internal consistency: traces well-formed, 36 well-formed weights,
    /// and well-formed hyperparameters.
    pub open spec fn wf(self) -> bool {
        &&& self.traces.wf()
        &&& self.weights@.len() == NUM_FEATURES
        &&& forall|i: int| 0 <= i < NUM_FEATURES ==> #[trigger] self.weights@[i].wf()
        &&& self.lambda.wf()
        &&& self.step_size.wf()
    }

    /// A fresh approximator: all weights and traces zero.
    pub fn new(lambda: Rat, step_size: Rat) -> (r: Self)
        requires
            lambda.wf(),
            step_size.wf(),
        ensures
            r.wf(),
            r.lambda == lambda,
            r.step_size == step_size,
            r.weights@ == Seq::new(NUM_FEATURES as nat, |j: int| rat_zero()),
            r.traces.slots() == Seq::new(N_PAIRS as nat, |j: int| rat_zero()),
            forall|i: int| 0 <= i < NUM_FEATURES ==> #[trigger] r.weights@[i] == rat_zero(),
            forall|s: State, a: Action| #[trigger] r.traces.at(s, a) == rat_zero(),
    {
        proof {
            crate::table::lemma_rat_zero_wf();
        }
        let mut weights: Vec<Rat> = Vec::new();
        let mut i: usize = 0;
        while i < NUM_FEATURES
            invariant
                weights@.len() == i,
                i <= NUM_FEATURES,
                forall|j: int| 0 <= j < i ==> #[trigger] weights@[j] == rat_zero(),
            decreases NUM_FEATURES - i,
        {
            weights.push(Rat { num: 0, den: 1 });
            i = i + 1;
        }
        proof {
            assert(weights@ =~= Seq::new(NUM_FEATURES as nat, |j: int| rat_zero()));
        }
        LinearFunctionApproximator { traces: SaTable::new(), weights, lambda, step_size }
    }
}

impl Alg for LinearFunctionApproximator {
    open spec fn inv(&self) -> bool {
        self.wf()
    }

    open spec fn reward_model(&self, s: State, a: Action) -> Rat {
        dot_spec(feature_seq(s, a), self.weights@, NUM_FEATURES as int)
    }

    fn choose_best_action(&self, state: State) -> (a: Action) {
        let hit = self.get_expected_reward(state, Action::Hit);
        let stick = self.get_expected_reward(state, Action::Stick);
        if stick.lt(hit) {
            Action::Hit
        } else {
            Action::Stick
        }
    }

    fn get_expected_reward(&self, state: State, action: Action) -> (r: Rat) {
        let features = to_feature_vector(state, action);
        dot_product(&features, &self.weights)
    }

    open spec fn begin_rel(pre: Self, post: Self) -> bool {
        &&& post.weights == pre.weights
        &&& post.lambda == pre.lambda
        &&& post.step_size == pre.step_size
        &&& forall|s: State, a: Action| #[trigger] post.traces.at(s, a) == rat_zero()
    }

    open spec fn end_rel(pre: Self, post: Self) -> bool {
        post == pre
    }

    /// Clear the eligibility traces.
    fn on_episode_begin(&mut self)
    {
        self.traces = SaTable::new();
    }

    open spec fn needs_next_action_spec(&self) -> bool {
        true
    }

    open spec fn step_rel(
        pre: Self,
        state: State,
        action: Action,
        reward: Rat,
        next_state: State,
        next_action: Option<Action>,
        post: Self,
        back: Option<Action>,
    ) -> bool {
        lfa_step_rel(pre, state, action, reward, next_state, next_action, post, back)
    }

    /// On-policy: the update target uses the behavior policy's sampled next
    /// action.
    fn needs_next_action(&self) -> (r: bool) {
        true
    }

    /// One LFA(lambda) step; the exact update is [`lfa_step_rel`].
    fn on_episode_step(
        &mut self,
        state: State,
        action: Action,
        reward: Rat,
        next_state: State,
        next_action: Option<Action>,
    ) -> (r: Option<Action>)
    {
        if state.is_terminal() {
            return next_action;
        }
        let used = match next_action {
            Some(x) => x,
            None => self.choose_best_action(next_state),
        };
        let next_v = self.get_expected_reward(next_state, used);
        let cur_v = self.get_expected_reward(state, action);
        let td = reward.add_or_keep(next_v).sub_or_keep(cur_v);
        let bumped = crate::util::increment(&mut self.traces, state, action, Rat::of_int(1));
        let ghost traces1 = self.traces;
        let ghost w0 = self.weights@;
        proof {
            crate::table::lemma_slot_bounds(state, action);
            assert(traces1.slots() == old(self).traces.slots().update(
                crate::table::sa_slot(state, action),
                bumped_trace(old(self).traces, state, action, state, action),
            ));
            assert forall|s2: State, a2: Action| !spec_is_terminal(s2) implies #[trigger] traces1.at(
                s2,
                a2,
            ) == bumped_trace(old(self).traces, state, action, s2, a2) by {}
        }
        let mut j: usize = 0;
        while j < N_PAIRS
            invariant
                j <= N_PAIRS,
                self.traces.wf(),
                self.weights@.len() == NUM_FEATURES,
                forall|k: int| 0 <= k < NUM_FEATURES ==> #[trigger] self.weights@[k].wf(),
                self.lambda == old(self).lambda,
                self.step_size == old(self).step_size,
                self.lambda.wf(),
                self.step_size.wf(),
                td.wf(),
                traces1.wf(),
                self.weights@ == lfa_sweep(w0, traces1.slots(), self.step_size, td, j as int),
                forall|i: int| 0 <= i < j ==> #[trigger] self.traces.slots()[i] == mul_keep(
                    traces1.slots()[i],
                    self.lambda,
                ),
                forall|i: int| j <= i < N_PAIRS ==> #[trigger] self.traces.slots()[i]
                    == traces1.slots()[i],
            decreases N_PAIRS - j,
        {
            let tr = self.traces.get_slot(j);
            let ghost w_pre = self.weights@;
            let pair = slot_pair_at(j);
            match self.step_size.checked_mul(tr) {
                None => {
                    proof {
                        assert(lfa_apply_pair(w_pre, slot_pair(j as int), tr, self.step_size, td)
                            == w_pre);
                    }
                },
                Some(m) => {
                    match m.checked_mul(td) {
                        None => {
                            proof {
                                assert(lfa_apply_pair(
                                    w_pre,
                                    slot_pair(j as int),
                                    tr,
                                    self.step_size,
                                    td,
                                ) == w_pre);
                            }
                        },
                        Some(delta) => {
                            let features = to_feature_vector(pair.0, pair.1);
                            apply_pair_delta(&mut self.weights, pair, &features, delta);
                            proof {
                                assert(self.weights@ =~= lfa_apply_pair(
                                    w_pre,
                                    slot_pair(j as int),
                                    tr,
                                    self.step_size,
                                    td,
                                ));
                            }
                        },
                    }
                },
            }
            self.traces.set_slot(j, tr.mul_or_keep(self.lambda));
            proof {
                assert(self.weights@ == lfa_sweep(
                    w0,
                    traces1.slots(),
                    self.step_size,
                    td,
                    j + 1,
                ));
            }
            j = j + 1;
        }
        proof {
            assert forall|s2: State, a2: Action| !spec_is_terminal(s2) implies #[trigger] self.traces.at(
                s2,
                a2,
            ) == mul_keep(
                bumped_trace(old(self).traces, state, action, s2, a2),
                old(self).lambda,
            ) by {
                crate::table::lemma_slot_bounds(s2, a2);
                let i = crate::table::sa_slot(s2, a2);
                assert(traces1.at(s2, a2) == bumped_trace(old(self).traces, state, action, s2, a2));
                assert(self.traces.slots()[i] == mul_keep(traces1.slots()[i], self.lambda));
            }
        }
        Some(used)
    }

    fn on_episode_end(&mut self) {
    }
}

} // verus!
