//! Generalized policy iteration: the episode runner, the epsilon-greedy
//! behavior policy, and the interface every learning algorithm plugs into.

use vstd::prelude::*;
use crate::game::{Action, Deck, Reward, State, MAX_CARD, MAX_SUM, MIN_CARD, MIN_SUM, spec_hit_reward, spec_is_terminal, spec_stick_reward};
use crate::rat::{rat_lt, Rat};
use crate::rng::rand_below;
use crate::table::{sat_inc, StateCounts};

verus! {

/// How many steps a single episode may take before the runner stops driving
/// it; termination cannot be promised for every possible sequence of cards,
/// so the loop carries an explicit bound far beyond any realistic episode.
pub const MAX_EPISODE_STEPS: u32 = 1000000;

/// A value-learning algorithm usable for generalized policy iteration.
///
/// `reward_model` is the algorithm's current value estimate, as an abstract
/// map from state/action pairs to rationals; the executable methods are
/// specified against it.
pub trait Alg: Sized {
    /// The algorithm's internal consistency invariant.
    spec fn inv(&self) -> bool;

    /// The expected long-term reward the algorithm currently assigns to
    /// taking `a` in `s`.
    spec fn reward_model(&self, s: State, a: Action) -> Rat;

    /// The action maximizing the current value estimate; ties favor
    /// `Stick` (strict greater-than comparison).
    fn choose_best_action(&self, state: State) -> (a: Action)
        requires
            self.inv(),
        ensures
            a == (if rat_lt(
                self.reward_model(state, Action::Stick),
                self.reward_model(state, Action::Hit),
            ) {
                Action::Hit
            } else {
                Action::Stick
            }),
    ;

    /// The current value estimate for taking `action` in `state`.
    fn get_expected_reward(&self, state: State, action: Action) -> (r: Reward)
        requires
            self.inv(),
        ensures
            r == self.reward_model(state, action),
            r.wf(),
    ;

    /// How an episode-begin call moves the algorithm (for example: traces
    /// cleared, everything else kept).
    spec fn begin_rel(pre: Self, post: Self) -> bool;

    /// How an episode-end call moves the algorithm (for example: Monte
    /// Carlo's credit assignment).
    spec fn end_rel(pre: Self, post: Self) -> bool;

    /// Called when an episode begins.
    fn on_episode_begin(&mut self)
        requires
            old(self).inv(),
        ensures
            final(self).inv(),
            Self::begin_rel(*old(self), *final(self)),
    ;

    /// Whether the algorithm asks the policy for a sampled next action.
    spec fn needs_next_action_spec(&self) -> bool;

    /// The algorithm's transition relation: `on_episode_step` called on
    /// `pre` with this transition and `next_action` moves the state to
    /// `post` and returns `back`.  Each algorithm publishes its exact
    /// update rule here.
    spec fn step_rel(
        pre: Self,
        state: State,
        action: Action,
        reward: Rat,
        next_state: State,
        next_action: Option<Action>,
        post: Self,
        back: Option<Action>,
    ) -> bool;

    /// Whether `on_episode_step` needs a valid `next_action` (true for
    /// on-policy methods, whose update target uses the behavior policy's
    /// actual next move).
    fn needs_next_action(&self) -> (r: bool)
        ensures
            r == self.needs_next_action_spec(),
    ;

    /// Called on every transition; may return the action to use next so the
    /// runner does not sample the behavior policy a second time.
    fn on_episode_step(
        &mut self,
        state: State,
        action: Action,
        reward: Reward,
        next_state: State,
        next_action: Option<Action>,
    ) -> (r: Option<Action>)
        requires
            old(self).inv(),
            reward.wf(),
        ensures
            final(self).inv(),
            Self::step_rel(
                *old(self),
                state,
                action,
                reward,
                next_state,
                next_action,
                *final(self),
                r,
            ),
    ;

    /// Called when an episode ends.
    fn on_episode_end(&mut self)
        requires
            old(self).inv(),
        ensures
            final(self).inv(),
            Self::end_rel(*old(self), *final(self)),
    ;
}

/// A behavior policy driving episodes.
pub trait Policy: Sized {
    /// The policy's internal consistency invariant.
    spec fn inv(&self) -> bool;

    /// The policy's configuration (for example its exploration mode) is the
    /// same in `post` as in `pre`; every hook preserves it.
    spec fn keeps_config(pre: Self, post: Self) -> bool;

    /// How an episode-begin call moves the policy (and, through it, the
    /// wrapped algorithm).
    spec fn begin_rel(pre: Self, post: Self) -> bool;

    /// How a choose-action call moves the policy and what it may return.
    spec fn choose_rel(pre: Self, state: State, post: Self, a: Action) -> bool;

    /// How an episode-step call moves the policy: the bookkeeping it does
    /// itself and the transition it hands to the wrapped algorithm.
    spec fn step_rel(
        pre: Self,
        state: State,
        action: Action,
        reward: Rat,
        next_state: State,
        post: Self,
        back: Option<Action>,
    ) -> bool;

    /// How an episode-end call moves the policy.
    spec fn end_rel(pre: Self, post: Self) -> bool;

    /// Configuration preservation is reflexive.
    proof fn keeps_config_refl(p: &Self)
        ensures
            Self::keeps_config(*p, *p),
    ;

    /// Configuration preservation is transitive.
    proof fn keeps_config_trans(a: &Self, b: &Self, c: &Self)
        requires
            Self::keeps_config(*a, *b),
            Self::keeps_config(*b, *c),
        ensures
            Self::keeps_config(*a, *c),
    ;

    /// Pick the action to play in `state`.
    fn choose_action(&mut self, state: State) -> (a: Action)
        requires
            old(self).inv(),
        ensures
            final(self).inv(),
            Self::keeps_config(*old(self), *final(self)),
            Self::choose_rel(*old(self), state, *final(self), a),
    ;

    /// Called when an episode begins.
    fn on_episode_begin(&mut self)
        requires
            old(self).inv(),
        ensures
            final(self).inv(),
            Self::keeps_config(*old(self), *final(self)),
            Self::begin_rel(*old(self), *final(self)),
    ;

    /// Called on every transition; may return the action to use next.
    fn on_episode_step(&mut self, state: State, action: Action, reward: Reward, next_state: State)
        -> (r: Option<Action>)
        requires
            old(self).inv(),
            reward.wf(),
        ensures
            final(self).inv(),
            Self::keeps_config(*old(self), *final(self)),
            Self::step_rel(*old(self), state, action, reward, next_state, *final(self), r),
    ;

    /// Called when an episode ends.
    fn on_episode_end(&mut self)
        requires
            old(self).inv(),
        ensures
            final(self).inv(),
            Self::keeps_config(*old(self), *final(self)),
            Self::end_rel(*old(self), *final(self)),
    ;
}

/// Exploration rate selection: decaying with visits, or a fixed value.
#[derive(Clone, Copy, Debug, PartialEq, Eq, Structural)]
pub enum EpsilonType {
    /// `epsilon = N0 / (N0 + visits(state))` with `N0 == 100`.
    Varying,
    /// A fixed exploration probability.
    Constant(Rat),
}

/// The number of visits at which the varying exploration rate has halved.
pub const EXPLORATION_N0: u64 = 100;

/// The varying exploration rate after `visits` visits:
/// `N0 / (N0 + visits)`, as an exact (not necessarily reduced) fraction.
pub open spec fn varying_epsilon_num(visits: u64) -> int {
    EXPLORATION_N0 as int
}

/// Denominator of the varying exploration rate after `visits` visits.
pub open spec fn varying_epsilon_den(visits: u64) -> int {
    EXPLORATION_N0 + visits
}

/// An epsilon-greedy behavior policy wrapping a learning algorithm: with
/// probability epsilon it explores uniformly, otherwise it plays the
/// algorithm's best action.  Under `Varying` it counts state visits so that
/// exploration decays as a state becomes familiar.
pub struct EpsilonGreedyPolicy<U: Alg> {
    pub times_visited: StateCounts,
    pub rng: rand::rngs::StdRng,
    pub alg: U,
    pub epsilon: EpsilonType,
}

impl<U: Alg> EpsilonGreedyPolicy<U> {
    /// Internal consistency: tables well-formed, algorithm invariant holds,
    /// and a constant epsilon is a well-formed rational.
    pub open spec fn wf(self) -> bool {
        &&& self.times_visited.wf()
        &&& self.alg.inv()
        &&& match self.epsilon {
            EpsilonType::Constant(e) => e.wf(),
            EpsilonType::Varying => true,
        }
    }

    /// Everything except the random generator is unchanged.
    pub open spec fn same_but_rng(self, other: Self) -> bool {
        &&& self.times_visited == other.times_visited
        &&& self.alg == other.alg
        &&& self.epsilon == other.epsilon
    }

    /// A fresh policy in `Varying` mode with no visits recorded.
    pub fn new(rng: rand::rngs::StdRng, alg: U) -> (p: Self)
        requires
            alg.inv(),
        ensures
            p.wf(),
            p.alg == alg,
            p.epsilon == EpsilonType::Varying,
            p.times_visited.entries@ == Seq::new(crate::table::N_STATES as nat, |j: int| 0u64),
            forall|s: State| #[trigger] p.times_visited.at(s) == 0,
    {
        EpsilonGreedyPolicy {
            times_visited: StateCounts::new(),
            rng,
            alg,
            epsilon: EpsilonType::Varying,
        }
    }

    /// The same policy with a fixed exploration probability.
    pub fn with_constant_epsilon(self, value: Rat) -> (p: Self)
        requires
            self.wf(),
            value.wf(),
        ensures
            p.wf(),
            p.epsilon == EpsilonType::Constant(value),
            p.times_visited == self.times_visited,
            p.alg == self.alg,
    {
        EpsilonGreedyPolicy { epsilon: EpsilonType::Constant(value), ..self }
    }

    /// A uniformly random action (Hit or Stick, 50/50).
    fn exploratory_action(&mut self) -> (a: Action)
        ensures
            final(self).same_but_rng(*old(self)),
    {
        if rand_below(&mut self.rng, 2) == 0 {
            Action::Hit
        } else {
            Action::Stick
        }
    }

    /// Decide whether to explore now.  The outcome is random; what is
    /// promised is the deterministic edge of each mode: a never-visited
    /// state always explores under `Varying`, and a constant epsilon at or
    /// beyond the ends of `[0, 1]` explores never resp. always.
    fn should_explore(&mut self, state: State) -> (r: bool)
        requires
            old(self).wf(),
        ensures
            final(self).same_but_rng(*old(self)),
            old(self).epsilon == EpsilonType::Varying && old(self).times_visited.at(state) == 0
                ==> r,
            forall|e: Rat|
                old(self).epsilon == EpsilonType::Constant(e) && e.num <= 0 ==> !r,
            forall|e: Rat|
                old(self).epsilon == EpsilonType::Constant(e) && e.num >= e.den ==> r,
    {
        match self.epsilon {
            EpsilonType::Varying => {
                // Explore with probability varying_epsilon_num(visits) /
                // varying_epsilon_den(visits) == N0 / (N0 + visits), exactly.
                let visited = self.times_visited.get(state);
                let draw = rand_below(&mut self.rng, EXPLORATION_N0 + visited);
                draw < EXPLORATION_N0
            },
            EpsilonType::Constant(e) => {
                let draw = rand_below(&mut self.rng, e.den as u64);
                e.num > 0 && draw < e.num as u64
            },
        }
    }
}

impl<U: Alg> Policy for EpsilonGreedyPolicy<U> {
    open spec fn inv(&self) -> bool {
        self.wf()
    }

    open spec fn keeps_config(pre: Self, post: Self) -> bool {
        pre.epsilon == post.epsilon
    }

    proof fn keeps_config_refl(p: &Self) {
    }

    proof fn keeps_config_trans(a: &Self, b: &Self, c: &Self) {
    }

    open spec fn begin_rel(pre: Self, post: Self) -> bool {
        &&& post.times_visited == pre.times_visited
        &&& post.epsilon == pre.epsilon
        &&& U::begin_rel(pre.alg, post.alg)
    }

    open spec fn choose_rel(pre: Self, state: State, post: Self, a: Action) -> bool {
        &&& post.times_visited == pre.times_visited
        &&& post.alg == pre.alg
        &&& post.epsilon == pre.epsilon
        &&& (match pre.epsilon {
            EpsilonType::Constant(e) => e.num <= 0 ==> a == (if rat_lt(
                pre.alg.reward_model(state, Action::Stick),
                pre.alg.reward_model(state, Action::Hit),
            ) {
                Action::Hit
            } else {
                Action::Stick
            }),
            EpsilonType::Varying => true,
        })
    }

    open spec fn step_rel(
        pre: Self,
        state: State,
        action: Action,
        reward: Rat,
        next_state: State,
        post: Self,
        back: Option<Action>,
    ) -> bool {
        &&& post.epsilon == pre.epsilon
        &&& post.times_visited.entries@ == (if pre.epsilon == EpsilonType::Varying
            && !spec_is_terminal(state) {
            pre.times_visited.entries@.update(
                crate::table::state_slot(state),
                sat_inc(pre.times_visited.at(state)),
            )
        } else {
            pre.times_visited.entries@
        })
        &&& exists|na: Option<Action>|
            ((na is Some) <==> pre.alg.needs_next_action_spec()) && #[trigger] U::step_rel(
                pre.alg,
                state,
                action,
                reward,
                next_state,
                na,
                post.alg,
                back,
            )
    }

    open spec fn end_rel(pre: Self, post: Self) -> bool {
        &&& post.times_visited == pre.times_visited
        &&& post.epsilon == pre.epsilon
        &&& U::end_rel(pre.alg, post.alg)
    }

    /// Explore with probability epsilon, otherwise play the algorithm's
    /// best action.  The algorithm and the visit counts are not touched,
    /// and with a constant epsilon at or below zero the policy never
    /// explores, so the result is the algorithm's greedy action.
    fn choose_action(&mut self, state: State) -> (a: Action)
        ensures
            final(self).same_but_rng(*old(self)),
    {
        if self.should_explore(state) {
            self.exploratory_action()
        } else {
            self.alg.choose_best_action(state)
        }
    }

    fn on_episode_begin(&mut self)
    {
        self.alg.on_episode_begin();
    }

    /// Record the visit to `state` (under `Varying` only, and only for the
    /// non-terminal states that can be visited), obtain a next action for
    /// the algorithm exactly when it asks for one, and forward the
    /// transition: the algorithm's state moves by its own transition
    /// relation, and its answer is returned unchanged.
    fn on_episode_step(&mut self, state: State, action: Action, reward: Rat, next_state: State)
        -> (r: Option<Action>)
    {
        let is_varying = match self.epsilon {
            EpsilonType::Varying => true,
            EpsilonType::Constant(_) => false,
        };
        if is_varying && !state.is_terminal() {
            self.times_visited.increment(state);
        }
        let next_action = if self.alg.needs_next_action() {
            Some(self.choose_action(next_state))
        } else {
            None
        };
        proof {
            assert(self.alg == old(self).alg);
            assert((next_action is Some) <==> old(self).alg.needs_next_action_spec());
        }
        let back = self.alg.on_episode_step(state, action, reward, next_state, next_action);
        proof {
            assert(U::step_rel(
                old(self).alg,
                state,
                action,
                reward,
                next_state,
                next_action,
                self.alg,
                back,
            ));
        }
        back
    }

    fn on_episode_end(&mut self)
    {
        self.alg.on_episode_end();
    }
}

/// One recorded transition of an episode: the policy before the step hook,
/// the transition handed to it, the hook's answer `back`, and the policy
/// and action the episode continues with (resampled from the policy only
/// when the hook returned no action).
pub struct EpisodeStep<P> {
    pub pre: P,
    pub state: State,
    pub action: Action,
    pub reward: Rat,
    pub next_state: State,
    pub mid: P,
    pub back: Option<Action>,
    pub post: P,
    pub next_action: Action,
}

/// The transition could have come from the environment: the reward is the
/// exact function of the successor that the game pays, and the successor
/// keeps the coordinate the action does not touch.
pub open spec fn env_consistent(s: State, a: Action, ns: State, reward: Rat) -> bool {
    &&& reward.wf()
    &&& reward.den == 1
    &&& (match a {
        Action::Hit => ns.dealer == s.dealer && reward.num == spec_hit_reward(ns.player as int),
        Action::Stick => ns.player == s.player && reward.num == spec_stick_reward(
            ns.dealer as int,
            s.player as int,
        ),
    })
}

/// A step is wired correctly: it starts at the given state, action and
/// policy, its transition is environment-consistent and non-terminal, the
/// policy's step relation produced `mid` and `back`, and the action used
/// next is the hook's answer — or, when the hook returned none, a fresh
/// sample through the policy's choose relation.
pub open spec fn episode_step_ok<P: Policy>(
    st: EpisodeStep<P>,
    prev_state: State,
    prev_action: Action,
    prev_policy: P,
) -> bool {
    &&& st.state == prev_state
    &&& st.action == prev_action
    &&& st.pre == prev_policy
    &&& !spec_is_terminal(st.state)
    &&& env_consistent(st.state, st.action, st.next_state, st.reward)
    &&& P::step_rel(st.pre, st.state, st.action, st.reward, st.next_state, st.mid, st.back)
    &&& (match st.back {
        Some(a) => st.post == st.mid && st.next_action == a,
        None => P::choose_rel(st.mid, st.next_state, st.post, st.next_action),
    })
}

/// The whole run of steps is wired correctly, each one starting where the
/// one before it ended, the first at the episode's initial state, action
/// and policy.
pub open spec fn episode_steps_ok<P: Policy>(
    steps: Seq<EpisodeStep<P>>,
    s0: State,
    a0: Action,
    p0: P,
) -> bool
    decreases steps.len(),
{
    if steps.len() == 0 {
        true
    } else {
        let head = steps.drop_last();
        &&& episode_steps_ok(head, s0, a0, p0)
        &&& episode_step_ok(
            steps.last(),
            if head.len() == 0 {
                s0
            } else {
                head.last().next_state
            },
            if head.len() == 0 {
                a0
            } else {
                head.last().next_action
            },
            if head.len() == 0 {
                p0
            } else {
                head.last().post
            },
        )
    }
}

/// A full recorded episode: the begin hook, the freshly dealt start state,
/// the first action choice, the run of transitions, and the end hook.
pub struct EpisodeTrace<P> {
    pub start: State,
    pub first_action: Action,
    pub after_begin: P,
    pub after_first_choice: P,
    pub steps: Seq<EpisodeStep<P>>,
    pub before_end: P,
}

/// The state the episode was in when its loop stopped.
pub open spec fn trace_last_state<P>(tr: EpisodeTrace<P>) -> State {
    if tr.steps.len() == 0 {
        tr.start
    } else {
        tr.steps.last().next_state
    }
}

/// The trace connects `p0` to `pfin` through one whole episode: begin
/// relation, a non-terminal freshly dealt start, the first choice, a
/// correctly wired run of steps that stops at a terminal state (unless it
/// ran into the runner's step bound), and the end relation.
pub open spec fn episode_trace_ok<P: Policy>(tr: EpisodeTrace<P>, p0: P, pfin: P) -> bool {
    &&& !spec_is_terminal(tr.start)
    &&& P::begin_rel(p0, tr.after_begin)
    &&& P::choose_rel(tr.after_begin, tr.start, tr.after_first_choice, tr.first_action)
    &&& episode_steps_ok(tr.steps, tr.start, tr.first_action, tr.after_first_choice)
    &&& tr.before_end == (if tr.steps.len() == 0 {
        tr.after_first_choice
    } else {
        tr.steps.last().post
    })
    &&& tr.steps.len() <= MAX_EPISODE_STEPS
    &&& (tr.steps.len() < MAX_EPISODE_STEPS ==> spec_is_terminal(trace_last_state(tr)))
    &&& P::end_rel(tr.before_end, pfin)
}

/// The recorded runs connect `p0` to `pfin`: each entry holds one episode
/// trace and the policy it left behind, each episode starting at the policy
/// the one before it ended with.
pub open spec fn episode_chain_ok<P: Policy>(
    runs: Seq<(EpisodeTrace<P>, P)>,
    p0: P,
    pfin: P,
) -> bool
    decreases runs.len(),
{
    if runs.len() == 0 {
        pfin == p0
    } else {
        let head = runs.drop_last();
        let mid = if head.len() == 0 {
            p0
        } else {
            head.last().1
        };
        &&& episode_chain_ok(head, p0, mid)
        &&& episode_trace_ok(runs.last().0, mid, runs.last().1)
        &&& pfin == runs.last().1
    }
}

/// The generalized policy iteration runner: drives episodes of the game
/// against a behavior policy and counts them.
pub struct Gpi<T: Deck, U: Policy> {
    pub episodes: i32,
    pub deck: T,
    pub policy: U,
}

impl<T: Deck, U: Policy> Gpi<T, U> {
    /// A runner that has played no episodes yet.
    pub fn new(deck: T, policy: U) -> (g: Self)
        requires
            policy.inv(),
        ensures
            g.episodes == 0,
            g.policy == policy,
            g.policy.inv(),
    {
        Gpi { episodes: 0, deck, policy }
    }

    /// Play one episode to completion: deal a fresh state, fire the begin
    /// hook, alternate policy decisions with environment steps until a
    /// terminal state, fire the end hook, and count the episode.  The
    /// recorded trace in the postcondition pins the whole interaction: the
    /// hooks fired in order, every transition was environment-consistent
    /// and forwarded to the policy, and an action the step hook returned
    /// was used instead of resampling.
    pub fn play_episode(&mut self)
        requires
            old(self).policy.inv(),
            old(self).episodes < i32::MAX,
        ensures
            final(self).policy.inv(),
            final(self).episodes == old(self).episodes + 1,
            U::keeps_config(old(self).policy, final(self).policy),
            exists|tr: EpisodeTrace<U>| #[trigger] episode_trace_ok(
                tr,
                old(self).policy,
                final(self).policy,
            ),
    {
        let mut state = State::new(&mut self.deck);
        let ghost p0 = self.policy;
        self.policy.on_episode_begin();
        let ghost p1 = self.policy;
        let mut action = self.policy.choose_action(state);
        let ghost p2 = self.policy;
        let ghost s0 = state;
        let ghost a0 = action;
        let ghost mut steps: Seq<EpisodeStep<U>> = Seq::empty();
        proof {
            U::keeps_config_trans(&p0, &p1, &self.policy);
        }
        let mut fuel: u32 = MAX_EPISODE_STEPS;
        while !state.is_terminal() && fuel > 0
            invariant
                self.policy.inv(),
                self.episodes == old(self).episodes,
                U::keeps_config(old(self).policy, self.policy),
                MIN_SUM - MAX_CARD <= state.dealer <= MAX_SUM + MAX_CARD,
                MIN_SUM - MAX_CARD <= state.player <= MAX_SUM + MAX_CARD,
                U::begin_rel(old(self).policy, p1),
                U::choose_rel(p1, s0, p2, a0),
                !spec_is_terminal(s0),
                episode_steps_ok(steps, s0, a0, p2),
                fuel <= MAX_EPISODE_STEPS,
                steps.len() == MAX_EPISODE_STEPS - fuel,
                state == (if steps.len() == 0 {
                    s0
                } else {
                    steps.last().next_state
                }),
                action == (if steps.len() == 0 {
                    a0
                } else {
                    steps.last().next_action
                }),
                self.policy == (if steps.len() == 0 {
                    p2
                } else {
                    steps.last().post
                }),
            decreases fuel,
        {
            let ghost step_state = state;
            let ghost step_action = action;
            let ghost step_pre = self.policy;
            let (next_state, reward) = state.step(&mut self.deck, action);
            let ghost pa = self.policy;
            let stepped = self.policy.on_episode_step(state, action, reward, next_state);
            let ghost pmid = self.policy;
            proof {
                U::keeps_config_trans(&old(self).policy, &pa, &self.policy);
            }
            match stepped {
                None => {
                    let ghost pb = self.policy;
                    action = self.policy.choose_action(next_state);
                    proof {
                        U::keeps_config_trans(&old(self).policy, &pb, &self.policy);
                    }
                },
                Some(next_action) => {
                    action = next_action;
                },
            }
            proof {
                let st = EpisodeStep {
                    pre: step_pre,
                    state: step_state,
                    action: step_action,
                    reward,
                    next_state,
                    mid: pmid,
                    back: stepped,
                    post: self.policy,
                    next_action: action,
                };
                assert(episode_step_ok(
                    st,
                    if steps.len() == 0 {
                        s0
                    } else {
                        steps.last().next_state
                    },
                    if steps.len() == 0 {
                        a0
                    } else {
                        steps.last().next_action
                    },
                    if steps.len() == 0 {
                        p2
                    } else {
                        steps.last().post
                    },
                ));
                let grown = steps.push(st);
                assert(grown.drop_last() =~= steps);
                assert(grown.last() == st);
                assert(episode_steps_ok(grown, s0, a0, p2));
                steps = grown;
            }
            state = next_state;
            fuel = fuel - 1;
        }
        let ghost pe = self.policy;
        self.policy.on_episode_end();
        proof {
            U::keeps_config_trans(&old(self).policy, &pe, &self.policy);
            let tr = EpisodeTrace {
                start: s0,
                first_action: a0,
                after_begin: p1,
                after_first_choice: p2,
                steps,
                before_end: pe,
            };
            assert(episode_trace_ok(tr, old(self).policy, self.policy));
        }
        self.episodes = self.episodes + 1;
    }

    /// Play `count` episodes in sequence; a non-positive `count` plays none
    /// and leaves the runner untouched.  The recorded runs connect the
    /// starting policy to the final one through `count` whole episodes.
    pub fn play_episodes(&mut self, count: i32)
        requires
            old(self).policy.inv(),
            old(self).episodes + count <= i32::MAX,
        ensures
            final(self).policy.inv(),
            final(self).episodes == if count > 0 {
                old(self).episodes + count
            } else {
                old(self).episodes as int
            },
            count <= 0 ==> *final(self) == *old(self),
            U::keeps_config(old(self).policy, final(self).policy),
            exists|runs: Seq<(EpisodeTrace<U>, U)>|
                #[trigger] episode_chain_ok(runs, old(self).policy, final(self).policy)
                    && runs.len() == (if count > 0 {
                    count as int
                } else {
                    0
                }),
    {
        let ghost mut runs: Seq<(EpisodeTrace<U>, U)> = Seq::empty();
        if count <= 0 {
            proof {
                U::keeps_config_refl(&self.policy);
                assert(episode_chain_ok(runs, old(self).policy, self.policy));
            }
            return ;
        }
        proof {
            U::keeps_config_refl(&self.policy);
        }
        let mut i: i32 = 0;
        while i < count
            invariant
                0 <= i,
                i <= count || i == 0,
                self.policy.inv(),
                self.episodes == old(self).episodes + i,
                old(self).episodes + count <= i32::MAX,
                U::keeps_config(old(self).policy, self.policy),
                episode_chain_ok(runs, old(self).policy, self.policy),
                runs.len() == i,
                runs.len() > 0 ==> runs.last().1 == self.policy,
            decreases count - i,
        {
            let ghost pa = self.policy;
            self.play_episode();
            proof {
                U::keeps_config_trans(&old(self).policy, &pa, &self.policy);
                let tr = choose|tr: EpisodeTrace<U>| #[trigger] episode_trace_ok(
                    tr,
                    pa,
                    self.policy,
                );
                assert(episode_trace_ok(tr, pa, self.policy));
                let grown = runs.push((tr, self.policy));
                assert(grown.drop_last() =~= runs);
                assert(grown.last() == (tr, self.policy));
                assert(episode_chain_ok(grown, old(self).policy, self.policy));
                runs = grown;
            }
            i = i + 1;
        }
    }
}

/// Index of the `Hit` entry for a dealer/player combination in the
/// expected-reward matrix.
pub open spec fn matrix_base(d: int, p: int) -> int {
    ((d - MIN_CARD) * (MAX_SUM - MIN_SUM + 1) + (p - MIN_SUM)) * 2
}

/// The expected-reward table over the reporting grid: for every dealer card
/// `1..=10` and player sum `1..=21`, the value of `Hit` then of `Stick`,
/// row-major.  With 10 dealer values, 21 player sums and 2 actions this is
/// 420 entries.
pub fn expected_reward_matrix<V: Alg>(alg: &V) -> (m: Vec<Rat>)
    requires
        alg.inv(),
    ensures
        m@.len() == (MAX_CARD - MIN_CARD + 1) * (MAX_SUM - MIN_SUM + 1) * 2,
        forall|d: int, p: int|
            MIN_CARD <= d <= MAX_CARD && MIN_SUM <= p <= MAX_SUM ==> {
                &&& m@[#[trigger] matrix_base(d, p)] == alg.reward_model(
                    State { dealer: d as i32, player: p as i32 },
                    Action::Hit,
                )
                &&& m@[matrix_base(d, p) + 1] == alg.reward_model(
                    State { dealer: d as i32, player: p as i32 },
                    Action::Stick,
                )
            },
{
    let mut m: Vec<Rat> = Vec::new();
    let mut dealer: i32 = MIN_CARD;
    while dealer <= MAX_CARD
        invariant
            alg.inv(),
            MIN_CARD <= dealer <= MAX_CARD + 1,
            m@.len() == (dealer - MIN_CARD) * (MAX_SUM - MIN_SUM + 1) * 2,
            forall|d: int, p: int|
                MIN_CARD <= d < dealer && MIN_SUM <= p <= MAX_SUM ==> {
                    &&& m@[#[trigger] matrix_base(d, p)] == alg.reward_model(
                        State { dealer: d as i32, player: p as i32 },
                        Action::Hit,
                    )
                    &&& m@[matrix_base(d, p) + 1] == alg.reward_model(
                        State { dealer: d as i32, player: p as i32 },
                        Action::Stick,
                    )
                },
        decreases MAX_CARD + 1 - dealer,
    {
        let mut player: i32 = MIN_SUM;
        while player <= MAX_SUM
            invariant
                alg.inv(),
                MIN_CARD <= dealer <= MAX_CARD,
                MIN_SUM <= player <= MAX_SUM + 1,
                m@.len() == ((dealer - MIN_CARD) * (MAX_SUM - MIN_SUM + 1) + (player - MIN_SUM))
                    * 2,
                forall|d: int, p: int|
                    (MIN_CARD <= d < dealer && MIN_SUM <= p <= MAX_SUM) || (d == dealer && MIN_SUM
                        <= p < player) ==> {
                        &&& m@[#[trigger] matrix_base(d, p)] == alg.reward_model(
                            State { dealer: d as i32, player: p as i32 },
                            Action::Hit,
                        )
                        &&& m@[matrix_base(d, p) + 1] == alg.reward_model(
                            State { dealer: d as i32, player: p as i32 },
                            Action::Stick,
                        )
                    },
            decreases MAX_SUM + 1 - player,
        {
            let ghost len0 = m@.len() as int;
            let state = State { dealer, player };
            let vh = alg.get_expected_reward(state, Action::Hit);
            let vs = alg.get_expected_reward(state, Action::Stick);
            m.push(vh);
            m.push(vs);
            proof {
                assert(len0 == matrix_base(dealer as int, player as int));
                assert forall|d: int, p: int|
                    (MIN_CARD <= d < dealer && MIN_SUM <= p <= MAX_SUM) || (d == dealer && MIN_SUM
                        <= p < player) implies matrix_base(d, p) + 1 < len0 by {
                    let dl = dealer as int;
                    let pl = player as int;
                    if d < dl {
                        assert(((d - 1) * 21 + (p - 1)) * 2 + 2 <= ((dl - 1) * 21 + (pl - 1))
                            * 2) by (nonlinear_arith)
                            requires
                                d + 1 <= dl,
                                p <= 21,
                                1 <= pl,
                        ;
                    } else {
                        assert(((d - 1) * 21 + (p - 1)) * 2 + 2 <= ((dl - 1) * 21 + (pl - 1))
                            * 2) by (nonlinear_arith)
                            requires
                                d == dl,
                                p + 1 <= pl,
                        ;
                    }
                    assert(matrix_base(d, p) + 2 <= matrix_base(dl, pl));
                }
            }
            player = player + 1;
        }
        proof {
            let dl = dealer as int;
            assert(((dl - MIN_CARD) * (MAX_SUM - MIN_SUM + 1) + (MAX_SUM + 1 - MIN_SUM)) * 2
                == (dl + 1 - MIN_CARD) * (MAX_SUM - MIN_SUM + 1) * 2) by (nonlinear_arith);
        }
        dealer = dealer + 1;
    }
    m
}

} // verus!
