//! Convenience constructors: a fully wired runner per algorithm, with a
//! deterministic seed so runs are reproducible.

use vstd::prelude::*;
use crate::game::{Action, RngDeck, State};
use crate::gpi::{episode_chain_ok, EpisodeTrace, EpsilonGreedyPolicy, EpsilonType, Gpi};
use crate::lfa::{LinearFunctionApproximator, NUM_FEATURES};
use crate::montecarlo::MonteCarlo;
use crate::rat::{rat_zero, Rat};
use crate::rng::rng_from_seed;
use crate::sarsa::SarsaLambda;
use crate::table::{N_PAIRS, N_STATES};

verus! {

/// The fixed seed the shortcut constructors hand to the deck and the policy.
pub const DEFAULT_SEED: u64 = 20210621;

/// A freshly built Monte Carlo policy: varying exploration, no visits
/// recorded, and every estimate and counter zero.
pub open spec fn fresh_monte_carlo_policy(p: EpsilonGreedyPolicy<MonteCarlo>) -> bool {
    &&& p.epsilon == EpsilonType::Varying
    &&& p.times_visited.entries@ == Seq::new(N_STATES as nat, |j: int| 0u64)
    &&& p.alg.value_fn.slots() == Seq::new(N_PAIRS as nat, |j: int| rat_zero())
    &&& p.alg.step_sizer.visits.entries@ == Seq::new(N_PAIRS as nat, |j: int| 0u64)
    &&& p.alg.reward_this_episode == rat_zero()
    &&& p.alg.visited_this_episode@ == Seq::<(State, Action)>::empty()
}

/// A freshly built Sarsa(lambda) policy with the given decay rate.
pub open spec fn fresh_sarsa_policy(p: EpsilonGreedyPolicy<SarsaLambda>, lambda: Rat) -> bool {
    &&& p.epsilon == EpsilonType::Varying
    &&& p.times_visited.entries@ == Seq::new(N_STATES as nat, |j: int| 0u64)
    &&& p.alg.lambda == lambda
    &&& p.alg.value_fn.slots() == Seq::new(N_PAIRS as nat, |j: int| rat_zero())
    &&& p.alg.total_visits.entries@ == Seq::new(N_PAIRS as nat, |j: int| 0u64)
    &&& p.alg.traces.slots() == Seq::new(N_PAIRS as nat, |j: int| rat_zero())
}

/// A freshly built approximation policy with the given hyperparameters and
/// constant exploration rate.
pub open spec fn fresh_lfa_policy(
    p: EpsilonGreedyPolicy<LinearFunctionApproximator>,
    lambda: Rat,
    epsilon: Rat,
    step_size: Rat,
) -> bool {
    &&& p.epsilon == EpsilonType::Constant(epsilon)
    &&& p.times_visited.entries@ == Seq::new(N_STATES as nat, |j: int| 0u64)
    &&& p.alg.lambda == lambda
    &&& p.alg.step_size == step_size
    &&& p.alg.weights@ == Seq::new(NUM_FEATURES as nat, |j: int| rat_zero())
    &&& p.alg.traces.slots() == Seq::new(N_PAIRS as nat, |j: int| rat_zero())
}

/// A Monte Carlo runner over a seeded deck, after playing the requested
/// number of episodes (none when `episodes <= 0`, in which case the value
/// function is still all-zero).
pub fn run_monte_carlo(episodes: i32) -> (g: Gpi<RngDeck, EpsilonGreedyPolicy<MonteCarlo>>)
    ensures
        g.policy.wf(),
        g.policy.epsilon == EpsilonType::Varying,
        g.episodes == if episodes > 0 {
            episodes as int
        } else {
            0
        },
        episodes <= 0 ==> forall|s: State, a: Action| #[trigger] g.policy.alg.value_fn.at(s, a)
            == rat_zero(),
        exists|
            runs: Seq<(EpisodeTrace<EpsilonGreedyPolicy<MonteCarlo>>, EpsilonGreedyPolicy<
                MonteCarlo,
            >)>,
            start: EpsilonGreedyPolicy<MonteCarlo>,
        |
            fresh_monte_carlo_policy(start) && #[trigger] episode_chain_ok(runs, start, g.policy)
                && runs.len() == (if episodes > 0 {
                episodes as int
            } else {
                0
            }),
{
    let deck = RngDeck::from_seed(DEFAULT_SEED);
    let alg = MonteCarlo::new();
    let policy = EpsilonGreedyPolicy::new(rng_from_seed(DEFAULT_SEED), alg);
    let mut gpi = Gpi::new(deck, policy);
    proof {
        assert(fresh_monte_carlo_policy(gpi.policy));
    }
    let ghost start = gpi.policy;
    if episodes > 0 {
        gpi.play_episodes(episodes);
    } else {
        proof {
            let runs: Seq<(EpisodeTrace<EpsilonGreedyPolicy<MonteCarlo>>, EpsilonGreedyPolicy<
                MonteCarlo,
            >)> = Seq::empty();
            assert(episode_chain_ok(runs, start, gpi.policy));
        }
    }
    gpi
}

/// A Sarsa(lambda) runner over a seeded deck, after playing the requested
/// number of episodes.
pub fn run_sarsa(episodes: i32, lambda: Rat) -> (g: Gpi<
    RngDeck,
    EpsilonGreedyPolicy<SarsaLambda>,
>)
    requires
        lambda.wf(),
    ensures
        g.policy.wf(),
        g.policy.epsilon == EpsilonType::Varying,
        g.episodes == if episodes > 0 {
            episodes as int
        } else {
            0
        },
        episodes <= 0 ==> g.policy.alg.lambda == lambda,
        episodes <= 0 ==> forall|s: State, a: Action| #[trigger] g.policy.alg.value_fn.at(s, a)
            == rat_zero(),
        episodes <= 0 ==> forall|s: State, a: Action| #[trigger] g.policy.alg.traces.at(s, a)
            == rat_zero(),
        exists|
            runs: Seq<(EpisodeTrace<EpsilonGreedyPolicy<SarsaLambda>>, EpsilonGreedyPolicy<
                SarsaLambda,
            >)>,
            start: EpsilonGreedyPolicy<SarsaLambda>,
        |
            fresh_sarsa_policy(start, lambda) && #[trigger] episode_chain_ok(
                runs,
                start,
                g.policy,
            ) && runs.len() == (if episodes > 0 {
                episodes as int
            } else {
                0
            }),
{
    let deck = RngDeck::from_seed(DEFAULT_SEED);
    let alg = SarsaLambda::new(lambda);
    let policy = EpsilonGreedyPolicy::new(rng_from_seed(DEFAULT_SEED), alg);
    let mut gpi = Gpi::new(deck, policy);
    proof {
        assert(fresh_sarsa_policy(gpi.policy, lambda));
    }
    let ghost start = gpi.policy;
    if episodes > 0 {
        gpi.play_episodes(episodes);
    } else {
        proof {
            let runs: Seq<(EpisodeTrace<EpsilonGreedyPolicy<SarsaLambda>>, EpsilonGreedyPolicy<
                SarsaLambda,
            >)> = Seq::empty();
            assert(episode_chain_ok(runs, start, gpi.policy));
        }
    }
    gpi
}

/// A linear-function-approximation runner with a constant exploration rate
/// over a seeded deck, after playing the requested number of episodes.
pub fn run_lfa(episodes: i32, lambda: Rat, epsilon: Rat, step_size: Rat) -> (g: Gpi<
    RngDeck,
    EpsilonGreedyPolicy<LinearFunctionApproximator>,
>)
    requires
        lambda.wf(),
        epsilon.wf(),
        step_size.wf(),
    ensures
        g.policy.wf(),
        g.policy.epsilon == EpsilonType::Constant(epsilon),
        g.episodes == if episodes > 0 {
            episodes as int
        } else {
            0
        },
        episodes <= 0 ==> g.policy.alg.lambda == lambda && g.policy.alg.step_size == step_size,
        episodes <= 0 ==> forall|i: int| 0 <= i < crate::lfa::NUM_FEATURES
            ==> #[trigger] g.policy.alg.weights@[i] == rat_zero(),
        episodes <= 0 ==> forall|s: State, a: Action| #[trigger] g.policy.alg.traces.at(s, a)
            == rat_zero(),
        exists|
            runs: Seq<(EpisodeTrace<EpsilonGreedyPolicy<LinearFunctionApproximator>>,
                EpsilonGreedyPolicy<LinearFunctionApproximator>)>,
            start: EpsilonGreedyPolicy<LinearFunctionApproximator>,
        |
            fresh_lfa_policy(start, lambda, epsilon, step_size) && #[trigger] episode_chain_ok(
                runs,
                start,
                g.policy,
            ) && runs.len() == (if episodes > 0 {
                episodes as int
            } else {
                0
            }),
{
    let deck = RngDeck::from_seed(DEFAULT_SEED);
    let alg = LinearFunctionApproximator::new(lambda, step_size);
    let policy = EpsilonGreedyPolicy::new(rng_from_seed(DEFAULT_SEED), alg).with_constant_epsilon(
        epsilon,
    );
    let mut gpi = Gpi::new(deck, policy);
    proof {
        assert(fresh_lfa_policy(gpi.policy, lambda, epsilon, step_size));
    }
    let ghost start = gpi.policy;
    if episodes > 0 {
        gpi.play_episodes(episodes);
    } else {
        proof {
            let runs: Seq<(EpisodeTrace<EpsilonGreedyPolicy<LinearFunctionApproximator>>,
                EpsilonGreedyPolicy<LinearFunctionApproximator>)> = Seq::empty();
            assert(episode_chain_ok(runs, start, gpi.policy));
        }
    }
    gpi
}

} // verus!
