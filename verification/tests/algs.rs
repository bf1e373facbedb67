use easy21::game::{Action, State};
use easy21::gpi::Alg;
use easy21::montecarlo::MonteCarlo;
use easy21::qlearning::QLearning;
use easy21::rat::Rat;
use easy21::sarsa::SarsaLambda;

#[test]
fn first_visit_counts_once() {
    let mut mc = MonteCarlo::new();
    let s = State { dealer: 1, player: 1 };
    let next = State { dealer: 1, player: 3 };

    mc.on_episode_begin();
    mc.on_episode_step(s, Action::Hit, Rat::of_int(1), next, None);
    mc.on_episode_step(s, Action::Hit, Rat::of_int(1), next, None);
    mc.on_episode_end();

    // Two visits in one episode count as a single lifetime visit, and the
    // value moves all the way to the episode's total return 1 + 1 = 2.
    assert_eq!(mc.step_sizer.visits.get(s, Action::Hit), 1);
    assert_eq!(mc.get_expected_reward(s, Action::Hit), Rat::of_int(2));
}

#[test]
fn monte_carlo_sample_average() {
    let mut mc = MonteCarlo::new();
    let s = State { dealer: 2, player: 5 };
    let next = State { dealer: 2, player: 30 };

    // First episode returns 1, second returns 0: the estimate is the mean 1/2.
    mc.on_episode_begin();
    mc.on_episode_step(s, Action::Hit, Rat::of_int(1), next, None);
    mc.on_episode_end();
    mc.on_episode_begin();
    mc.on_episode_step(s, Action::Hit, Rat::of_int(0), next, None);
    mc.on_episode_end();

    assert_eq!(mc.step_sizer.visits.get(s, Action::Hit), 2);
    assert_eq!(mc.get_expected_reward(s, Action::Hit), Rat::frac(1, 2).unwrap());
}

#[test]
fn ties_favor_stick() {
    let mc = MonteCarlo::new();
    let s = State { dealer: 1, player: 1 };
    assert_eq!(mc.choose_best_action(s), Action::Stick);
}

#[test]
fn traces_decay_by_lambda() {
    let half = Rat::frac(1, 2).unwrap();
    let mut alg = SarsaLambda::new(half);
    let s1 = State { dealer: 1, player: 1 };
    let s2 = State { dealer: 1, player: 3 };
    let s3 = State { dealer: 1, player: 6 };

    alg.on_episode_begin();
    // First step: the fresh trace of (s1, Hit) is 0 + 1, then decays to 1/2.
    alg.on_episode_step(s1, Action::Hit, Rat::of_int(0), s2, Some(Action::Hit));
    assert_eq!(alg.traces.get(s1, Action::Hit), Rat::frac(1, 2).unwrap());

    // Second step visits a different pair: the old trace decays by exactly
    // lambda again, and the new pair's trace is (0 + 1) * 1/2.
    alg.on_episode_step(s2, Action::Hit, Rat::of_int(0), s3, Some(Action::Hit));
    assert_eq!(alg.traces.get(s1, Action::Hit), Rat::frac(1, 4).unwrap());
    assert_eq!(alg.traces.get(s2, Action::Hit), Rat::frac(1, 2).unwrap());
}

#[test]
fn traces_reset_at_episode_begin() {
    let half = Rat::frac(1, 2).unwrap();
    let mut alg = SarsaLambda::new(half);
    let s1 = State { dealer: 1, player: 1 };
    let s2 = State { dealer: 1, player: 3 };

    alg.on_episode_begin();
    alg.on_episode_step(s1, Action::Hit, Rat::of_int(0), s2, Some(Action::Hit));
    assert_ne!(alg.traces.get(s1, Action::Hit), Rat::of_int(0));
    alg.on_episode_begin();
    assert_eq!(alg.traces.get(s1, Action::Hit), Rat::of_int(0));
}

#[test]
fn sarsa_uses_the_supplied_next_action() {
    let mut alg = SarsaLambda::new(Rat::of_int(0));
    let s = State { dealer: 1, player: 1 };
    let next = State { dealer: 1, player: 3 };

    // Plant a value on (next, Hit) so the TD target can see it.
    alg.on_episode_begin();
    alg.on_episode_step(next, Action::Hit, Rat::of_int(1), State { dealer: 1, player: 30 }, Some(
        Action::Hit,
    ));
    assert_eq!(alg.get_expected_reward(next, Action::Hit), Rat::of_int(1));

    // A step from s with next action Hit bootstraps from that value:
    // td = 0 + value(next, Hit) - value(s, Hit) = 1, step size 1, trace 1.
    alg.on_episode_begin();
    let back = alg.on_episode_step(s, Action::Hit, Rat::of_int(0), next, Some(Action::Hit));
    assert_eq!(back, Some(Action::Hit));
    assert_eq!(alg.get_expected_reward(s, Action::Hit), Rat::of_int(1));
}

#[test]
fn qlearning_bootstraps_from_its_own_greedy_action() {
    let mut alg = QLearning::new(Rat::of_int(0));
    let s = State { dealer: 1, player: 1 };
    let next = State { dealer: 1, player: 3 };

    // Plant a value on (next, Hit); greedy at `next` is then Hit.
    alg.on_episode_begin();
    alg.on_episode_step(next, Action::Hit, Rat::of_int(1), State { dealer: 1, player: 30 }, None);
    assert_eq!(alg.get_expected_reward(next, Action::Hit), Rat::of_int(1));

    // Even with no next action supplied, Q-learning bootstraps from its own
    // greedy choice at the successor state.
    alg.on_episode_begin();
    let back = alg.on_episode_step(s, Action::Hit, Rat::of_int(0), next, None);
    assert_eq!(back, None);
    assert_eq!(alg.get_expected_reward(s, Action::Hit), Rat::of_int(1));
}

#[test]
fn step_sizes_decay_inside_sarsa() {
    let mut alg = SarsaLambda::new(Rat::of_int(0));
    let s = State { dealer: 1, player: 1 };
    let next = State { dealer: 1, player: 30 };

    // With lambda = 0 and a terminal successor, each step moves the value by
    // (1/n) * (1 - value): 1, then 1 + 1/2 * (1 - 1) = 1 stays, so use
    // reward 2 on the second visit: value becomes 1 + 1/2 * (2 - 1) = 3/2.
    alg.on_episode_begin();
    alg.on_episode_step(s, Action::Hit, Rat::of_int(1), next, Some(Action::Hit));
    assert_eq!(alg.get_expected_reward(s, Action::Hit), Rat::of_int(1));
    alg.on_episode_begin();
    alg.on_episode_step(s, Action::Hit, Rat::of_int(2), next, Some(Action::Hit));
    assert_eq!(alg.get_expected_reward(s, Action::Hit), Rat::frac(3, 2).unwrap());
}

#[test]
fn lambda_one_keeps_traces() {
    let mut alg = SarsaLambda::new(Rat::of_int(1));
    let s1 = State { dealer: 1, player: 1 };
    let s2 = State { dealer: 1, player: 3 };
    let s3 = State { dealer: 1, player: 6 };

    alg.on_episode_begin();
    alg.on_episode_step(s1, Action::Hit, Rat::of_int(0), s2, Some(Action::Hit));
    alg.on_episode_step(s2, Action::Hit, Rat::of_int(0), s3, Some(Action::Hit));

    // With lambda = 1 accumulated traces persist undecayed.
    assert_eq!(alg.traces.get(s1, Action::Hit), Rat::of_int(1));
    assert_eq!(alg.traces.get(s2, Action::Hit), Rat::of_int(1));
}
