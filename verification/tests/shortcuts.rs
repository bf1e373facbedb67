use easy21::gpi::Alg;
use easy21::game::{Action, State};
use easy21::rat::Rat;
use easy21::shortcuts;

#[test]
fn test_run_sarsa_works() {
    shortcuts::run_sarsa(3, Rat::frac(1, 2).unwrap());
}

#[test]
fn run_monte_carlo_plays_the_requested_episodes() {
    let gpi = shortcuts::run_monte_carlo(5);
    assert_eq!(gpi.episodes, 5);
}

#[test]
fn run_monte_carlo_with_no_episodes_learns_nothing() {
    let gpi = shortcuts::run_monte_carlo(0);
    assert_eq!(gpi.episodes, 0);
    let s = State { dealer: 3, player: 12 };
    assert_eq!(gpi.policy.alg.get_expected_reward(s, Action::Hit), Rat::of_int(0));
    assert_eq!(gpi.policy.alg.get_expected_reward(s, Action::Stick), Rat::of_int(0));
}

#[test]
fn run_lfa_works() {
    let gpi = shortcuts::run_lfa(
        2,
        Rat::frac(1, 2).unwrap(),
        Rat::frac(1, 10).unwrap(),
        Rat::frac(1, 100).unwrap(),
    );
    assert_eq!(gpi.episodes, 2);
}
