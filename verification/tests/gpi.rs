use easy21::game::{Action, RngDeck, State};
use easy21::gpi::{expected_reward_matrix, Alg, EpsilonGreedyPolicy, EpsilonType, Gpi, Policy};
use easy21::rat::Rat;
use rand::rngs::StdRng;
use rand::SeedableRng;

pub struct DumbAlg {
    pub action: Action,
    pub reward: Rat,
}

impl Alg for DumbAlg {
    fn inv(&self) -> bool {
        true
    }

    fn reward_model(&self, _: State, _: Action) -> Rat {
        self.reward
    }

    fn needs_next_action_spec(&self) -> bool {
        false
    }

    fn begin_rel(_: Self, _: Self) -> bool {
        true
    }

    fn end_rel(_: Self, _: Self) -> bool {
        true
    }

    fn step_rel(
        _: Self,
        _: State,
        _: Action,
        _: Rat,
        _: State,
        _: Option<Action>,
        _: Self,
        _: Option<Action>,
    ) -> bool {
        true
    }

    fn choose_best_action(&self, _: State) -> Action {
        self.action
    }

    fn get_expected_reward(&self, _: State, _: Action) -> Rat {
        self.reward
    }

    fn on_episode_begin(&mut self) {
    }

    fn needs_next_action(&self) -> bool {
        false
    }

    fn on_episode_step(
        &mut self,
        _state: State,
        _action: Action,
        _reward: Rat,
        _next_state: State,
        _next_action: Option<Action>,
    ) -> Option<Action> {
        None
    }

    fn on_episode_end(&mut self) {
    }
}

fn rng() -> StdRng {
    StdRng::seed_from_u64(7)
}

#[test]
fn test_play_episodes_works() {
    let deck = RngDeck::new(rng());
    let policy = EpsilonGreedyPolicy::new(
        rng(),
        DumbAlg { action: Action::Hit, reward: Rat::of_int(0) },
    );
    assert_eq!(policy.epsilon, EpsilonType::Varying);
    let mut gpi = Gpi::new(deck, policy);

    gpi.play_episodes(3);

    assert_eq!(gpi.episodes, 3);
}

#[test]
fn test_constant_epsilon_works() {
    let half = Rat::frac(1, 2).unwrap();
    let policy = EpsilonGreedyPolicy::new(
        rng(),
        DumbAlg { action: Action::Hit, reward: Rat::of_int(0) },
    )
    .with_constant_epsilon(half);
    assert_eq!(policy.epsilon, EpsilonType::Constant(half));
}

#[test]
fn test_write_expected_reward_matrix_works() {
    let alg = DumbAlg { action: Action::Hit, reward: Rat::of_int(5) };

    let output = expected_reward_matrix(&alg);

    assert_eq!(output.len(), 420);
    for v in output.iter() {
        assert_eq!(*v, Rat::of_int(5));
    }
}

#[test]
fn zero_episodes_change_nothing() {
    let deck = RngDeck::new(rng());
    let policy = EpsilonGreedyPolicy::new(rng(), easy21::montecarlo::MonteCarlo::new());
    let mut gpi = Gpi::new(deck, policy);

    gpi.play_episodes(0);

    assert_eq!(gpi.episodes, 0);
    let matrix = expected_reward_matrix(&gpi.policy.alg);
    for v in matrix.iter() {
        assert_eq!(*v, Rat::of_int(0));
    }
}

#[test]
fn never_exploring_policy_follows_the_algorithm() {
    let mut policy = EpsilonGreedyPolicy::new(
        rng(),
        DumbAlg { action: Action::Stick, reward: Rat::of_int(0) },
    )
    .with_constant_epsilon(Rat::of_int(0));
    for dealer in 1..10 {
        let s = State { dealer, player: 10 };
        assert_eq!(policy.choose_action(s), Action::Stick);
    }
}
