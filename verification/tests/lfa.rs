use easy21::game::{Action, State};
use easy21::lfa::{dot_product, to_feature_vector, LinearFunctionApproximator, NUM_FEATURES};
use easy21::gpi::Alg;
use easy21::rat::Rat;

#[test]
fn test_to_feature_vector_works_with_one_cuboid() {
    let fv = to_feature_vector(State { dealer: 1, player: 1 }, Action::Hit);
    let mut expected = vec![false; NUM_FEATURES];
    expected[0] = true;

    assert_eq!(fv, expected);
}

#[test]
fn test_to_feature_vector_works_with_two_cuboids() {
    let fv = to_feature_vector(State { dealer: 1, player: 5 }, Action::Hit);
    let mut expected = vec![false; NUM_FEATURES];
    expected[0] = true;
    expected[2] = true;

    assert_eq!(fv, expected);
}

#[test]
fn test_dot_product_works() {
    let features = vec![true; NUM_FEATURES];
    let mut weights = vec![Rat::of_int(2); NUM_FEATURES];

    assert_eq!(dot_product(&features, &weights), Rat::of_int(72));

    weights[0] = Rat::of_int(1);

    assert_eq!(dot_product(&features, &weights), Rat::of_int(71));

    weights[0] = Rat::of_int(0);

    assert_eq!(dot_product(&features, &weights), Rat::of_int(70));
}

#[test]
fn stick_features_use_the_odd_entries() {
    let fv = to_feature_vector(State { dealer: 1, player: 1 }, Action::Stick);
    let mut expected = vec![false; NUM_FEATURES];
    expected[1] = true;

    assert_eq!(fv, expected);
}

#[test]
fn lfa_expected_reward_is_the_dot_product() {
    let mut alg = LinearFunctionApproximator::new(
        Rat::frac(1, 2).unwrap(),
        Rat::frac(1, 100).unwrap(),
    );
    // A fresh approximator values everything at zero.
    let s = State { dealer: 1, player: 5 };
    assert_eq!(alg.get_expected_reward(s, Action::Hit), Rat::of_int(0));

    // (dealer=1, player=5, Hit) fires features 0 and 2.
    alg.weights[0] = Rat::of_int(3);
    alg.weights[2] = Rat::frac(1, 2).unwrap();
    assert_eq!(alg.get_expected_reward(s, Action::Hit), Rat::frac(7, 2).unwrap());
}

#[test]
fn lfa_step_moves_the_firing_weights() {
    let mut alg = LinearFunctionApproximator::new(Rat::of_int(0), Rat::of_int(1));
    let s = State { dealer: 1, player: 1 };
    let next = State { dealer: 1, player: 30 };

    alg.on_episode_begin();
    // reward 1, all values zero: td = 1; trace(s, Hit) = 1; step = 1, so
    // weight 0 (the only feature of (1, 1, Hit)) moves to 1.
    let back = alg.on_episode_step(s, Action::Hit, Rat::of_int(1), next, Some(Action::Hit));
    assert_eq!(back, Some(Action::Hit));
    assert_eq!(alg.weights[0], Rat::of_int(1));
    for k in 1..NUM_FEATURES {
        assert_eq!(alg.weights[k], Rat::of_int(0));
    }
}

#[test]
fn get_ranges_inside_writes_only_the_prefix() {
    let ranges = vec![(1, 5), (4, 8)];
    let mut target = vec![true, true, true, true];

    easy21::lfa::get_ranges_inside(2, &ranges, &mut target);

    // 2 lies in [1,5) but not [4,8); entries beyond the ranges are untouched.
    assert_eq!(target, vec![true, false, true, true]);
}
