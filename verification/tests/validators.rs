use easy21::rat::Rat;
use easy21::validators;

#[test]
fn test_episodes() {
    assert!(validators::episodes(1));
    assert!(validators::episodes(100));
    assert!(!validators::episodes(0));
    assert!(!validators::episodes(-1));
}

#[test]
fn test_lambda() {
    assert!(validators::lambda(Rat::of_int(0)));
    assert!(validators::lambda(Rat::of_int(1)));
    assert!(!validators::lambda(Rat::of_int(-1)));
    assert!(!validators::lambda(Rat::frac(11, 10).unwrap()));
}

#[test]
fn test_epsilon() {
    assert!(validators::epsilon(Rat::of_int(0)));
    assert!(validators::epsilon(Rat::of_int(1)));
    assert!(!validators::epsilon(Rat::of_int(-1)));
    assert!(!validators::epsilon(Rat::frac(11, 10).unwrap()));
}

#[test]
fn test_step_size() {
    assert!(!validators::step_size(Rat::of_int(0)));
    assert!(validators::step_size(Rat::of_int(1)));
    assert!(!validators::step_size(Rat::of_int(-1)));
    assert!(validators::step_size(Rat::frac(11, 10).unwrap()));
}
