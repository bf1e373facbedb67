use easy21::game::{Action, State};
use easy21::rat::Rat;
use easy21::table::SaTable;
use easy21::util::{increment, VaryingStepSizer};

#[test]
fn test_increment_works() {
    let mut h = SaTable::new();
    let k1 = State { dealer: 1, player: 5 };
    let k2 = State { dealer: 6, player: 10 };

    increment(&mut h, k1, Action::Hit, Rat::of_int(1));
    increment(&mut h, k1, Action::Hit, Rat::frac(1, 2).unwrap());

    assert_eq!(h.get(k1, Action::Hit), Rat::frac(3, 2).unwrap());

    increment(&mut h, k2, Action::Stick, Rat::of_int(5));

    assert_eq!(h.get(k2, Action::Stick), Rat::of_int(5));
}

#[test]
fn test_varying_step_sizer_works() {
    let mut s = VaryingStepSizer::new();
    let state = State { dealer: 1, player: 1 };

    assert_eq!(s.update(state, Action::Hit), Rat::frac(1, 1).unwrap());
    assert_eq!(s.update(state, Action::Hit), Rat::frac(1, 2).unwrap());
    assert_eq!(s.update(state, Action::Hit), Rat::frac(1, 3).unwrap());
    assert_eq!(s.update(state, Action::Stick), Rat::frac(1, 1).unwrap());
}

#[test]
fn frac_normalizes() {
    let half = Rat::frac(2, 4).unwrap();
    assert_eq!(half, Rat::frac(1, 2).unwrap());
    assert_eq!(half.num, 1);
    assert_eq!(half.den, 2);

    let neg = Rat::frac(-6, 4).unwrap();
    assert_eq!(neg.num, -3);
    assert_eq!(neg.den, 2);

    assert!(Rat::frac(1, 0).is_none());
    assert!(Rat::frac(1, -2).is_none());
}

#[test]
fn arithmetic_is_exact() {
    let third = Rat::frac(1, 3).unwrap();
    let sixth = Rat::frac(1, 6).unwrap();
    assert_eq!(third.checked_add(sixth), Rat::frac(1, 2));
    assert_eq!(third.checked_sub(sixth), Rat::frac(1, 6));
    assert_eq!(third.checked_mul(sixth), Rat::frac(1, 18));
    assert!(third.lt(Rat::frac(1, 2).unwrap()));
    assert!(!third.lt(third));
}

#[test]
fn overflowing_sums_are_reported_and_kept() {
    let big = Rat::of_int(i64::MAX);
    let one = Rat::of_int(1);
    assert!(big.checked_add(one).is_none());
    assert_eq!(big.add_or_keep(one), big);
}

#[test]
fn scaled_truncates_toward_zero() {
    assert_eq!(Rat::frac(1, 3).unwrap().scaled(100), Some(33));
    assert_eq!(Rat::frac(-1, 3).unwrap().scaled(100), Some(-33));
    assert_eq!(Rat::of_int(2).scaled(100), Some(200));
    assert_eq!(Rat::of_int(0).scaled(100), Some(0));
}
