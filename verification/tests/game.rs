use easy21::game::{Action, Card, Color, Deck, RngDeck, State};

fn rng_deck() -> RngDeck {
    RngDeck::from_seed(99)
}

#[test]
fn state_new_works() {
    let s = State::new(&mut rng_deck());

    assert!(s.dealer > 0);
    assert!(s.player > 0);
}

#[test]
fn hit_eventually_ends_game() {
    let mut deck = rng_deck();
    let mut start = State::new(&mut deck);

    while !start.is_terminal() {
        start = start.step(&mut deck, Action::Hit).0;
    }
}

#[test]
fn state_is_terminal_works() {
    let mut deck = rng_deck();

    for _ in 0..300 {
        let start = State::new(&mut deck);
        let (end, _) = start.step(&mut deck, Action::Stick);

        assert!(!start.is_terminal(), "{:?} should be non-terminal", start);
        assert!(end.is_terminal(), "{:?} should be terminal", end);
    }
}

#[test]
fn card_new_works() {
    let c = Card::new(1, Color::Red);

    assert_eq!(c.number, 1);
    assert_eq!(c.color, Color::Red);
}

#[test]
fn rng_deck_draw_works() {
    let mut deck = rng_deck();

    for _ in 0..300 {
        let c = deck.draw();
        assert!(c.number >= 1 && c.number <= 10);
    }
}

#[test]
fn card_value_signs() {
    assert_eq!(Card::new(7, Color::Red).value(), -7);
    assert_eq!(Card::new(7, Color::Black).value(), 7);
}

#[test]
fn stick_reward_follows_showdown() {
    let mut deck = rng_deck();
    for _ in 0..200 {
        let start = State::new(&mut deck);
        let (end, reward) = start.step(&mut deck, Action::Stick);
        let expected: i64 = if end.dealer < 1 || end.dealer > 21 {
            1
        } else if end.dealer == start.player {
            0
        } else if end.dealer < start.player {
            1
        } else {
            -1
        };
        assert_eq!(reward, easy21::rat::Rat::of_int(expected));
    }
}
