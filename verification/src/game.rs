//! The Easy21 card game environment: cards, states, and the transition rule.

use vstd::prelude::*;
use crate::rng::{rand_below, rng_from_seed};

verus! {

pub const MIN_CARD: i32 = 1;

pub const MAX_CARD: i32 = 10;

pub const MIN_SUM: i32 = 1;

pub const MAX_SUM: i32 = 21;

pub const NUM_ACTIONS: usize = 2;

pub const DEALER_STICK_MIN: i32 = 17;

/// How many dealer draws a single `Stick` resolution will perform before
/// giving up; termination of the dealer's playout cannot be promised for
/// every possible sequence of draws, so the loop carries an explicit bound
/// that no realistic playout comes near.
pub const MAX_DEALER_DRAWS: u32 = 1000000;

/// The scalar reward paid at a transition, as an exact rational.
pub type Reward = crate::rat::Rat;

/// The two moves a player can make.
#[derive(Clone, Copy, Hash, Eq, PartialEq, Structural, Debug)]
pub enum Action {
    Hit,
    Stick,
}

/// Card colors; red cards subtract their number, black cards add it.
#[derive(Clone, Copy, Hash, Eq, PartialEq, Structural, Debug)]
pub enum Color {
    Red,
    Black,
}

/// A source of cards.  Implementations must deal numbers in
/// `[MIN_CARD, MAX_CARD]`, honor a requested color, and keep a (ghost) log
/// of every card dealt, so callers can say that their results came from the
/// cards the deck produced.
pub trait Deck {
    /// Every card this deck has dealt so far, in order.
    spec fn dealt(&self) -> Seq<Card>;

    /// Deal one card of the given color.
    fn draw_color(&mut self, color: Color) -> (c: Card)
        ensures
            MIN_CARD <= c.number <= MAX_CARD,
            c.color == color,
            final(self).dealt() == old(self).dealt().push(c),
    ;

    /// Deal one card; the color is the deck's own choice (red with
    /// probability 1/3 for a fair deck).
    fn draw(&mut self) -> (c: Card)
        ensures
            MIN_CARD <= c.number <= MAX_CARD,
            final(self).dealt() == old(self).dealt().push(c),
    ;
}

/// A deck driven by a seedable pseudo-random generator.
pub struct RngDeck {
    pub rng: rand::rngs::StdRng,
    pub log: Ghost<Seq<Card>>,
}

impl RngDeck {
    /// A deck drawing from the given generator.
    pub fn new(rng: rand::rngs::StdRng) -> Self {
        RngDeck { rng, log: Ghost(Seq::empty()) }
    }

    /// A deck drawing from a generator seeded with `seed`.
    pub fn from_seed(seed: u64) -> Self {
        RngDeck { rng: rng_from_seed(seed), log: Ghost(Seq::empty()) }
    }
}

impl Deck for RngDeck {
    open spec fn dealt(&self) -> Seq<Card> {
        self.log@
    }

    fn draw_color(&mut self, color: Color) -> (c: Card)
    {
        let number = rand_below(&mut self.rng, (MAX_CARD + 1 - MIN_CARD) as u64) as i32
            + MIN_CARD;
        let card = Card::new(number, color);
        self.log = Ghost(self.log@.push(card));
        card
    }

    fn draw(&mut self) -> (c: Card)
    {
        // Red is dealt with probability 1/3, black with probability 2/3.
        let color = if rand_below(&mut self.rng, 3) == 0 {
            Color::Red
        } else {
            Color::Black
        };
        self.draw_color(color)
    }
}

/// A single playing card.
#[derive(Clone, Copy, Eq, PartialEq, Structural, Debug)]
pub struct Card {
    pub number: i32,
    pub color: Color,
}

impl Card {
    /// A card with the given face number and color.
    pub fn new(number: i32, color: Color) -> (c: Card)
        requires
            MIN_CARD <= number <= MAX_CARD,
        ensures
            c.number == number,
            c.color == color,
    {
        Card { number, color }
    }

    /// The signed value the card adds to a sum.
    pub fn value(&self) -> (v: i32)
        requires
            MIN_CARD <= self.number <= MAX_CARD,
        ensures
            v == spec_card_value(*self),
    {
        match self.color {
            Color::Red => -self.number,
            Color::Black => self.number,
        }
    }
}

/// The signed value of a card: negative for red, positive for black.
pub open spec fn spec_card_value(c: Card) -> int {
    match c.color {
        Color::Red => -c.number as int,
        Color::Black => c.number as int,
    }
}

/// The total signed value of a run of cards.
pub open spec fn sum_values(cards: Seq<Card>) -> int
    decreases cards.len(),
{
    if cards.len() == 0 {
        0
    } else {
        sum_values(cards.drop_last()) + spec_card_value(cards.last())
    }
}

/// Appending a card adds its value to the run's total.
pub proof fn lemma_sum_values_push(s: Seq<Card>, c: Card)
    ensures
        sum_values(s.push(c)) == sum_values(s) + spec_card_value(c),
{
    assert(s.push(c).drop_last() =~= s);
    assert(s.push(c).last() == c);
}

/// An observed game state: the dealer's showing sum and the player's sum.
#[derive(Clone, Copy, Hash, Eq, PartialEq, Structural, Debug)]
pub struct State {
    pub dealer: i32,
    pub player: i32,
}

/// A state is terminal when the player's sum left `[MIN_SUM, MAX_SUM]` or
/// the dealer's sum left `[MIN_SUM, DEALER_STICK_MIN)`.
pub open spec fn spec_is_terminal(s: State) -> bool {
    ||| s.player < MIN_SUM
    ||| s.player > MAX_SUM
    ||| s.dealer < MIN_SUM
    ||| s.dealer >= DEALER_STICK_MIN
}

/// The reward paid when the dealer's playout ends on `dealer` against the
/// player's sum: a dealer bust pays +1, otherwise the higher sum wins.
pub open spec fn spec_stick_reward(dealer: int, player: int) -> int {
    if dealer < MIN_SUM || dealer > MAX_SUM {
        1
    } else if dealer == player {
        0
    } else if dealer < player {
        1
    } else {
        -1
    }
}

/// The reward paid after the player hits to a new sum: -1 on a bust, else 0.
pub open spec fn spec_hit_reward(player: int) -> int {
    if player < MIN_SUM || player > MAX_SUM {
        -1
    } else {
        0
    }
}

impl State {
    /// The initial deal: one black card each for dealer and player; the
    /// sums are exactly the two dealt cards' values.
    pub fn new<T: Deck>(deck: &mut T) -> (s: Self)
        ensures
            MIN_SUM <= s.dealer <= MAX_CARD,
            MIN_SUM <= s.player <= MAX_CARD,
            !spec_is_terminal(s),
            final(deck).dealt() == old(deck).dealt().push(
                (Card { number: s.dealer, color: Color::Black }),
            ).push((Card { number: s.player, color: Color::Black })),
    {
        let dealer_card = deck.draw_color(Color::Black);
        let dealer = dealer_card.value();
        let player_card = deck.draw_color(Color::Black);
        let player = player_card.value();
        State { dealer, player }
    }

    /// Whether the episode is over in this state.
    pub fn is_terminal(&self) -> (r: bool)
        ensures
            r == spec_is_terminal(*self),
    {
        self.player < MIN_SUM || self.player > MAX_SUM || self.dealer < MIN_SUM
            || self.dealer >= DEALER_STICK_MIN
    }

    /// Apply an action.  `Hit` deals the player one card and pays -1 on a
    /// bust; `Stick` lets the dealer draw while its sum stays in
    /// `[MIN_SUM, DEALER_STICK_MIN)` and scores the showdown.  The reward is
    /// an exact function of the successor state; which successor arises
    /// depends on the cards dealt.
    pub fn step<T: Deck>(&self, deck: &mut T, action: Action) -> (r: (Self, Reward))
        requires
            -1000 <= self.dealer <= 1000,
            -1000 <= self.player <= 1000,
        ensures
            r.1.wf(),
            r.1.den == 1,
            final(deck).dealt().len() >= old(deck).dealt().len(),
            final(deck).dealt().take(old(deck).dealt().len() as int) == old(deck).dealt(),
            match action {
                Action::Hit => {
                    &&& r.0.dealer == self.dealer
                    &&& final(deck).dealt().len() == old(deck).dealt().len() + 1
                    &&& r.0.player == self.player + spec_card_value(final(deck).dealt().last())
                    &&& MIN_CARD <= iabs(r.0.player - self.player) <= MAX_CARD
                    &&& r.1.num == spec_hit_reward(r.0.player as int)
                },
                Action::Stick => {
                    &&& r.0.player == self.player
                    &&& r.0.dealer == self.dealer + sum_values(
                        final(deck).dealt().skip(old(deck).dealt().len() as int),
                    )
                    &&& (r.0.dealer == self.dealer || MIN_SUM - MAX_CARD <= r.0.dealer
                        < DEALER_STICK_MIN + MAX_CARD)
                    &&& ((self.dealer < MIN_SUM || self.dealer >= DEALER_STICK_MIN)
                        ==> r.0.dealer == self.dealer)
                    &&& ((MIN_SUM <= r.0.dealer < DEALER_STICK_MIN) ==> final(deck).dealt().len()
                        >= old(deck).dealt().len() + MAX_DEALER_DRAWS)
                    &&& (!spec_is_terminal(*self) ==> (spec_is_terminal(r.0)
                        || final(deck).dealt().len() >= old(deck).dealt().len()
                        + MAX_DEALER_DRAWS))
                    &&& r.1.num == spec_stick_reward(r.0.dealer as int, self.player as int)
                },
            },
    {
        match action {
            Action::Hit => {
                let card = deck.draw();
                let player = self.player + card.value();
                let reward: i64 = if player < MIN_SUM || player > MAX_SUM {
                    -1
                } else {
                    0
                };
                (State { dealer: self.dealer, player }, crate::rat::Rat::of_int(reward))
            },
            Action::Stick => {
                let mut dealer = self.dealer;
                let mut fuel: u32 = MAX_DEALER_DRAWS;
                let ghost base = old(deck).dealt().len() as int;
                while dealer < DEALER_STICK_MIN && dealer >= MIN_SUM && fuel > 0
                    invariant
                        dealer == self.dealer || MIN_SUM - MAX_CARD <= dealer < DEALER_STICK_MIN
                            + MAX_CARD,
                        (self.dealer < MIN_SUM || self.dealer >= DEALER_STICK_MIN) ==> dealer
                            == self.dealer,
                        -1000 <= dealer <= 1000,
                        fuel <= MAX_DEALER_DRAWS,
                        base == old(deck).dealt().len(),
                        deck.dealt().len() == base + (MAX_DEALER_DRAWS - fuel),
                        deck.dealt().take(base) == old(deck).dealt(),
                        dealer == self.dealer + sum_values(deck.dealt().skip(base)),
                    decreases fuel,
                {
                    let ghost run0 = deck.dealt().skip(base);
                    let card = deck.draw();
                    proof {
                        assert(deck.dealt().take(base) =~= old(deck).dealt());
                        assert(deck.dealt().skip(base) =~= run0.push(card));
                        lemma_sum_values_push(run0, card);
                    }
                    dealer = dealer + card.value();
                    fuel = fuel - 1;
                }
                let reward: i64 = if dealer < MIN_SUM || dealer > MAX_SUM {
                    1
                } else if dealer == self.player {
                    0
                } else if dealer < self.player {
                    1
                } else {
                    -1
                };
                (State { dealer, player: self.player }, crate::rat::Rat::of_int(reward))
            },
        }
    }
}

/// Magnitude of an integer (re-exported convenience for contracts here).
pub open spec fn iabs(i: int) -> nat {
    crate::rat::iabs(i)
}

} // verus!
