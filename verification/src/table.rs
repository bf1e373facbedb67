//! Dense tables keyed by game states and state/action pairs.
//!
//! The learning algorithms keep value estimates, eligibility traces and visit
//! counters per state/action pair.  Every state a policy can be asked to
//! learn about is non-terminal, so the key space is the finite grid of
//! non-terminal states crossed with the two actions, and the maps are stored
//! densely with an implicit default (zero) for everything else — exactly the
//! "absent entries read as zero" convention of a sparse map.

use vstd::prelude::*;
use crate::game::{Action, State, MIN_SUM, spec_is_terminal};
use crate::rat::{gcd, Rat, rat_zero};

verus! {

/// Number of dealer sums a non-terminal state can show.
pub const N_DEALER: usize = 16;

/// Number of player sums a non-terminal state can hold.
pub const N_PLAYER: usize = 21;

/// Number of tracked states.
pub const N_STATES: usize = 336;

/// Number of tracked state/action pairs.
pub const N_PAIRS: usize = 672;

/// Slot of a non-terminal state in a dense per-state table.
pub open spec fn state_slot(s: State) -> int {
    (s.dealer - MIN_SUM) * (N_PLAYER as int) + (s.player - MIN_SUM)
}

/// Index of an action within a pair slot: `Hit` first.
pub open spec fn action_index(a: Action) -> int {
    match a {
        Action::Hit => 0,
        Action::Stick => 1,
    }
}

/// Slot of a state/action pair in a dense table.
pub open spec fn sa_slot(s: State, a: Action) -> int {
    state_slot(s) * 2 + action_index(a)
}

/// The state stored at a given pair slot.
pub open spec fn slot_state(j: int) -> State {
    State {
        dealer: (j / 42 + MIN_SUM as int) as i32,
        player: ((j / 2) % 21 + MIN_SUM as int) as i32,
    }
}

/// The state/action pair stored at a given pair slot.
pub open spec fn slot_pair(j: int) -> (State, Action) {
    (slot_state(j), if j % 2 == 0 {
        Action::Hit
    } else {
        Action::Stick
    })
}

/// Executable inverse of `sa_slot`: the pair stored at slot `j`.
pub fn slot_pair_at(j: usize) -> (r: (State, Action))
    requires
        j < N_PAIRS,
    ensures
        r == slot_pair(j as int),
        !spec_is_terminal(r.0),
        sa_slot(r.0, r.1) == j,
{
    let dealer: i32 = (j / 42) as i32 + MIN_SUM;
    let player: i32 = ((j / 2) % 21) as i32 + MIN_SUM;
    let action = if j % 2 == 0 {
        Action::Hit
    } else {
        Action::Stick
    };
    proof {
        let ji = j as int;
        vstd::arithmetic::div_mod::lemma_fundamental_div_mod(ji, 2);
        vstd::arithmetic::div_mod::lemma_fundamental_div_mod(ji / 2, 21);
        vstd::arithmetic::div_mod::lemma_div_denominator(ji, 2, 21);
        assert(ji / 2 / 21 == ji / 42);
        assert(ji == 2 * (21 * (ji / 42) + (ji / 2) % 21) + ji % 2);
        assert(0 <= ji % 2 < 2);
        assert(0 <= (ji / 2) % 21 < 21);
        assert(0 <= ji / 42 < 16) by (nonlinear_arith)
            requires
                ji == 2 * (21 * (ji / 42) + (ji / 2) % 21) + ji % 2,
                0 <= ji < 672,
                0 <= ji % 2 < 2,
                0 <= (ji / 2) % 21 < 21,
        ;
    }
    (State { dealer, player }, action)
}

/// Slots of non-terminal states stay inside the table bounds.
pub proof fn lemma_slot_bounds(s: State, a: Action)
    requires
        !spec_is_terminal(s),
    ensures
        0 <= state_slot(s) < N_STATES,
        0 <= sa_slot(s, a) < N_PAIRS,
{
}

/// A dense map from state/action pairs to rationals, zero by default.
pub struct SaTable {
    pub entries: Vec<Rat>,
}

impl SaTable {
    /// All entries are present and well-formed.
    pub open spec fn wf(self) -> bool {
        &&& self.entries@.len() == N_PAIRS
        &&& forall|i: int| 0 <= i < N_PAIRS ==> #[trigger] self.entries@[i].wf()
    }

    /// The stored sequence of entries, by slot.
    pub open spec fn slots(self) -> Seq<Rat> {
        self.entries@
    }

    /// The rational associated with a pair; zero outside the tracked grid.
    pub open spec fn at(self, s: State, a: Action) -> Rat {
        if !spec_is_terminal(s) {
            self.entries@[sa_slot(s, a)]
        } else {
            rat_zero()
        }
    }

    /// An empty table: every pair maps to zero.
    pub fn new() -> (t: Self)
        ensures
            t.wf(),
            t.slots() == Seq::new(N_PAIRS as nat, |j: int| rat_zero()),
            forall|i: int| 0 <= i < N_PAIRS ==> #[trigger] t.slots()[i] == rat_zero(),
            forall|s: State, a: Action| #[trigger] t.at(s, a) == rat_zero(),
    {
        proof {
            lemma_rat_zero_wf();
        }
        let mut entries: Vec<Rat> = Vec::new();
        let mut i: usize = 0;
        while i < N_PAIRS
            invariant
                entries@.len() == i,
                i <= N_PAIRS,
                forall|j: int| 0 <= j < i ==> #[trigger] entries@[j] == rat_zero(),
            decreases N_PAIRS - i,
        {
            entries.push(Rat { num: 0, den: 1 });
            i = i + 1;
        }
        proof {
            assert(entries@ =~= Seq::new(N_PAIRS as nat, |j: int| rat_zero()));
        }
        SaTable { entries }
    }

    /// Read the value of a pair (zero for untracked pairs).
    pub fn get(&self, s: State, a: Action) -> (r: Rat)
        requires
            self.wf(),
        ensures
            r == self.at(s, a),
            r.wf(),
    {
        proof {
            lemma_rat_zero_wf();
        }
        if !s.is_terminal() {
            proof {
                lemma_slot_bounds(s, a);
            }
            let idx = sa_index(s, a);
            self.entries[idx]
        } else {
            Rat { num: 0, den: 1 }
        }
    }

    /// Read a slot directly.
    pub fn get_slot(&self, i: usize) -> (r: Rat)
        requires
            self.wf(),
            i < N_PAIRS,
        ensures
            r == self.slots()[i as int],
            r.wf(),
    {
        self.entries[i]
    }

    /// Write a slot directly.
    pub fn set_slot(&mut self, i: usize, v: Rat)
        requires
            old(self).wf(),
            i < N_PAIRS,
            v.wf(),
        ensures
            final(self).wf(),
            final(self).slots() == old(self).slots().update(i as int, v),
    {
        self.entries.set(i, v);
    }

    /// Write the value of a tracked pair.
    pub fn set(&mut self, s: State, a: Action, v: Rat)
        requires
            old(self).wf(),
            !spec_is_terminal(s),
            v.wf(),
        ensures
            final(self).wf(),
            final(self).slots() == old(self).slots().update(sa_slot(s, a), v),
            final(self).at(s, a) == v,
            forall|s2: State, a2: Action| !(s2 == s && a2 == a) ==> #[trigger] final(self).at(
                s2,
                a2,
            ) == old(self).at(s2, a2),
    {
        proof {
            lemma_slot_bounds(s, a);
        }
        let idx = sa_index(s, a);
        self.entries.set(idx, v);
        proof {
            assert forall|s2: State, a2: Action| !(s2 == s && a2 == a) implies #[trigger] self.at(
                s2,
                a2,
            ) == old(self).at(s2, a2) by {
                if !spec_is_terminal(s2) {
                    lemma_slot_bounds(s2, a2);
                    assert(sa_slot(s2, a2) != sa_slot(s, a));
                }
            }
        }
    }
}

/// Executable slot computation for a tracked pair.
fn sa_index(s: State, a: Action) -> (i: usize)
    requires
        !spec_is_terminal(s),
    ensures
        i == sa_slot(s, a),
        i < N_PAIRS,
{
    proof {
        lemma_slot_bounds(s, a);
    }
    let ai: usize = match a {
        Action::Hit => 0,
        Action::Stick => 1,
    };
    (((s.dealer - MIN_SUM) as usize) * N_PLAYER + ((s.player - MIN_SUM) as usize)) * 2 + ai
}

/// The zero rational is well-formed.
pub proof fn lemma_rat_zero_wf()
    ensures
        rat_zero().wf(),
        rat_zero().num == 0,
        rat_zero().den == 1,
{
    assert(0nat % 1nat == 0nat);
    assert(gcd(0, 1) == gcd(1, 0));
}

/// A dense map from state/action pairs to visit counts, zero by default.
/// Counts saturate at `i64::MAX`, far beyond any reachable visit count, so
/// their reciprocals always exist as rationals.
pub struct SaCounts {
    pub entries: Vec<u64>,
}

impl SaCounts {
    /// All entries are present and within the saturation bound.
    pub open spec fn wf(self) -> bool {
        &&& self.entries@.len() == N_PAIRS
        &&& forall|i: int| 0 <= i < N_PAIRS ==> #[trigger] self.entries@[i] <= i64::MAX
    }

    /// The count associated with a pair; zero outside the tracked grid.
    pub open spec fn at(self, s: State, a: Action) -> u64 {
        if !spec_is_terminal(s) {
            self.entries@[sa_slot(s, a)]
        } else {
            0
        }
    }

    /// An empty counter table.
    pub fn new() -> (t: Self)
        ensures
            t.wf(),
            t.entries@ == Seq::new(N_PAIRS as nat, |j: int| 0u64),
            forall|s: State, a: Action| #[trigger] t.at(s, a) == 0,
    {
        let mut entries: Vec<u64> = Vec::new();
        let mut i: usize = 0;
        while i < N_PAIRS
            invariant
                entries@.len() == i,
                i <= N_PAIRS,
                forall|j: int| 0 <= j < i ==> #[trigger] entries@[j] == 0,
            decreases N_PAIRS - i,
        {
            entries.push(0);
            i = i + 1;
        }
        proof {
            assert(entries@ =~= Seq::new(N_PAIRS as nat, |j: int| 0u64));
        }
        SaCounts { entries }
    }

    /// Read the count of a pair.
    pub fn get(&self, s: State, a: Action) -> (r: u64)
        requires
            self.wf(),
        ensures
            r == self.at(s, a),
    {
        if !s.is_terminal() {
            proof {
                lemma_slot_bounds(s, a);
            }
            self.entries[sa_index(s, a)]
        } else {
            0
        }
    }

    /// Add one visit to a tracked pair and return the new count, which is
    /// positive and at most `i64::MAX` (the count saturates there).
    pub fn increment(&mut self, s: State, a: Action) -> (n: u64)
        requires
            old(self).wf(),
            !spec_is_terminal(s),
        ensures
            final(self).wf(),
            n == sat_inc(old(self).at(s, a)),
            1 <= n <= i64::MAX,
            final(self).at(s, a) == n,
            final(self).entries@ == old(self).entries@.update(sa_slot(s, a), n),
            forall|s2: State, a2: Action| !(s2 == s && a2 == a) ==> #[trigger] final(self).at(
                s2,
                a2,
            ) == old(self).at(s2, a2),
    {
        proof {
            lemma_slot_bounds(s, a);
        }
        let idx = sa_index(s, a);
        let c = self.entries[idx];
        let n = if c < i64::MAX as u64 {
            c + 1
        } else {
            c
        };
        self.entries.set(idx, n);
        proof {
            assert forall|s2: State, a2: Action| !(s2 == s && a2 == a) implies #[trigger] self.at(
                s2,
                a2,
            ) == old(self).at(s2, a2) by {
                if !spec_is_terminal(s2) {
                    lemma_slot_bounds(s2, a2);
                    assert(sa_slot(s2, a2) != sa_slot(s, a));
                }
            }
        }
        n
    }
}

/// One more visit, saturating at `i64::MAX`.
pub open spec fn sat_inc(c: u64) -> u64 {
    if c < i64::MAX as u64 {
        (c + 1) as u64
    } else {
        c
    }
}

/// A dense map from states to visit counts, zero by default.
pub struct StateCounts {
    pub entries: Vec<u64>,
}

impl StateCounts {
    /// All entries are present and within the saturation bound.
    pub open spec fn wf(self) -> bool {
        &&& self.entries@.len() == N_STATES
        &&& forall|i: int| 0 <= i < N_STATES ==> #[trigger] self.entries@[i] <= i64::MAX
    }

    /// The count associated with a state; zero outside the tracked grid.
    pub open spec fn at(self, s: State) -> u64 {
        if !spec_is_terminal(s) {
            self.entries@[state_slot(s)]
        } else {
            0
        }
    }

    /// An empty counter table.
    pub fn new() -> (t: Self)
        ensures
            t.wf(),
            t.entries@ == Seq::new(N_STATES as nat, |j: int| 0u64),
            forall|s: State| #[trigger] t.at(s) == 0,
    {
        let mut entries: Vec<u64> = Vec::new();
        let mut i: usize = 0;
        while i < N_STATES
            invariant
                entries@.len() == i,
                i <= N_STATES,
                forall|j: int| 0 <= j < i ==> #[trigger] entries@[j] == 0,
            decreases N_STATES - i,
        {
            entries.push(0);
            i = i + 1;
        }
        proof {
            assert(entries@ =~= Seq::new(N_STATES as nat, |j: int| 0u64));
        }
        StateCounts { entries }
    }

    /// Read the count of a state.
    pub fn get(&self, s: State) -> (r: u64)
        requires
            self.wf(),
        ensures
            r == self.at(s),
    {
        if !s.is_terminal() {
            proof {
                lemma_slot_bounds(s, Action::Hit);
            }
            self.entries[((s.dealer - MIN_SUM) as usize) * N_PLAYER + ((s.player
                - MIN_SUM) as usize)]
        } else {
            0
        }
    }

    /// Add one visit to a tracked state.
    pub fn increment(&mut self, s: State)
        requires
            old(self).wf(),
            !spec_is_terminal(s),
        ensures
            final(self).wf(),
            final(self).at(s) == sat_inc(old(self).at(s)),
            final(self).entries@ == old(self).entries@.update(state_slot(s), sat_inc(
                old(self).at(s),
            )),
            forall|s2: State| s2 != s ==> #[trigger] final(self).at(s2) == old(self).at(s2),
    {
        proof {
            lemma_slot_bounds(s, Action::Hit);
        }
        let idx = ((s.dealer - MIN_SUM) as usize) * N_PLAYER + ((s.player - MIN_SUM) as usize);
        let c = self.entries[idx];
        let n = if c < i64::MAX as u64 {
            c + 1
        } else {
            c
        };
        self.entries.set(idx, n);
        proof {
            assert forall|s2: State| s2 != s implies #[trigger] self.at(s2) == old(self).at(s2) by {
                if !spec_is_terminal(s2) {
                    lemma_slot_bounds(s2, Action::Hit);
                    assert(state_slot(s2) != state_slot(s));
                }
            }
        }
    }
}

} // verus!
