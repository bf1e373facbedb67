//! The library's general laws, stated and proved over the same spec
//! functions the executable contracts use.

use vstd::prelude::*;
use crate::game::{Action, State, MAX_CARD, MAX_SUM, spec_is_terminal};
use crate::gpi::{varying_epsilon_den, varying_epsilon_num};
use crate::montecarlo::{mc_credit, mc_update, record_first_visit, visited_has};
use crate::rat::{add_keep, add_spec, mul_keep, mul_spec, lemma_norm_wf, rat_lt, rat_one, Rat};

use crate::sarsa::bumped_trace;
use crate::table::{lemma_slot_bounds, sa_slot, sat_inc, SaTable, N_PAIRS};
use crate::util::recip_rat;

verus! {

/// First-visit semantics: within one Monte Carlo episode, recording a
/// second visit to a pair the episode's first-visit list already holds
/// leaves the list unchanged, so the episode-end credit assignment bumps
/// each pair's lifetime visit counter at most once.
pub proof fn lemma_first_visit_once(v: Seq<(State, Action)>, s: State, a: Action)
    ensures
        record_first_visit(record_first_visit(v, s, a), s, a) == record_first_visit(v, s, a),
{
    if !spec_is_terminal(s) && !visited_has(v, s, a) {
        assert(v.push((s, a))[v.len() as int] == (s, a));
        assert(visited_has(v.push((s, a)), s, a));
    }
}

/// First-visit credit assignment touches each pair once: crediting a run
/// that holds no duplicate pairs bumps a listed pair's lifetime counter by
/// exactly one (not once per visit) and applies exactly one sample-average
/// value update to it, while unlisted pairs keep their counter and value.
pub proof fn lemma_mc_credit_once(
    values: Seq<Rat>,
    counts: Seq<u64>,
    visited: Seq<(State, Action)>,
    total: Rat,
    k: int,
    s: State,
    a: Action,
)
    requires
        0 <= k <= visited.len(),
        counts.len() == N_PAIRS,
        values.len() == N_PAIRS,
        !spec_is_terminal(s),
        forall|i: int, j: int| 0 <= i < j < visited.len() ==> visited[i] != visited[j],
        forall|i: int| 0 <= i < visited.len() ==> !spec_is_terminal((#[trigger] visited[i]).0),
    ensures
        ({
            let credited = mc_credit(values, counts, visited, total, k);
            let slot = sa_slot(s, a);
            &&& credited.0.len() == N_PAIRS
            &&& credited.1.len() == N_PAIRS
            &&& (exists|i: int| 0 <= i < k && #[trigger] visited[i] == (s, a)) ==> {
                &&& credited.1[slot] == sat_inc(counts[slot])
                &&& credited.0[slot] == mc_update(values[slot], total, sat_inc(counts[slot]))
            }
            &&& !(exists|i: int| 0 <= i < k && #[trigger] visited[i] == (s, a)) ==> {
                &&& credited.1[slot] == counts[slot]
                &&& credited.0[slot] == values[slot]
            }
        }),
    decreases k,
{
    lemma_slot_bounds(s, a);
    if k > 0 {
        lemma_mc_credit_once(values, counts, visited, total, k - 1, s, a);
        let p = visited[k - 1];
        lemma_slot_bounds(p.0, p.1);
        let slot = sa_slot(s, a);
        if p == (s, a) {
            assert(!(exists|i: int| 0 <= i < k - 1 && #[trigger] visited[i] == (s, a))) by {
                if exists|i: int| 0 <= i < k - 1 && #[trigger] visited[i] == (s, a) {
                    let i = choose|i: int| 0 <= i < k - 1 && #[trigger] visited[i] == (s, a);
                    assert(visited[i] != visited[k - 1]);
                }
            }
            assert(exists|i: int| 0 <= i < k && #[trigger] visited[i] == (s, a)) by {
                assert(visited[k - 1] == (s, a));
            }
        } else {
            assert(sa_slot(p.0, p.1) != slot);
            assert((exists|i: int| 0 <= i < k && #[trigger] visited[i] == (s, a)) == (exists|
                i: int,
            |
                0 <= i < k - 1 && #[trigger] visited[i] == (s, a))) by {
                if exists|i: int| 0 <= i < k && #[trigger] visited[i] == (s, a) {
                    let i = choose|i: int| 0 <= i < k && #[trigger] visited[i] == (s, a);
                    assert(i != k - 1);
                    assert(0 <= i < k - 1 && visited[i] == (s, a));
                }
            }
        }
    }
}

/// Step-size decay: the sample-average step size after the n-th visit to a
/// pair is exactly `1/n`, so successive visits yield `1, 1/2, 1/3, ...`,
/// and each step size is strictly smaller than the one before it.
pub proof fn lemma_step_size_decay(n: u64)
    requires
        n < i64::MAX as u64,
    ensures
        recip_rat(sat_inc(n)) == (Rat { num: 1, den: (n + 1) as i64 }),
        n >= 1 ==> rat_lt(recip_rat(sat_inc(n)), recip_rat(n)),
{
}

/// Trace decay, untouched pairs: an episode step multiplies the trace of
/// every pair other than the one just visited by exactly `lambda` (stated
/// by cross multiplication; the precondition keeps the product
/// representable).
pub proof fn lemma_trace_decay(tr: SaTable, s: State, a: Action, s2: State, a2: Action, lambda: Rat)
    requires
        tr.wf(),
        lambda.wf(),
        !spec_is_terminal(s2),
        !(s2 == s && a2 == a),
        mul_spec(tr.at(s2, a2), lambda) is Some,
    ensures
        ({
            let t = tr.at(s2, a2);
            let nt = mul_keep(bumped_trace(tr, s, a, s2, a2), lambda);
            &&& nt.num * (t.den * lambda.den) == (t.num * lambda.num) * nt.den
            &&& forall|x: Rat|
                x.wf() && #[trigger] (x.num * (t.den * lambda.den)) == (t.num * lambda.num)
                    * x.den ==> x == nt
        }),
{
    let t = tr.at(s2, a2);
    crate::table::lemma_slot_bounds(s2, a2);
    assert(t.wf());
    assert(bumped_trace(tr, s, a, s2, a2) == t);
    assert(t.den * lambda.den >= 1) by (nonlinear_arith)
        requires
            t.den >= 1,
            lambda.den >= 1,
    ;
    lemma_norm_wf(t.num * lambda.num, t.den * lambda.den);
    let nt = mul_keep(bumped_trace(tr, s, a, s2, a2), lambda);
    let dd = t.den * lambda.den;
    let nn = t.num * lambda.num;
    assert forall|x: Rat| x.wf() && #[trigger] (x.num * dd) == nn * x.den implies x == nt by {
        assert(x.num * nt.den == nt.num * x.den) by (nonlinear_arith)
            requires
                x.num * dd == nn * x.den,
                nt.num * dd == nn * nt.den,
                dd >= 1,
        ;
        crate::rat::lemma_canonical_unique(x, nt);
    }
}

/// Trace decay, the visited pair: its trace is first incremented by one
/// exactly, and the decay then applies to the incremented value (again
/// stated by cross multiplication, for representable intermediates).
pub proof fn lemma_trace_bump_then_decay(tr: SaTable, s: State, a: Action, lambda: Rat)
    requires
        tr.wf(),
        lambda.wf(),
        !spec_is_terminal(s),
        add_spec(tr.at(s, a), rat_one()) is Some,
        mul_spec(add_keep(tr.at(s, a), rat_one()), lambda) is Some,
    ensures
        ({
            let t = tr.at(s, a);
            let b = add_keep(t, rat_one());
            let nt = mul_keep(bumped_trace(tr, s, a, s, a), lambda);
            &&& b.num * t.den == (t.num + t.den) * b.den
            &&& nt.num * (b.den * lambda.den) == (b.num * lambda.num) * nt.den
        }),
{
    let t = tr.at(s, a);
    crate::table::lemma_slot_bounds(s, a);
    assert(t.wf());
    assert(t.den * 1 >= 1) by (nonlinear_arith)
        requires
            t.den >= 1,
    ;
    lemma_norm_wf(t.num * 1 + 1 * t.den, t.den * 1);
    let b = add_keep(t, rat_one());
    assert(bumped_trace(tr, s, a, s, a) == b);
    assert(b.den * lambda.den >= 1) by (nonlinear_arith)
        requires
            b.den >= 1,
            lambda.den >= 1,
    ;
    lemma_norm_wf(b.num * lambda.num, b.den * lambda.den);
}

/// Exploration monotonicity: under the varying mode the exploration rate
/// `N0 / (N0 + visits)` strictly decreases as the visit count grows
/// (compared by cross multiplication).
pub proof fn lemma_exploration_monotonic(v1: u64, v2: u64)
    requires
        v1 < v2,
    ensures
        varying_epsilon_num(v2) * varying_epsilon_den(v1) < varying_epsilon_num(v1)
            * varying_epsilon_den(v2),
{
    assert(100 * (100 + v1 as int) < 100 * (100 + v2 as int)) by (nonlinear_arith)
        requires
            v1 < v2,
    ;
}

/// The player's sum after dealing a sequence of signed card values, one
/// hit at a time.
pub open spec fn player_after(p: int, draws: Seq<int>) -> int
    decreases draws.len(),
{
    if draws.len() == 0 {
        p
    } else {
        player_after(p + draws[0], draws.drop_first())
    }
}

/// Every draw worth at least one point pushes the sum up by at least one.
proof fn lemma_player_after_lower(p: int, draws: Seq<int>)
    requires
        forall|i: int| 0 <= i < draws.len() ==> #[trigger] draws[i] >= 1,
    ensures
        player_after(p, draws) >= p + draws.len(),
    decreases draws.len(),
{
    if draws.len() > 0 {
        assert(forall|i: int| 0 <= i < draws.drop_first().len()
            ==> #[trigger] draws.drop_first()[i] >= 1);
        lemma_player_after_lower(p + draws[0], draws.drop_first());
    }
}

/// Terminal convergence: from any non-terminal state, hitting `MAX_SUM`
/// times with black cards (every draw adds at least one point) drives the
/// player's sum past `MAX_SUM`, so the episode has reached a terminal state
/// within that many steps.  With red cards in play the sum can fall back
/// into range, so no bound holds for arbitrary decks.
pub proof fn lemma_hitting_terminates(s: State, draws: Seq<int>)
    requires
        !spec_is_terminal(s),
        draws.len() == MAX_SUM as nat,
        forall|i: int| 0 <= i < draws.len() ==> 1 <= #[trigger] draws[i] <= MAX_CARD,
    ensures
        player_after(s.player as int, draws) > MAX_SUM,
        spec_is_terminal(
            State { dealer: s.dealer, player: player_after(s.player as int, draws) as i32 },
        ),
{
    lemma_player_after_lower(s.player as int, draws);
    lemma_player_after_upper(s.player as int, draws);
}

/// The sum after a sequence of draws is bounded by ten points per draw.
proof fn lemma_player_after_upper(p: int, draws: Seq<int>)
    requires
        forall|i: int| 0 <= i < draws.len() ==> #[trigger] draws[i] <= MAX_CARD,
    ensures
        player_after(p, draws) <= p + draws.len() * MAX_CARD,
    decreases draws.len(),
{
    if draws.len() > 0 {
        assert(forall|i: int| 0 <= i < draws.drop_first().len()
            ==> #[trigger] draws.drop_first()[i] <= MAX_CARD);
        lemma_player_after_upper(p + draws[0], draws.drop_first());
        assert(draws.len() * MAX_CARD == (draws.len() - 1) * MAX_CARD + MAX_CARD)
            by (nonlinear_arith);
    }
}

} // verus!
