//! Exact rational arithmetic on `i64` numerator/denominator pairs.
//!
//! Every scalar the learning algorithms manipulate (rewards, value estimates,
//! eligibility traces, step sizes, hyperparameters) is a `Rat`: a fraction in
//! lowest terms with a positive denominator.  The arithmetic operations are
//! checked: they return the exact, normalized result whenever it fits in the
//! `i64` representation, and report failure otherwise, so callers can state
//! exactly what happens in either case.

use vstd::prelude::*;
use vstd::arithmetic::div_mod::{
    lemma_div_multiples_vanish, lemma_fundamental_div_mod,
};

verus! {

/// Greatest common divisor by Euclid's algorithm; `gcd(0, 0) == 0`.
pub open spec fn gcd(a: nat, b: nat) -> nat
    decreases b,
{
    if b == 0 {
        a
    } else {
        gcd(b, a % b)
    }
}

/// `d` divides `a` over the natural numbers.
pub open spec fn divides(d: nat, a: nat) -> bool {
    exists|k: nat| a == #[trigger] (d * k)
}

/// Magnitude of an integer.
pub open spec fn iabs(i: int) -> nat {
    if i >= 0 {
        i as nat
    } else {
        (-i) as nat
    }
}

/// The gcd of two numbers divides both, and is positive unless both are zero.
pub proof fn lemma_gcd_divides(a: nat, b: nat)
    ensures
        divides(gcd(a, b), a),
        divides(gcd(a, b), b),
        gcd(a, b) == 0 ==> a == 0 && b == 0,
    decreases b,
{
    if b == 0 {
        assert(a == gcd(a, b) * 1);
        assert(b == gcd(a, b) * 0);
    } else {
        lemma_gcd_divides(b, a % b);
        let g = gcd(b, a % b);
        assert(gcd(a, b) == g);
        let k1 = choose|k: nat| b == #[trigger] (g * k);
        let k2 = choose|k: nat| (a % b) == #[trigger] (g * k);
        lemma_fundamental_div_mod(a as int, b as int);
        let q = a as int / b as int;
        assert(q >= 0) by {
            vstd::arithmetic::div_mod::lemma_div_pos_is_pos(a as int, b as int);
        }
        assert(a == b * q + a % b);
        assert(a == g * (k1 * q + k2)) by (nonlinear_arith)
            requires
                a == b * q + a % b,
                b == g * k1,
                a % b == g * k2,
        ;
        assert(divides(g, a)) by {
            assert(a == g * ((k1 * q + k2) as nat));
        }
    }
}

/// Any common divisor of `a` and `b` divides their gcd.
pub proof fn lemma_gcd_greatest(a: nat, b: nat, c: nat)
    requires
        c > 0,
        divides(c, a),
        divides(c, b),
    ensures
        divides(c, gcd(a, b)),
    decreases b,
{
    if b == 0 {
    } else {
        let j1 = choose|k: nat| a == #[trigger] (c * k);
        let j2 = choose|k: nat| b == #[trigger] (c * k);
        lemma_fundamental_div_mod(a as int, b as int);
        let q = a as int / b as int;
        let k = j1 - j2 * q;
        assert(a % b == c * k) by (nonlinear_arith)
            requires
                a == b * q + a % b,
                a == c * j1,
                b == c * j2,
                k == j1 - j2 * q,
        ;
        assert(k >= 0) by (nonlinear_arith)
            requires
                a % b == c * k,
                a % b >= 0,
                c > 0,
        ;
        assert(a % b == c * (k as nat));
        lemma_gcd_greatest(b, a % b, c);
    }
}

/// Dividing two numbers by their gcd leaves a coprime pair, and the division
/// is exact.
pub proof fn lemma_gcd_reduce(a: nat, b: nat)
    requires
        b > 0,
    ensures
        ({
            let g = gcd(a, b);
            &&& g > 0
            &&& a == g * (a as int / g as int)
            &&& b == g * (b as int / g as int)
            &&& b as int / g as int >= 1
            &&& gcd((a as int / g as int) as nat, (b as int / g as int) as nat) == 1
        }),
{
    let g = gcd(a, b);
    lemma_gcd_divides(a, b);
    let ka = choose|k: nat| a == #[trigger] (g * k);
    let kb = choose|k: nat| b == #[trigger] (g * k);
    lemma_div_multiples_vanish(ka as int, g as int);
    lemma_div_multiples_vanish(kb as int, g as int);
    assert(a as int / g as int == ka);
    assert(b as int / g as int == kb);
    assert(kb >= 1) by (nonlinear_arith)
        requires
            b == g * kb,
            b > 0,
    ;
    let c = gcd(ka, kb);
    lemma_gcd_divides(ka, kb);
    assert(c > 0);
    let m1 = choose|k: nat| ka == #[trigger] (c * k);
    let m2 = choose|k: nat| kb == #[trigger] (c * k);
    assert(a == (c * g) * m1) by (nonlinear_arith)
        requires
            a == g * ka,
            ka == c * m1,
    ;
    assert(b == (c * g) * m2) by (nonlinear_arith)
        requires
            b == g * kb,
            kb == c * m2,
    ;
    assert(divides(c * g, a));
    assert(divides(c * g, b));
    lemma_gcd_greatest(a, b, c * g);
    let m3 = choose|k: nat| g == #[trigger] ((c * g) * k);
    assert(c == 1) by (nonlinear_arith)
        requires
            g == (c * g) * m3,
            g > 0,
            c > 0,
    ;
}

/// The gcd of 1 and any number is 1, as is the gcd of any positive number
/// with itself divided out.
pub proof fn lemma_gcd_one(n: nat)
    ensures
        gcd(1, n) == 1,
    decreases n,
{
    if n == 0 {
    } else if n == 1 {
        assert(1nat % 1nat == 0nat);
        assert(gcd(1, 1) == gcd(1, 0));
    } else {
        vstd::arithmetic::div_mod::lemma_small_mod(1, n);
        assert(1nat % n == 1nat);
        assert(gcd(1, n) == gcd(n, 1));
        assert(n % 1nat == 0nat);
        assert(gcd(n, 1) == gcd(1, 0));
    }
}

/// The gcd scales with a common factor: `gcd(k*a, k*b) == k * gcd(a, b)`.
proof fn lemma_gcd_scale(k: nat, a: nat, b: nat)
    requires
        k > 0,
    ensures
        gcd(k * a, k * b) == k * gcd(a, b),
    decreases b,
{
    if b == 0 {
        assert(k * b == 0) by (nonlinear_arith)
            requires
                b == 0,
        ;
    } else {
        assert(k * b > 0) by (nonlinear_arith)
            requires
                k > 0,
                b > 0,
        ;
        vstd::arithmetic::div_mod::lemma_truncate_middle(a as int, k as int, b as int);
        assert((k * a) % (k * b) == k * (a % b));
        lemma_gcd_scale(k, b, a % b);
        assert(gcd(k * a, k * b) == gcd(k * b, (k * a) % (k * b)));
    }
}

/// An exact rational number: `num / den`, kept in lowest terms with
/// `den >= 1`.  Values should be built with [`Rat::of_int`], [`Rat::frac`] or
/// the arithmetic operations, all of which establish [`Rat::wf`].
#[derive(Clone, Copy, Debug, PartialEq, Eq, Structural)]
pub struct Rat {
    pub num: i64,
    pub den: i64,
}

impl Rat {
    /// Well-formed: in lowest terms, positive denominator, and the numerator
    /// magnitude symmetric around zero so negation never overflows.
    pub open spec fn wf(self) -> bool {
        &&& 1 <= self.den <= i64::MAX
        &&& -i64::MAX <= self.num <= i64::MAX
        &&& gcd(iabs(self.num as int), self.den as nat) == 1
    }
}

/// The value zero, in canonical form.
pub open spec fn rat_zero() -> Rat {
    Rat { num: 0, den: 1 }
}

/// `a < b` as rational numbers (cross multiplication; denominators positive).
pub open spec fn rat_lt(a: Rat, b: Rat) -> bool {
    a.num * b.den < b.num * a.den
}

/// `a <= b` as rational numbers.
pub open spec fn rat_le(a: Rat, b: Rat) -> bool {
    a.num * b.den <= b.num * a.den
}

/// The gcd used to bring the fraction `n / d` into lowest terms.
pub open spec fn norm_gcd(n: int, d: int) -> int {
    gcd(iabs(n), iabs(d)) as int
}

/// Numerator of `n / d` in lowest terms (for `d >= 1`).
pub open spec fn norm_num(n: int, d: int) -> int {
    n / norm_gcd(n, d)
}

/// Denominator of `n / d` in lowest terms (for `d >= 1`).
pub open spec fn norm_den(n: int, d: int) -> int {
    d / norm_gcd(n, d)
}

/// Whether the canonical form of `n / d` fits the `i64` representation.
pub open spec fn rat_fits(n: int, d: int) -> bool {
    &&& -(i64::MAX as int) <= norm_num(n, d) <= i64::MAX as int
    &&& norm_den(n, d) <= i64::MAX as int
}

/// The canonical `Rat` representing `n / d` (meaningful when it fits).
pub open spec fn norm_rat(n: int, d: int) -> Rat {
    Rat { num: norm_num(n, d) as i64, den: norm_den(n, d) as i64 }
}

/// Properties of the canonical form of `n / d` for `d >= 1`: the reduction is
/// exact, coprime, keeps the sign of `n`, and represents the same rational
/// (`norm_num * d == n * norm_den`).
pub proof fn lemma_norm(n: int, d: int)
    requires
        d >= 1,
    ensures
        norm_gcd(n, d) >= 1,
        n == norm_gcd(n, d) * norm_num(n, d),
        d == norm_gcd(n, d) * norm_den(n, d),
        norm_den(n, d) >= 1,
        gcd(iabs(norm_num(n, d)), norm_den(n, d) as nat) == 1,
        norm_num(n, d) * d == n * norm_den(n, d),
        iabs(norm_num(n, d)) == iabs(n) as int / norm_gcd(n, d),
        n >= 0 <==> norm_num(n, d) >= 0,
{
    let a = iabs(n);
    let b = iabs(d);
    assert(b == d);
    let g = gcd(a, b);
    lemma_gcd_reduce(a, b);
    let ra = a as int / g as int;
    let rb = b as int / g as int;
    assert(a == g * ra && b == g * rb && rb >= 1 && g >= 1);
    assert(gcd(ra as nat, rb as nat) == 1);
    assert(norm_den(n, d) == rb);
    if n >= 0 {
        assert(norm_num(n, d) == ra);
        assert(iabs(norm_num(n, d)) == ra);
    } else {
        assert(n == g * (-ra)) by (nonlinear_arith)
            requires
                a == g * ra,
                n == -a,
        ;
        lemma_div_multiples_vanish(-ra, g as int);
        assert(norm_num(n, d) == -ra);
        assert(ra > 0) by (nonlinear_arith)
            requires
                a == g * ra,
                a > 0,
        ;
        assert(iabs(norm_num(n, d)) == ra);
    }
    assert(norm_num(n, d) * d == n * norm_den(n, d)) by (nonlinear_arith)
        requires
            n == norm_gcd(n, d) * norm_num(n, d),
            d == norm_gcd(n, d) * norm_den(n, d),
    ;
}

/// A well-formed rational is already in canonical form.
pub proof fn lemma_wf_is_norm(r: Rat)
    requires
        r.wf(),
    ensures
        norm_gcd(r.num as int, r.den as int) == 1,
        norm_rat(r.num as int, r.den as int) == r,
        rat_fits(r.num as int, r.den as int),
{
    lemma_norm(r.num as int, r.den as int);
    assert(r.num as int / 1int == r.num as int) by {
        lemma_div_multiples_vanish(r.num as int, 1int);
        assert(1int * r.num == r.num);
    }
    assert(r.den as int / 1int == r.den as int) by {
        lemma_div_multiples_vanish(r.den as int, 1int);
        assert(1int * r.den == r.den);
    }
}

/// Exact numerator of the sum `a + b` over the common denominator.
pub open spec fn add_num(a: Rat, b: Rat) -> int {
    a.num * b.den + b.num * a.den
}

/// Exact numerator of the difference `a - b` over the common denominator.
pub open spec fn sub_num(a: Rat, b: Rat) -> int {
    a.num * b.den - b.num * a.den
}

/// The common denominator `a.den * b.den`.
pub open spec fn common_den(a: Rat, b: Rat) -> int {
    a.den * b.den
}

/// Checked sum: the canonical result when it fits, `None` otherwise.
pub open spec fn add_spec(a: Rat, b: Rat) -> Option<Rat> {
    if rat_fits(add_num(a, b), common_den(a, b)) {
        Some(norm_rat(add_num(a, b), common_den(a, b)))
    } else {
        None
    }
}

/// Checked difference: the canonical result when it fits, `None` otherwise.
pub open spec fn sub_spec(a: Rat, b: Rat) -> Option<Rat> {
    if rat_fits(sub_num(a, b), common_den(a, b)) {
        Some(norm_rat(sub_num(a, b), common_den(a, b)))
    } else {
        None
    }
}

/// Checked product: the canonical result when it fits, `None` otherwise.
pub open spec fn mul_spec(a: Rat, b: Rat) -> Option<Rat> {
    if rat_fits(a.num * b.num, common_den(a, b)) {
        Some(norm_rat(a.num * b.num, common_den(a, b)))
    } else {
        None
    }
}

/// The sum when it is representable, the left operand unchanged otherwise.
pub open spec fn add_keep(a: Rat, b: Rat) -> Rat {
    match add_spec(a, b) {
        Some(r) => r,
        None => a,
    }
}

/// The difference when it is representable, the left operand unchanged
/// otherwise.
pub open spec fn sub_keep(a: Rat, b: Rat) -> Rat {
    match sub_spec(a, b) {
        Some(r) => r,
        None => a,
    }
}

/// The value one, in canonical form.
pub open spec fn rat_one() -> Rat {
    Rat { num: 1, den: 1 }
}

/// The product when it is representable, the left operand unchanged otherwise.
pub open spec fn mul_keep(a: Rat, b: Rat) -> Rat {
    match mul_spec(a, b) {
        Some(r) => r,
        None => a,
    }
}

/// Euclid's algorithm on machine words.
fn gcd_u128(a: u128, b: u128) -> (r: u128)
    ensures
        r == gcd(a as nat, b as nat),
{
    let mut x = a;
    let mut y = b;
    while y != 0
        invariant
            gcd(x as nat, y as nat) == gcd(a as nat, b as nat),
        decreases y,
    {
        let t = x % y;
        x = y;
        y = t;
    }
    x
}

/// Bring the fraction `n / d` into canonical form, reporting `None` when the
/// reduced numerator or denominator does not fit.
fn normalize(n: i128, d: i128) -> (r: Option<Rat>)
    requires
        1 <= d,
        -0x7fff_ffff_ffff_ffff_ffff_ffff_ffff_ffff <= n,
    ensures
        r == (if rat_fits(n as int, d as int) {
            Some(norm_rat(n as int, d as int))
        } else {
            None
        }),
{
    proof {
        lemma_norm(n as int, d as int);
    }
    let neg = n < 0;
    let un: u128 = if neg {
        (-n) as u128
    } else {
        n as u128
    };
    let ud: u128 = d as u128;
    assert(un == iabs(n as int));
    assert(ud == iabs(d as int));
    let g = gcd_u128(un, ud);
    assert(g >= 1) by {
        lemma_gcd_divides(un as nat, ud as nat);
    }
    let rn = un / g;
    let rd = ud / g;
    assert(rn == iabs(norm_num(n as int, d as int)));
    assert(rd == norm_den(n as int, d as int));
    if rn <= i64::MAX as u128 && rd <= i64::MAX as u128 {
        let num: i64 = if neg {
            -(rn as i64)
        } else {
            rn as i64
        };
        assert(num == norm_num(n as int, d as int));
        Some(Rat { num, den: rd as i64 })
    } else {
        assert(!rat_fits(n as int, d as int));
        None
    }
}

impl Rat {
    /// The integer `i` as a rational.
    pub fn of_int(i: i64) -> (r: Rat)
        requires
            -i64::MAX <= i,
        ensures
            r == (Rat { num: i, den: 1 }),
            r.wf(),
    {
        proof {
            lemma_gcd_one(iabs(i as int));
            lemma_gcd_flip(iabs(i as int));
        }
        Rat { num: i, den: 1 }
    }

    /// The fraction `num / den` in lowest terms; `None` when `den < 1` or the
    /// reduced form does not fit.
    pub fn frac(num: i64, den: i64) -> (r: Option<Rat>)
        ensures
            r == (if den >= 1 && rat_fits(num as int, den as int) {
                Some(norm_rat(num as int, den as int))
            } else {
                None::<Rat>
            }),
            r is Some ==> r->0.wf(),
    {
        if den < 1 {
            return None;
        }
        proof {
            if rat_fits(num as int, den as int) {
                lemma_norm_wf(num as int, den as int);
            }
        }
        normalize(num as i128, den as i128)
    }

    /// The reciprocal `1 / n` of a positive count.
    pub fn recip(n: u64) -> (r: Rat)
        requires
            1 <= n <= i64::MAX,
        ensures
            r == (Rat { num: 1, den: n as i64 }),
            r.wf(),
    {
        proof {
            lemma_gcd_one(n as nat);
        }
        Rat { num: 1, den: n as i64 }
    }

    /// Exact negation.
    pub fn neg(self) -> (r: Rat)
        requires
            self.wf(),
        ensures
            r == (Rat { num: (-self.num) as i64, den: self.den }),
            r.wf(),
    {
        assert(iabs(-self.num as int) == iabs(self.num as int));
        Rat { num: -self.num, den: self.den }
    }

    /// Checked addition; exact canonical result or `None` on overflow.
    pub fn checked_add(self, other: Rat) -> (r: Option<Rat>)
        requires
            self.wf(),
            other.wf(),
        ensures
            r == add_spec(self, other),
            r is Some ==> r->0.wf(),
    {
        proof {
            lemma_mul_i64_range(self.num as int, other.den as int);
            lemma_mul_i64_range(other.num as int, self.den as int);
            lemma_mul_i64_range(self.den as int, other.den as int);
        }
        let n1: i128 = (self.num as i128) * (other.den as i128);
        let n2: i128 = (other.num as i128) * (self.den as i128);
        let n: i128 = n1 + n2;
        let d: i128 = (self.den as i128) * (other.den as i128);
        proof {
            assert(d >= 1) by (nonlinear_arith)
                requires
                    self.den >= 1,
                    other.den >= 1,
                    d == (self.den as i128) * (other.den as i128),
            ;
            if rat_fits(add_num(self, other), common_den(self, other)) {
                lemma_norm_wf(add_num(self, other), common_den(self, other));
            }
        }
        normalize(n, d)
    }

    /// Checked subtraction; exact canonical result or `None` on overflow.
    pub fn checked_sub(self, other: Rat) -> (r: Option<Rat>)
        requires
            self.wf(),
            other.wf(),
        ensures
            r == sub_spec(self, other),
            r is Some ==> r->0.wf(),
    {
        let nb = other.neg();
        let res = self.checked_add(nb);
        proof {
            assert(self.num * nb.den + nb.num * self.den == self.num * other.den - other.num
                * self.den) by (nonlinear_arith)
                requires
                    nb.num == -(other.num as int),
                    nb.den == other.den,
            ;
            assert(add_num(self, nb) == sub_num(self, other));
            assert(common_den(self, nb) == common_den(self, other));
        }
        res
    }

    /// Checked multiplication; exact canonical result or `None` on overflow.
    pub fn checked_mul(self, other: Rat) -> (r: Option<Rat>)
        requires
            self.wf(),
            other.wf(),
        ensures
            r == mul_spec(self, other),
            r is Some ==> r->0.wf(),
    {
        proof {
            lemma_mul_i64_range(self.num as int, other.num as int);
            lemma_mul_i64_range(self.den as int, other.den as int);
        }
        let n: i128 = (self.num as i128) * (other.num as i128);
        let d: i128 = (self.den as i128) * (other.den as i128);
        proof {
            assert(d >= 1) by (nonlinear_arith)
                requires
                    self.den >= 1,
                    other.den >= 1,
                    d == (self.den as i128) * (other.den as i128),
            ;
            if rat_fits(self.num * other.num, common_den(self, other)) {
                lemma_norm_wf(self.num * other.num, common_den(self, other));
            }
        }
        normalize(n, d)
    }

    /// The sum, or `self` unchanged when the sum is not representable.
    pub fn add_or_keep(self, other: Rat) -> (r: Rat)
        requires
            self.wf(),
            other.wf(),
        ensures
            r == add_keep(self, other),
            r.wf(),
    {
        match self.checked_add(other) {
            Some(v) => v,
            None => self,
        }
    }

    /// The difference, or `self` unchanged when it is not representable.
    pub fn sub_or_keep(self, other: Rat) -> (r: Rat)
        requires
            self.wf(),
            other.wf(),
        ensures
            r == sub_keep(self, other),
            r.wf(),
    {
        match self.checked_sub(other) {
            Some(v) => v,
            None => self,
        }
    }

    /// The product, or `self` unchanged when it is not representable.
    pub fn mul_or_keep(self, other: Rat) -> (r: Rat)
        requires
            self.wf(),
            other.wf(),
        ensures
            r == mul_keep(self, other),
            r.wf(),
    {
        match self.checked_mul(other) {
            Some(v) => v,
            None => self,
        }
    }

    /// The integer part of `self * factor`, truncated toward zero;
    /// `None` when it does not fit an `i64`.
    pub fn scaled(self, factor: i64) -> (r: Option<i64>)
        requires
            self.wf(),
            -i64::MAX <= factor,
        ensures
            r == scaled_spec(self, factor),
    {
        proof {
            lemma_mul_i64_range(self.num as int, factor as int);
        }
        let t: i128 = (self.num as i128) * (factor as i128);
        let neg = t < 0;
        let m: u128 = if neg {
            (-t) as u128
        } else {
            t as u128
        };
        let q: u128 = m / (self.den as u128);
        proof {
            let ti = t as int;
            let d = self.den as int;
            if neg {
                assert(m == -ti);
                assert(q == (-ti) / d);
                vstd::arithmetic::div_mod::lemma_div_pos_is_pos(-ti, d);
            } else {
                assert(m == ti);
                assert(q == ti / d);
                vstd::arithmetic::div_mod::lemma_div_pos_is_pos(ti, d);
            }
        }
        if q <= i64::MAX as u128 {
            Some(
                if neg {
                    -(q as i64)
                } else {
                    q as i64
                },
            )
        } else {
            None
        }
    }

    /// Strict comparison of rational values.
    pub fn lt(self, other: Rat) -> (r: bool)
        requires
            self.wf(),
            other.wf(),
        ensures
            r == rat_lt(self, other),
    {
        proof {
            lemma_mul_i64_range(self.num as int, other.den as int);
            lemma_mul_i64_range(other.num as int, self.den as int);
        }
        (self.num as i128) * (other.den as i128) < (other.num as i128) * (self.den as i128)
    }

    /// Whether this rational is exactly zero.
    pub fn is_zero(self) -> (r: bool)
        requires
            self.wf(),
        ensures
            r == (self == rat_zero()),
    {
        proof {
            if self.num == 0 {
                vstd::arithmetic::div_mod::lemma_small_mod(0, self.den as nat);
                assert(gcd(0, self.den as nat) == gcd(self.den as nat, 0));
            }
        }
        self.num == 0
    }
}

/// A canonical form that fits is a well-formed rational.
pub proof fn lemma_norm_wf(n: int, d: int)
    requires
        d >= 1,
        rat_fits(n, d),
    ensures
        norm_rat(n, d).wf(),
        norm_rat(n, d).num * d == n * norm_rat(n, d).den,
{
    lemma_norm(n, d);
}

/// The integer part of `v * factor`, truncated toward zero, when it fits
/// an `i64`.
pub open spec fn scaled_spec(v: Rat, factor: i64) -> Option<i64> {
    let t = v.num * factor;
    let q = if t >= 0 {
        t / (v.den as int)
    } else {
        -((-t) / (v.den as int))
    };
    if -(i64::MAX as int) <= q <= i64::MAX as int {
        Some(q as i64)
    } else {
        None
    }
}

/// Lowest terms are unique: two well-formed rationals that represent the
/// same value (by cross multiplication) are the same pair, so a contract
/// that gives a result's ratio and well-formedness pins it completely.
pub proof fn lemma_canonical_unique(a: Rat, b: Rat)
    requires
        a.wf(),
        b.wf(),
        a.num * b.den == b.num * a.den,
    ensures
        a == b,
{
    let an = iabs(a.num as int);
    let ad = a.den as nat;
    let bn = iabs(b.num as int);
    let bd = b.den as nat;
    if a.num == 0 {
        assert(b.num == 0) by (nonlinear_arith)
            requires
                a.num == 0,
                a.num * b.den == b.num * a.den,
                a.den >= 1,
        ;
        lemma_small_mod_zero(ad);
        lemma_small_mod_zero(bd);
        assert(gcd(0, ad) == gcd(ad, 0));
        assert(gcd(0, bd) == gcd(bd, 0));
    } else {
        assert((a.num > 0) == (b.num > 0) && b.num != 0) by (nonlinear_arith)
            requires
                a.num != 0,
                a.num * b.den == b.num * a.den,
                a.den >= 1,
                b.den >= 1,
        ;
        assert(an * bd == bn * ad) by (nonlinear_arith)
            requires
                an == iabs(a.num as int),
                bn == iabs(b.num as int),
                ad == a.den,
                bd == b.den,
                (a.num > 0) == (b.num > 0),
                a.num != 0,
                a.num * b.den == b.num * a.den,
        ;
        lemma_gcd_scale(bd, an, ad);
        lemma_gcd_scale(ad, bn, bd);
        assert(bd * an == ad * bn) by (nonlinear_arith)
            requires
                an * bd == bn * ad,
        ;
        assert(bd * ad == ad * bd) by (nonlinear_arith);
        assert(gcd(bd * an, bd * ad) == gcd(ad * bn, ad * bd));
        assert(bd * gcd(an, ad) == ad * gcd(bn, bd));
        assert(bd == ad) by (nonlinear_arith)
            requires
                bd * gcd(an, ad) == ad * gcd(bn, bd),
                gcd(an, ad) == 1,
                gcd(bn, bd) == 1,
        ;
        assert(a.num == b.num) by (nonlinear_arith)
            requires
                a.num * b.den == b.num * a.den,
                a.den == b.den,
                a.den >= 1,
        ;
    }
}

/// `0 % m == 0` for positive `m` (used to evaluate a gcd with zero).
proof fn lemma_small_mod_zero(m: nat)
    requires
        m > 0,
    ensures
        0nat % m == 0nat,
{
    vstd::arithmetic::div_mod::lemma_small_mod(0, m);
}

/// The product of two values of `i64` magnitude stays well inside `i128`.
proof fn lemma_mul_i64_range(x: int, y: int)
    requires
        -0x7fff_ffff_ffff_ffff <= x <= 0x7fff_ffff_ffff_ffff,
        -0x7fff_ffff_ffff_ffff <= y <= 0x7fff_ffff_ffff_ffff,
    ensures
        -0x3fff_ffff_ffff_ffff_0000_0000_0000_0001 <= x * y
            <= 0x3fff_ffff_ffff_ffff_0000_0000_0000_0001,
{
    assert(-0x3fff_ffff_ffff_ffff_0000_0000_0000_0001 <= x * y
        <= 0x3fff_ffff_ffff_ffff_0000_0000_0000_0001) by (nonlinear_arith)
        requires
            -0x7fff_ffff_ffff_ffff <= x <= 0x7fff_ffff_ffff_ffff,
            -0x7fff_ffff_ffff_ffff <= y <= 0x7fff_ffff_ffff_ffff,
    ;
}

/// `gcd(a, b) == gcd(b, a)` for the one case this crate needs: swapping the
/// arguments of a gcd with 1.
proof fn lemma_gcd_flip(a: nat)
    ensures
        gcd(a, 1) == 1,
{
    vstd::arithmetic::div_mod::lemma_mod_multiples_basic(a as int, 1int);
    assert(a % 1nat == 0nat);
    assert(gcd(a, 1) == gcd(1, 0));
}

} // verus!
