//! Scale factors as binary64 holds them, in integer arithmetic.
//!
//! A monitor's scale is the quotient of a physical and a logical length, and
//! logical coordinates become physical ones by multiplying with it and rounding
//! to the nearest integer. Both steps round to a 53 bit significand, half to
//! even; the last one rounds half away from zero. All of it is exact here, so
//! what holds of the pixels can be proved.
use vstd::arithmetic::div_mod::*;
use vstd::arithmetic::mul::*;
use vstd::arithmetic::power2::*;
use vstd::prelude::*;

verus! {

/// `n / d` rounded to the nearest integer, a tie to the even one.
pub open spec fn half_even(n: nat, d: nat) -> nat
    recommends
        d > 0,
{
    let q = n / d;
    let r = n % d;
    if 2 * r < d || (2 * r == d && q % 2 == 0) {
        q
    } else {
        q + 1
    }
}

/// How many low bits `x` has beyond a 53 bit significand.
pub open spec fn excess_bits(x: nat) -> nat
    decreases x,
{
    if x < pow2(53) {
        0
    } else {
        proof {
            lemma_pow2_pos(53);
        }
        1 + excess_bits(x / 2)
    }
}

/// `x` rounded to a 53 bit significand, a tie to the even one.
pub open spec fn round_significand(x: nat) -> nat {
    half_even(x, pow2(excess_bits(x))) * pow2(excess_bits(x))
}

/// The least exponent from `k` on that gives `p / l` a significand of 53 bits.
pub open spec fn quotient_exponent(p: nat, l: nat, k: nat) -> nat
    decreases 128 - k,
{
    if k >= 128 || p * pow2(k) >= l * pow2(52) {
        k
    } else {
        quotient_exponent(p, l, k + 1)
    }
}

proof fn lemma_half_even_bounds(n: nat, d: nat)
    requires
        d > 0,
    ensures
        n / d <= half_even(n, d) <= n / d + 1,
        2 * (half_even(n, d) * d - n) <= d,
        2 * (n - half_even(n, d) * d) <= d,
{
    lemma_fundamental_div_mod(n as int, d as int);
    let q = n / d;
    assert((q + 1) * d == q * d + d) by (nonlinear_arith);
    assert(d * q == q * d) by (nonlinear_arith);
    assert(0 <= n % d < d) by {
        lemma_mod_bound(n as int, d as int);
    }
}

proof fn lemma_half_even_exact(c: nat, d: nat)
    requires
        d > 0,
    ensures
        half_even(c * d, d) == c,
{
    lemma_fundamental_div_mod_converse((c * d) as int, d as int, c as int, 0);
}

proof fn lemma_half_even_monotone(a: nat, b: nat, d: nat)
    requires
        d > 0,
        a <= b,
    ensures
        half_even(a, d) <= half_even(b, d),
{
    lemma_div_is_ordered(a as int, b as int, d as int);
    lemma_half_even_bounds(a, d);
    lemma_half_even_bounds(b, d);
    if a / d == b / d {
        lemma_fundamental_div_mod(a as int, d as int);
        lemma_fundamental_div_mod(b as int, d as int);
    }
}

proof fn lemma_excess_bits(x: nat)
    ensures
        x < pow2(53 + excess_bits(x)),
        excess_bits(x) > 0 ==> x >= pow2((52 + excess_bits(x)) as nat),
    decreases x,
{
    if x >= pow2(53) {
        lemma_pow2_pos(53);
        lemma_excess_bits(x / 2);
        lemma_pow2_unfold(53 + excess_bits(x));
        lemma_pow2_unfold((52 + excess_bits(x)) as nat);
    }
}

proof fn lemma_pow2_ordered(a: nat, b: nat)
    requires
        a <= b,
    ensures
        pow2(a) <= pow2(b),
{
    if a < b {
        lemma_pow2_strictly_increases(a, b);
    }
}

proof fn lemma_excess_bits_bound(x: nat, e: nat)
    requires
        x < pow2(53 + e),
    ensures
        excess_bits(x) <= e,
{
    lemma_excess_bits(x);
    if excess_bits(x) > e {
        lemma_pow2_ordered((53 + e) as nat, (52 + excess_bits(x)) as nat);
    }
}

proof fn lemma_round_significand(x: nat)
    ensures
        round_significand(x) <= pow2(53 + excess_bits(x)),
        excess_bits(x) > 0 ==> round_significand(x) >= pow2((52 + excess_bits(x)) as nat),
        excess_bits(x) == 0 ==> round_significand(x) == x,
        2 * (round_significand(x) - x) <= pow2(excess_bits(x)),
        2 * (x - round_significand(x)) <= pow2(excess_bits(x)),
{
    let s = excess_bits(x);
    let d = pow2(s);
    lemma_pow2_pos(s);
    lemma_excess_bits(x);
    lemma_half_even_bounds(x, d);
    lemma_pow2_adds(53, s);
    lemma_half_even_monotone(x, pow2(53 + s), d);
    lemma_half_even_exact(pow2(53), d);
    assert(pow2(53) * d == pow2(53 + s));
    assert(half_even(x, d) <= pow2(53));
    lemma_mul_inequality(half_even(x, d) as int, pow2(53) as int, d as int);
    if s > 0 {
        lemma_pow2_adds(52, s);
        lemma_half_even_monotone(pow2((52 + s) as nat), x, d);
        lemma_half_even_exact(pow2(52), d);
        lemma_mul_inequality(pow2(52) as int, half_even(x, d) as int, d as int);
    } else {
        lemma2_to64();
        lemma_half_even_exact(x, 1);
    }
}

proof fn lemma_round_significand_monotone(a: nat, b: nat)
    requires
        a <= b,
    ensures
        round_significand(a) <= round_significand(b),
{
    lemma_excess_bits(a);
    lemma_excess_bits(b);
    lemma_round_significand(a);
    lemma_round_significand(b);
    let s = excess_bits(a);
    let t = excess_bits(b);
    if s == t {
        lemma_pow2_pos(s);
        lemma_half_even_monotone(a, b, pow2(s));
        lemma_mul_inequality(
            half_even(a, pow2(s)) as int,
            half_even(b, pow2(s)) as int,
            pow2(s) as int,
        );
    } else if s < t {
        lemma_pow2_ordered(53 + s, (52 + t) as nat);
    } else {
        lemma_pow2_ordered(53 + t, (52 + s) as nat);
    }
}

/// Significand and exponent of `p / l`: the factor is significand times
/// two to the minus exponent. Zero is all zero.
pub open spec fn quotient(p: nat, l: nat) -> (nat, nat) {
    let k = quotient_exponent(p, l, 20);
    let m = half_even(p * pow2(k), l);
    if p == 0 {
        (0, 0)
    } else if m == pow2(53) {
        (pow2(52), (k - 1) as nat)
    } else {
        (m, k)
    }
}

/// `v` times the factor, to the nearest integer, half away from zero.
pub open spec fn scaled(v: nat, m: nat, k: nat) -> nat {
    (2 * round_significand(v * m) + pow2(k)) / pow2(k + 1)
}

/// A scale factor, `mantissa * 2^-exponent`.
#[derive(Clone, Copy, Debug, PartialEq, Eq, Structural)]
pub struct Ratio {
    pub mantissa: u64,
    pub exponent: u32,
}

impl Ratio {
    /// Zero, or a full significand with an exponent that scale factors reach.
    pub open spec fn wf(self) -> bool {
        ||| self.mantissa == 0 && self.exponent == 0
        ||| pow2(52) <= self.mantissa < pow2(53) && 20 <= self.exponent <= 104
    }

    /// `v` scaled by this factor, to the nearest integer, odd about zero.
    pub open spec fn apply(self, v: int) -> int {
        if v < 0 {
            -(scaled((-v) as nat, self.mantissa as nat, self.exponent as nat) as int)
        } else {
            scaled(v as nat, self.mantissa as nat, self.exponent as nat) as int
        }
    }

    /// Whether this factor is at most `other`.
    pub open spec fn le(self, other: Ratio) -> bool {
        self.mantissa * pow2(other.exponent as nat) <= other.mantissa * pow2(self.exponent as nat)
    }

    /// The larger of two factors.
    pub open spec fn larger(self, other: Ratio) -> Ratio {
        if other.le(self) {
            self
        } else {
            other
        }
    }

    /// The factor of a physical length `p` over a logical length `l`.
    pub open spec fn of_quotient(p: nat, l: nat) -> Ratio {
        Ratio { mantissa: quotient(p, l).0 as u64, exponent: quotient(p, l).1 as u32 }
    }

    /// The distance from one to the next larger factor.
    pub open spec fn epsilon() -> Ratio {
        Ratio { mantissa: 0x10_0000_0000_0000, exponent: 104 }
    }

    /// One.
    pub open spec fn unit() -> Ratio {
        Ratio { mantissa: 0x10_0000_0000_0000, exponent: 52 }
    }
}

proof fn lemma_quotient_exponent_least(p: nat, l: nat, k: nat)
    ensures
        quotient_exponent(p, l, k) >= k,
    decreases 128 - k,
{
    if k < 128 {
        lemma_quotient_exponent_least(p, l, k + 1);
    }
}

proof fn lemma_quotient_exponent(p: nat, l: nat, k: nat)
    requires
        1 <= p < 0x1_0000_0000,
        1 <= l < 0x1_0000_0000,
        20 <= k <= 84,
        forall|j: nat| 20 <= j < k ==> #[trigger] (p * pow2(j)) < l * pow2(52),
    ensures
        20 < quotient_exponent(p, l, k) <= 84,
        p * pow2(quotient_exponent(p, l, k)) >= l * pow2(52),
        p * pow2(quotient_exponent(p, l, k)) < l * pow2(53),
    decreases 128 - k,
{
    lemma2_to64();
    lemma2_to64_rest();
    lemma_pow2_adds(32, 52);
    if p * pow2(k) >= l * pow2(52) {
        assert(p * pow2(20) < l * pow2(52)) by (nonlinear_arith)
            requires
                p < 0x1_0000_0000,
                l >= 1,
                pow2(20) == 0x10_0000,
                pow2(52) == 0x10_0000_0000_0000,
        ;
        assert(k > 20);
        let j = (k - 1) as nat;
        lemma_pow2_unfold(k);
        lemma_pow2_unfold(53);
        assert(p * pow2(j) < l * pow2(52));
        assert(p * pow2(k) == 2 * (p * pow2(j))) by (nonlinear_arith)
            requires
                pow2(k) == 2 * pow2(j),
        ;
        assert(l * pow2(53) == 2 * (l * pow2(52))) by (nonlinear_arith)
            requires
                pow2(53) == 2 * pow2(52),
        ;
    } else {
        if k == 84 {
            assert(p * pow2(84) >= l * pow2(52)) by (nonlinear_arith)
                requires
                    p >= 1,
                    l < 0x1_0000_0000,
                    pow2(84) == pow2(32) * pow2(52),
                    pow2(32) == 0x1_0000_0000,
            ;
        }
        lemma_quotient_exponent(p, l, k + 1);
    }
}

/// The quotient of two 32 bit lengths is a well-formed factor, and differs from
/// the true quotient by at most half a unit in its last place.
pub proof fn lemma_quotient(p: nat, l: nat)
    requires
        p < 0x1_0000_0000,
        1 <= l < 0x1_0000_0000,
    ensures
        Ratio::of_quotient(p, l).wf(),
        Ratio::of_quotient(p, l).mantissa == quotient(p, l).0,
        Ratio::of_quotient(p, l).exponent == quotient(p, l).1,
        quotient(p, l).1 <= 84,
        p > 0 ==> quotient(p, l).0 >= pow2(52),
        2 * (quotient(p, l).0 * l - p * pow2(quotient(p, l).1)) <= l,
        2 * (p * pow2(quotient(p, l).1) - quotient(p, l).0 * l) <= l,
{
    lemma2_to64();
    lemma2_to64_rest();
    if p > 0 {
        let k = quotient_exponent(p, l, 20);
        lemma_quotient_exponent(p, l, 20);
        let n = p * pow2(k);
        let m = half_even(n, l);
        lemma_half_even_bounds(n, l);
        lemma_half_even_exact(pow2(52), l);
        lemma_half_even_exact(pow2(53), l);
        assert(pow2(52) * l == l * pow2(52)) by (nonlinear_arith);
        assert(pow2(53) * l == l * pow2(53)) by (nonlinear_arith);
        lemma_half_even_monotone(pow2(52) * l, n, l);
        lemma_half_even_monotone(n, pow2(53) * l, l);
        assert(pow2(52) <= m <= pow2(53));
        if m == pow2(53) {
            let j = (k - 1) as nat;
            lemma_pow2_unfold(k);
            lemma_pow2_unfold(53);
            assert(n == 2 * (p * pow2(j))) by (nonlinear_arith)
                requires
                    n == p * pow2(k),
                    pow2(k) == 2 * pow2(j),
            ;
            assert(pow2(53) * l == 2 * (pow2(52) * l)) by (nonlinear_arith)
                requires
                    pow2(53) == 2 * pow2(52),
            ;
        }
    }
}

/// Of two factors one is at most the other.
pub proof fn lemma_le_total(a: Ratio, b: Ratio)
    ensures
        a.le(b) || b.le(a),
        a.le(a.larger(b)),
        b.le(a.larger(b)),
{
}

/// The order of factors is transitive.
pub proof fn lemma_le_transitive(a: Ratio, b: Ratio, c: Ratio)
    requires
        a.le(b),
        b.le(c),
    ensures
        a.le(c),
{
    let (am, bm, cm) = (a.mantissa as int, b.mantissa as int, c.mantissa as int);
    let (ap, bp, cp) = (
        pow2(a.exponent as nat) as int,
        pow2(b.exponent as nat) as int,
        pow2(c.exponent as nat) as int,
    );
    lemma_pow2_pos(a.exponent as nat);
    lemma_pow2_pos(b.exponent as nat);
    lemma_pow2_pos(c.exponent as nat);
    assert(am * cp <= cm * ap) by (nonlinear_arith)
        requires
            am * bp <= bm * ap,
            bm * cp <= cm * bp,
            ap > 0,
            bp > 0,
            cp > 0,
    {
        assert((am * bp) * cp <= (bm * ap) * cp);
        assert((bm * cp) * ap <= (cm * bp) * ap);
        assert((am * bp) * cp == (am * cp) * bp);
        assert((bm * ap) * cp == (bm * cp) * ap);
        assert((cm * bp) * ap == (cm * ap) * bp);
        assert((am * cp) * bp <= (cm * ap) * bp);
    }
}

/// A larger coordinate never scales to a smaller pixel.
pub proof fn lemma_apply_monotone(r: Ratio, a: int, b: int)
    requires
        a <= b,
    ensures
        r.apply(a) <= r.apply(b),
{
    let m = r.mantissa as nat;
    let k = r.exponent as nat;
    if 0 <= a {
        lemma_scaled_monotone(a as nat, b as nat, m, k);
    } else if b < 0 {
        lemma_scaled_monotone((-b) as nat, (-a) as nat, m, k);
    }
}

proof fn lemma_scaled_monotone(a: nat, b: nat, m: nat, k: nat)
    requires
        a <= b,
    ensures
        scaled(a, m, k) <= scaled(b, m, k),
{
    lemma_mul_inequality(a as int, b as int, m as int);
    lemma_round_significand_monotone(a * m, b * m);
    lemma_pow2_pos(k + 1);
    lemma_div_is_ordered(
        (2 * round_significand(a * m) + pow2(k)) as int,
        (2 * round_significand(b * m) + pow2(k)) as int,
        pow2(k + 1) as int,
    );
}

proof fn lemma_round_significand_doubles(x: nat)
    ensures
        round_significand(2 * x) == 2 * round_significand(x),
{
    lemma_pow2_unfold(53);
    lemma2_to64();
    let s = excess_bits(x);
    lemma_pow2_pos(s);
    lemma_pow2_unfold(s + 1);
    if x < pow2(52) {
        lemma_round_significand(x);
        lemma_round_significand(2 * x);
    } else {
        assert((2 * x) / 2 == x);
        assert(excess_bits(2 * x) == s + 1);
        let d = pow2(s);
        lemma_fundamental_div_mod(x as int, d as int);
        lemma_mod_bound(x as int, d as int);
        let q = x / d;
        let r = x % d;
        assert(2 * x == q * (2 * d) + 2 * r) by (nonlinear_arith)
            requires
                x == d * q + r,
        ;
        lemma_fundamental_div_mod_converse((2 * x) as int, (2 * d) as int, q as int, (2 * r) as int);
        assert(half_even(2 * x, 2 * d) == half_even(x, d));
        let h = half_even(x, d);
        assert(h * (2 * d) == 2 * (h * d)) by (nonlinear_arith);
    }
}

proof fn lemma_round_significand_shifts(x: nat, n: nat)
    ensures
        round_significand(x * pow2(n)) == round_significand(x) * pow2(n),
    decreases n,
{
    lemma2_to64();
    if n == 0 {
        assert(x * pow2(0) == x) by (nonlinear_arith)
            requires
                pow2(0) == 1,
        ;
        assert(round_significand(x) * pow2(0) == round_significand(x)) by (nonlinear_arith)
            requires
                pow2(0) == 1,
        ;
    } else {
        let p = pow2((n - 1) as nat);
        lemma_round_significand_shifts(x, (n - 1) as nat);
        lemma_pow2_unfold(n);
        lemma_round_significand_doubles(x * p);
        assert(x * (2 * p) == 2 * (x * p)) by (nonlinear_arith);
        let r = round_significand(x);
        assert(r * (2 * p) == 2 * (r * p)) by (nonlinear_arith);
    }
}

/// A larger factor never scales a length to a smaller one.
pub proof fn lemma_apply_larger(a: Ratio, b: Ratio, v: nat)
    requires
        a.wf(),
        b.wf(),
        a.le(b),
    ensures
        a.apply(v as int) <= b.apply(v as int),
{
    let (am, bm) = (a.mantissa as nat, b.mantissa as nat);
    let (ak, bk) = (a.exponent as nat, b.exponent as nat);
    lemma2_to64();
    lemma_pow2_pos(ak);
    lemma_pow2_pos(bk);
    if am == 0 {
        lemma_pow2_pos(52);
        lemma_pow2_pos(53);
        assert(v * am == 0) by (nonlinear_arith)
            requires
                am == 0,
        ;
        lemma_round_significand(0);
        assert(excess_bits(0) == 0);
        assert(ak == 0 && pow2(ak) == 1 && pow2(ak + 1) == 2);
        assert(round_significand(v * am) == 0);
    } else if bm == 0 {
        assert(am * pow2(bk) > 0) by (nonlinear_arith)
            requires
                am > 0,
                pow2(bk) > 0,
        ;
        assert(0 * pow2(ak) == 0);
    } else if ak < bk {
        lemma_pow2_adds(53, ak);
        lemma_pow2_adds(52, bk);
        lemma_pow2_ordered(53 + ak, 52 + bk);
        assert(bm * pow2(ak) < pow2(53) * pow2(ak)) by (nonlinear_arith)
            requires
                bm < pow2(53),
                pow2(ak) > 0,
        ;
        assert(pow2(52) * pow2(bk) <= am * pow2(bk)) by (nonlinear_arith)
            requires
                pow2(52) <= am,
                pow2(bk) > 0,
        ;
    } else {
        let n = (ak - bk) as nat;
        let p = pow2(n);
        lemma_pow2_pos(n);
        lemma_pow2_adds(bk, n);
        lemma_pow2_adds(bk + 1, n);
        assert(am <= bm * p) by (nonlinear_arith)
            requires
                am * pow2(bk) <= bm * (pow2(bk) * p),
                pow2(bk) > 0,
        ;
        lemma_round_significand_shifts(v * bm, n);
        assert((v * bm) * p == v * (bm * p)) by (nonlinear_arith);
        assert(v * am <= v * (bm * p)) by (nonlinear_arith)
            requires
                am <= bm * p,
                v >= 0,
        ;
        lemma_round_significand_monotone(v * am, v * (bm * p));
        let x = 2 * round_significand(v * bm) + pow2(bk);
        let y = pow2(bk + 1);
        lemma_pow2_pos(bk + 1);
        assert((2 * round_significand(v * bm) + pow2(bk)) * p == 2 * (round_significand(v * bm) * p)
            + pow2(bk) * p) by (nonlinear_arith);
        lemma_mul_is_commutative(p as int, x as int);
        lemma_mul_is_commutative(p as int, y as int);
        lemma_div_multiples_vanish_quotient(p as int, x as int, y as int);
        assert(x / y == (p * x) / (p * y));
        assert(p * y == pow2(ak + 1));
        lemma_pow2_pos(ak + 1);
        lemma_div_is_ordered(
            (2 * round_significand(v * am) + pow2(ak)) as int,
            (p * x) as int,
            pow2(ak + 1) as int,
        );
    }
}

/// The whole logical length scales to the whole physical length.
pub proof fn lemma_apply_whole(p: nat, l: nat)
    requires
        p < 0x1_0000_0000,
        1 <= l < 0x1_0000_0000,
    ensures
        Ratio::of_quotient(p, l).apply(l as int) == p,
{
    lemma_quotient(p, l);
    let (m, k) = quotient(p, l);
    lemma2_to64();
    lemma2_to64_rest();
    let x = l * m;
    lemma_round_significand(x);
    let g = round_significand(x);
    if p == 0 {
        assert(x == 0) by (nonlinear_arith)
            requires
                x == l * m,
                m == 0,
        ;
        assert(excess_bits(0) == 0);
        assert(pow2(0) == 1 && pow2(1) == 2);
        assert(scaled(l, 0, 0) == (2 * g + pow2(0)) / pow2(1));
    } else {
        let t = pow2(k);
        assert(x == m * l) by (nonlinear_arith)
            requires
                x == l * m,
        ;
        assert(x >= l * 0x10_0000_0000_0000) by (nonlinear_arith)
            requires
                x == l * m,
                m >= 0x10_0000_0000_0000,
        ;
        assert(p * t >= l * 0x8_0000_0000_0000);
        assert(t > l * 0x8_0000) by (nonlinear_arith)
            requires
                p * t >= l * 0x8_0000_0000_0000,
                1 <= p < 0x1_0000_0000,
                l >= 1,
        ;
        assert(x < 0x1_0000_0000 * t) by (nonlinear_arith)
            requires
                2 * (x - p * t) <= l,
                p < 0x1_0000_0000,
                t > l * 0x8_0000,
                l >= 1,
        ;
        lemma_pow2_adds(32, k);
        if k < 21 {
            lemma_pow2_ordered(32 + k, 52);
            assert(false);
        }
        lemma_excess_bits_bound(x, (k - 21) as nat);
        lemma_pow2_ordered(excess_bits(x), (k - 21) as nat);
        lemma_pow2_adds(21, (k - 21) as nat);
        assert(2 * (g - p * t) < t && 2 * (p * t - g) < t);
        lemma_pow2_unfold(k + 1);
        assert(2 * (p * t) == p * (2 * t)) by (nonlinear_arith);
        lemma_fundamental_div_mod_converse(
            (2 * g + t) as int,
            (2 * t) as int,
            p as int,
            2 * g + t - p * (2 * t),
        );
    }
}

/// A coordinate scales to the nearest pixel: it is off by less than one, and by no more
/// than a half but for the rounding of the factor, of which three quarters leave ample
/// room. The coordinate lies on the axis, or the factor does not enlarge it.
pub proof fn coordinates_scale_to_the_nearest_pixel(p: nat, l: nat, v: nat)
    requires
        p < 0x1_0000_0000,
        1 <= l < 0x1_0000_0000,
        v <= l || (p <= l && v < 0x1_0000_0000),
    ensures
        4 * (Ratio::of_quotient(p, l).apply(v as int) * l - v * p) <= 3 * l,
        4 * (v * p - Ratio::of_quotient(p, l).apply(v as int) * l) <= 3 * l,
        0 <= Ratio::of_quotient(p, l).apply(v as int),
        v <= l ==> Ratio::of_quotient(p, l).apply(v as int) <= p,
{
    let a = Ratio::of_quotient(p, l).apply(v as int);
    lemma_apply_zero(Ratio::of_quotient(p, l));
    lemma_apply_whole(p, l);
    lemma_apply_monotone(Ratio::of_quotient(p, l), 0, v as int);
    if v <= l {
        lemma_apply_monotone(Ratio::of_quotient(p, l), v as int, l as int);
    }
    lemma_quotient(p, l);
    let (m, k) = quotient(p, l);
    lemma2_to64();
    lemma2_to64_rest();
    let t = pow2(k);
    let x = v * m;
    let y = l * m;
    lemma_round_significand(x);
    let g = round_significand(x);
    if p == 0 {
        assert(x == 0 && v * p == 0) by (nonlinear_arith)
            requires
                x == v * m,
                m == 0,
                p == 0,
        ;
        assert(excess_bits(0) == 0);
        assert(pow2(0) == 1 && pow2(1) == 2);
        assert(a == (2 * g + pow2(0)) / pow2(1));
        assert(a * l == 0) by (nonlinear_arith)
            requires
                a == 0,
        ;
    } else {
        assert(y == m * l) by (nonlinear_arith)
            requires
                y == l * m,
        ;
        assert(y >= l * 0x10_0000_0000_0000) by (nonlinear_arith)
            requires
                y == l * m,
                m >= 0x10_0000_0000_0000,
        ;
        assert(p * t >= l * 0x8_0000_0000_0000);
        assert(t > l * 0x8_0000) by (nonlinear_arith)
            requires
                p * t >= l * 0x8_0000_0000_0000,
                1 <= p < 0x1_0000_0000,
                l >= 1,
        ;
        if v <= l {
            assert(y < 0x1_0000_0000 * t) by (nonlinear_arith)
                requires
                    2 * (y - p * t) <= l,
                    p < 0x1_0000_0000,
                    t > l * 0x8_0000,
                    l >= 1,
            ;
            assert(x <= y) by (nonlinear_arith)
                requires
                    x == v * m,
                    y == l * m,
                    v <= l,
            ;
            assert(0x8_0000 * v <= t);
        } else {
            assert(m <= t) by (nonlinear_arith)
                requires
                    2 * (m * l - p * t) <= l,
                    p <= l,
                    1 <= l,
                    0 <= t,
            ;
            assert(x < 0x1_0000_0000 * t) by (nonlinear_arith)
                requires
                    x == v * m,
                    m <= t,
                    v < 0x1_0000_0000,
                    0 < t,
            ;
            assert(t >= 0x8_0000_0000_0000) by (nonlinear_arith)
                requires
                    p * t >= l * 0x8_0000_0000_0000,
                    1 <= p <= l,
            ;
            assert(0x8_0000 * v <= t);
        }
        lemma_pow2_adds(32, k);
        if k < 21 {
            lemma_pow2_ordered(k, 20);
            assert(t <= 0x10_0000);
            assert(p * t <= 0xffff_ffff * 0x10_0000) by (nonlinear_arith)
                requires
                    p <= 0xffff_ffff,
                    0 <= t <= 0x10_0000,
            ;
            assert(l * 0x10_0000_0000_0000 <= p * t + l);
            assert(false) by (nonlinear_arith)
                requires
                    l * 0x10_0000_0000_0000 <= 0xffff_ffff * 0x10_0000 + l,
                    1 <= l,
            ;
        }
        lemma_excess_bits_bound(x, (k - 21) as nat);
        lemma_pow2_ordered(excess_bits(x), (k - 21) as nat);
        lemma_pow2_adds(21, (k - 21) as nat);
        let u = pow2((k - 21) as nat);
        assert(t == 0x20_0000 * u);
        lemma_pow2_unfold(k + 1);
        lemma_pow2_pos(k + 1);
        assert(a == (2 * g + t) / (2 * t) as nat);
        lemma_fundamental_div_mod((2 * g + t) as int, (2 * t) as int);
        lemma_mod_bound((2 * g + t) as int, (2 * t) as int);
        assert((2 * t) * a == 2 * (a * t)) by (nonlinear_arith);
        let at = a * t;
        assert(2 * (at - g) <= t && 2 * (g - at) <= t);
        assert(2 * (g - x) <= u && 2 * (x - g) <= u);
        lemma_nearest(
            a,
            at,
            g as int,
            x as int,
            m as int,
            t as int,
            u as int,
            p as int,
            l as int,
            v as int,
        );
    }
}

proof fn lemma_nearest(
    a: int,
    at: int,
    g: int,
    x: int,
    m: int,
    t: int,
    u: int,
    p: int,
    l: int,
    v: int,
)
    requires
        at == a * t,
        x == v * m,
        0 <= v,
        0x8_0000 * v <= t,
        0 < t,
        1 <= l,
        t == 0x20_0000 * u,
        2 * (at - g) <= t,
        2 * (g - at) <= t,
        2 * (g - x) <= u,
        2 * (x - g) <= u,
        2 * (m * l - p * t) <= l,
        2 * (p * t - m * l) <= l,
    ensures
        4 * (a * l - v * p) <= 3 * l,
        4 * (v * p - a * l) <= 3 * l,
{
    let d = m * l - p * t;
    let e = x * l - (v * p) * t;
    assert(e == v * d) by (nonlinear_arith)
        requires
            x == v * m,
            d == m * l - p * t,
            e == x * l - (v * p) * t,
    ;
    assert(2 * e <= v * l && -(v * l) <= 2 * e) by (nonlinear_arith)
        requires
            e == v * d,
            0 <= v,
            2 * d <= l,
            -l <= 2 * d,
    ;
    let f = at - x;
    assert(2 * f <= t + u && -(t + u) <= 2 * f);
    assert(2 * (f * l) <= (t + u) * l && -((t + u) * l) <= 2 * (f * l)) by (nonlinear_arith)
        requires
            2 * f <= t + u,
            -(t + u) <= 2 * f,
            1 <= l,
    ;
    let h = (a * l - v * p) * t;
    assert(h == f * l + e) by (nonlinear_arith)
        requires
            h == (a * l - v * p) * t,
            f == a * t - x,
            e == x * l - (v * p) * t,
    ;
    assert(0x8_0000 * (v * l) <= t * l) by (nonlinear_arith)
        requires
            0x8_0000 * v <= t,
            1 <= l,
    ;
    assert((t + u) * l == t * l + u * l && t * l == 0x20_0000 * (u * l)) by (nonlinear_arith)
        requires
            t == 0x20_0000 * u,
    ;
    assert(4 * h <= 3 * (t * l) && -(3 * (t * l)) <= 4 * h);
    assert(4 * (a * l - v * p) <= 3 * l && 4 * (v * p - a * l) <= 3 * l) by (nonlinear_arith)
        requires
            h == (a * l - v * p) * t,
            4 * h <= 3 * (t * l),
            -(3 * (t * l)) <= 4 * h,
            t > 0,
    ;
}

/// A multiple of a significand's last place is held as it is.
proof fn lemma_round_significand_exact(c: nat, e: nat)
    requires
        excess_bits(c * pow2(e)) <= e,
    ensures
        round_significand(c * pow2(e)) == c * pow2(e),
{
    let x = c * pow2(e);
    let s = excess_bits(x);
    let n = (e - s) as nat;
    lemma_pow2_pos(s);
    lemma_pow2_adds(n, s);
    assert(x == (c * pow2(n)) * pow2(s)) by (nonlinear_arith)
        requires
            x == c * pow2(e),
            pow2(e) == pow2(n) * pow2(s),
    ;
    lemma_half_even_exact(c * pow2(n), pow2(s));
}

/// Adding an even number of divisors moves the rounded quotient by as many.
proof fn lemma_half_even_shift(x: nat, c: nat, d: nat)
    requires
        d > 0,
        c % 2 == 0,
    ensures
        half_even(x + c * d, d) == half_even(x, d) + c,
{
    let (q, r) = (x / d, x % d);
    lemma_fundamental_div_mod(x as int, d as int);
    lemma_mod_bound(x as int, d as int);
    assert(x + c * d == (q + c) * d + r) by (nonlinear_arith)
        requires
            x == d * q + r,
    ;
    lemma_fundamental_div_mod_converse((x + c * d) as int, d as int, (q + c) as int, r as int);
}

/// Where `x` rounds to at least `g`, a number of half pixels, `x` and a pixel more
/// rounds to at least `g` and a pixel more.
proof fn lemma_one_pixel_more(x: nat, c: nat, k: nat)
    requires
        k >= 21,
        x + pow2(k) < pow2(32) * pow2(k),
        round_significand(x) >= c * pow2((k - 1) as nat),
        (c + 2) * pow2((k - 1) as nat) < pow2(32) * pow2(k),
    ensures
        round_significand(x + pow2(k)) >= (c + 2) * pow2((k - 1) as nat),
{
    let u = pow2((k - 1) as nat);
    let t = pow2(k);
    let g = c * u;
    let z = x + t;
    lemma_pow2_unfold(k);
    lemma_pow2_pos((k - 1) as nat);
    lemma_pow2_adds(32, k);
    assert((c + 2) * u == g + t) by (nonlinear_arith)
        requires
            g == c * u,
            t == 2 * u,
    ;
    let s = excess_bits(x);
    let e = excess_bits(z);
    assert(53 + (k - 21) as nat == 32 + k);
    lemma_excess_bits_bound(x, (k - 21) as nat);
    lemma_excess_bits_bound(z, (k - 21) as nat);
    lemma_excess_bits_bound((c + 2) * u, (k - 21) as nat);
    lemma_round_significand_exact(c + 2, (k - 1) as nat);
    if x >= g {
        lemma_round_significand_monotone((c + 2) * u, z);
    } else {
        lemma_round_significand(x);
        lemma_excess_bits(x);
        lemma_excess_bits(z);
        lemma_pow2_pos(s);
        lemma_pow2_pos(e);
        if e < s {
            lemma_pow2_ordered(53 + e, (52 + s) as nat);
            assert(false);
        }
        if e == s {
            let d = pow2(s);
            let n = (k - s) as nat;
            lemma_pow2_adds(n, s);
            lemma_pow2_unfold(n);
            assert(pow2(n) % 2 == 0);
            lemma_half_even_shift(x, pow2(n), d);
            let h = half_even(x, d);
            assert((h + pow2(n)) * d == h * d + t) by (nonlinear_arith)
                requires
                    t == pow2(n) * d,
            ;
        } else {
            let d = pow2(e);
            let n = (k - 1 - e) as nat;
            lemma_pow2_adds(n, e);
            lemma_pow2_ordered(s + 1, e);
            lemma_pow2_unfold(s + 1);
            let b = (c + 2) * pow2(n);
            assert((c + 2) * u == b * d) by (nonlinear_arith)
                requires
                    u == pow2(n) * d,
                    b == (c + 2) * pow2(n),
            ;
            lemma_half_even_bounds(z, d);
            let h = half_even(z, d);
            if h < b {
                assert(h * d <= b * d - d) by (nonlinear_arith)
                    requires
                        h + 1 <= b,
                        d > 0,
                ;
            }
            assert(h * d >= b * d) by (nonlinear_arith)
                requires
                    h >= b,
                    d > 0,
            ;
        }
    }
}

/// On an axis with at least a pixel for each unit, each coordinate scales to a
/// larger pixel than the one before.
pub proof fn lemma_apply_strict(p: nat, l: nat, v: nat)
    requires
        1 <= l <= p < 0x1_0000_0000,
        v < l,
    ensures
        Ratio::of_quotient(p, l).apply(v as int) < Ratio::of_quotient(p, l).apply((v + 1) as int),
{
    lemma_quotient(p, l);
    let (m, k) = quotient(p, l);
    lemma2_to64();
    lemma2_to64_rest();
    let t = pow2(k);
    lemma_pow2_pos(k);
    assert(m >= t) by (nonlinear_arith)
        requires
            2 * (p * t - m * l) <= l,
            p >= l,
            l >= 1,
            t > 0,
    ;
    assert(t > l * 0x8_0000) by (nonlinear_arith)
        requires
            2 * (m * l - p * t) <= l,
            m >= 0x10_0000_0000_0000,
            1 <= p < 0x1_0000_0000,
            l >= 1,
            t > 0,
    ;
    assert(l * m < 0x1_0000_0000 * t) by (nonlinear_arith)
        requires
            2 * (m * l - p * t) <= l,
            p < 0x1_0000_0000,
            t > l * 0x8_0000,
            l >= 1,
    ;
    if k < 21 {
        lemma_pow2_ordered(k, 20);
        assert(l * m >= 0x10_0000_0000_0000) by (nonlinear_arith)
            requires
                l >= 1,
                m >= 0x10_0000_0000_0000,
        ;
        assert(false);
    }
    let x = v * m;
    let y = (v + 1) * m;
    assert(y == x + m) by (nonlinear_arith)
        requires
            x == v * m,
            y == (v + 1) * m,
    ;
    assert(y <= l * m) by (nonlinear_arith)
        requires
            y == (v + 1) * m,
            v + 1 <= l,
            m >= 0,
    ;
    let gx = round_significand(x);
    let gy = round_significand(y);
    let n = scaled(v, m, k);
    lemma_pow2_unfold(k + 1);
    lemma_fundamental_div_mod((2 * gx + t) as int, (2 * t) as int);
    lemma_mod_bound((2 * gx + t) as int, (2 * t) as int);
    assert(2 * gx + t >= (2 * t) * n);
    if n == 0 {
        lemma_round_significand_monotone(t, y);
        assert(t == 1 * pow2(k));
        lemma_pow2_strictly_increases(k, 32 + k);
        lemma_excess_bits_bound(t, (k - 21) as nat);
        lemma_round_significand_exact(1, k);
        assert(2 * gy + t >= 2 * t);
        lemma_div_is_ordered((2 * t) as int, (2 * gy + t) as int, (2 * t) as int);
        lemma_fundamental_div_mod_converse((2 * t) as int, (2 * t) as int, 1, 0);
    } else {
        let c = (2 * n - 1) as nat;
        let u = pow2((k - 1) as nat);
        lemma_pow2_unfold(k);
        assert(gx >= c * u) by (nonlinear_arith)
            requires
                2 * gx + t >= (2 * t) * n,
                t == 2 * u,
                c == 2 * n - 1,
        ;
        lemma_round_significand_monotone(x + t, y);
        lemma_pow2_adds(32, k);
        lemma_excess_bits_bound(x, (k - 21) as nat);
        lemma_round_significand(x);
        lemma_pow2_ordered(excess_bits(x), (k - 21) as nat);
        lemma_pow2_adds(21, (k - 21) as nat);
        assert((c + 2) * u <= gx + t) by (nonlinear_arith)
            requires
                gx >= c * u,
                t == 2 * u,
        ;
        assert(l * m == m * l) by (nonlinear_arith);
        assert(x + t <= m * l);
        assert(2 * (m * l - p * t) <= l && l * 0x8_0000 < t);
        assert(2 * (gx - x) <= pow2((k - 21) as nat));
        assert(pow2((k - 21) as nat) * 0x20_0000 == t);
        assert(gx + t < p * t + t);
        assert(p * t + t <= pow2(32) * t) by (nonlinear_arith)
            requires
                p + 1 <= pow2(32),
                t > 0,
        ;
        lemma_one_pixel_more(x, c, k);
        assert(2 * gy + t >= (n + 1) * (2 * t)) by (nonlinear_arith)
            requires
                gy >= (c + 2) * u,
                t == 2 * u,
                c == 2 * n - 1,
        ;
        lemma_fundamental_div_mod_converse(
            ((n + 1) * (2 * t)) as int,
            (2 * t) as int,
            (n + 1) as int,
            0,
        );
        lemma_div_is_ordered(
            ((n + 1) * (2 * t)) as int,
            (2 * gy + t) as int,
            (2 * t) as int,
        );
    }
}

/// The origin stays the origin.
pub proof fn lemma_apply_zero(r: Ratio)
    ensures
        r.apply(0) == 0,
{
    let k = r.exponent as nat;
    assert(0 * (r.mantissa as nat) == 0) by (nonlinear_arith);
    lemma2_to64_rest();
    lemma_round_significand(0);
    assert(excess_bits(0) == 0);
    lemma_pow2_pos(k);
    lemma_pow2_unfold(k + 1);
    lemma_fundamental_div_mod_converse(pow2(k) as int, pow2(k + 1) as int, 0, pow2(k) as int);
}

/// At scale one every coordinate stays what it is.
pub proof fn lemma_apply_unit(p: nat, v: int)
    requires
        1 <= p < 0x1_0000_0000,
        -0x1_0000_0000 < v < 0x1_0000_0000,
    ensures
        Ratio::of_quotient(p, p) == Ratio::unit(),
        Ratio::unit().apply(v) == v,
{
    lemma2_to64();
    lemma2_to64_rest();
    lemma_quotient_exponent(p, p, 20);
    let k = quotient_exponent(p, p, 20);
    if k < 52 {
        lemma_pow2_strictly_increases(k, 52);
        assert(p * pow2(k) < p * pow2(52)) by (nonlinear_arith)
            requires
                pow2(k) < pow2(52),
                p >= 1,
        ;
    }
    if k > 52 {
        lemma_pow2_ordered(53, k);
        assert(p * pow2(k) >= p * pow2(53)) by (nonlinear_arith)
            requires
                pow2(k) >= pow2(53),
        ;
    }
    lemma_half_even_exact(pow2(52), p);
    assert(p * pow2(52) == pow2(52) * p) by (nonlinear_arith);
    let a = if v < 0 { (-v) as nat } else { v as nat };
    let x = a * pow2(52);
    lemma_pow2_adds(32, 52);
    assert(x < pow2(84)) by (nonlinear_arith)
        requires
            x == a * pow2(52),
            a < 0x1_0000_0000,
            pow2(84) == pow2(32) * pow2(52),
            pow2(32) == 0x1_0000_0000,
            pow2(52) > 0,
    ;
    lemma_excess_bits_bound(x, 31);
    let s = excess_bits(x);
    lemma_pow2_pos(s);
    lemma_pow2_adds((52 - s) as nat, s);
    assert(x == (a * pow2((52 - s) as nat)) * pow2(s)) by (nonlinear_arith)
        requires
            x == a * pow2(52),
            pow2(52) == pow2((52 - s) as nat) * pow2(s),
    ;
    lemma_half_even_exact(a * pow2((52 - s) as nat), pow2(s));
    assert(round_significand(x) == x);
    lemma_fundamental_div_mod_converse(
        (2 * x + pow2(52)) as int,
        pow2(53) as int,
        a as int,
        pow2(52) as int,
    );
}

proof fn lemma_le_reflexive_or_ordered(a: Ratio, b: Ratio, larger: bool)
    requires
        a.wf(),
        b.wf(),
        larger == if a.mantissa == 0 {
            true
        } else if b.mantissa == 0 {
            false
        } else if a.exponent == b.exponent {
            a.mantissa <= b.mantissa
        } else {
            a.exponent > b.exponent
        },
    ensures
        a.le(a),
        b.le(b),
        larger ==> a.le(b) && (b.le(a) ==> a == b),
        !larger ==> b.le(a),
{
    let (am, bm) = (a.mantissa as nat, b.mantissa as nat);
    let (ak, bk) = (a.exponent as nat, b.exponent as nat);
    lemma_pow2_pos(ak);
    lemma_pow2_pos(bk);
    lemma_pow2_pos(52);
    if am == 0 || bm == 0 || ak == bk {
        assert(am == 0 ==> am * pow2(bk) == 0) by (nonlinear_arith);
        assert(bm == 0 ==> bm * pow2(ak) == 0) by (nonlinear_arith);
        assert(am <= bm ==> am * pow2(ak) <= bm * pow2(ak)) by (nonlinear_arith);
        assert(bm <= am ==> bm * pow2(ak) <= am * pow2(ak)) by (nonlinear_arith);
        assert(0 <= am * pow2(bk) && 0 <= bm * pow2(ak)) by (nonlinear_arith);
        assert(bm > 0 ==> bm * pow2(ak) > 0) by (nonlinear_arith)
            requires
                pow2(ak) > 0,
        ;
        assert(am < bm ==> am * pow2(ak) < bm * pow2(ak)) by (nonlinear_arith)
            requires
                pow2(ak) > 0,
        ;
    } else if ak > bk {
        lemma_le_of_exponents(am, ak, bm, bk);
    } else {
        lemma_le_of_exponents(bm, bk, am, ak);
    }
}

proof fn lemma_le_of_exponents(am: nat, ak: nat, bm: nat, bk: nat)
    requires
        am < pow2(53),
        bm >= pow2(52),
        ak > bk,
    ensures
        am * pow2(bk) < bm * pow2(ak),
{
    lemma_pow2_ordered(bk + 1, ak);
    lemma_pow2_unfold(bk + 1);
    lemma_pow2_unfold(53);
    lemma_pow2_pos(bk);
    assert(am * pow2(bk) < bm * pow2(ak)) by (nonlinear_arith)
        requires
            am < 2 * pow2(52),
            bm >= pow2(52),
            pow2(ak) >= 2 * pow2(bk),
            pow2(bk) > 0,
    ;
}

proof fn lemma_scaled_bound(v: nat, m: nat, k: nat)
    requires
        v <= 0x1_0000_0000,
        m == 0 && k == 0 || m < pow2(53) && k >= 20,
    ensures
        scaled(v, m, k) <= 0x4_0000_0000_0000_0000,
{
    lemma2_to64();
    lemma2_to64_rest();
    let x = v * m;
    lemma_round_significand(x);
    let g = round_significand(x);
    if k == 0 {
        assert(x == 0) by (nonlinear_arith)
            requires
                x == v * m,
                m == 0,
        ;
        assert(excess_bits(0) == 0);
        assert(pow2(0) == 1 && pow2(1) == 2);
        assert(scaled(v, 0, 0) == (2 * g + pow2(0)) / pow2(1));
    } else {
        assert(x <= 0x1_0000_0000 * pow2(53)) by (nonlinear_arith)
            requires
                x == v * m,
                v <= 0x1_0000_0000,
                m < pow2(53),
        ;
        lemma_pow2_adds(32, 53);
        lemma_round_significand_monotone(x, pow2(85));
        lemma_pow2_strictly_increases(85, 86);
        lemma_excess_bits_bound(pow2(85), 33);
        lemma_round_significand(pow2(85));
        lemma_pow2_ordered(53 + excess_bits(pow2(85)), 86);
        lemma_pow2_adds(66, 20);
        lemma_pow2_ordered(20, k);
        lemma_pow2_adds(64, 2);
        lemma_pow2_unfold(k + 1);
        let t = pow2(k);
        assert(g <= pow2(66) * t) by (nonlinear_arith)
            requires
                g <= pow2(66) * pow2(20),
                t >= pow2(20),
        ;
        assert(2 * g + t < (pow2(66) + 1) * (2 * t)) by (nonlinear_arith)
            requires
                g <= pow2(66) * t,
                t > 0,
        ;
        assert((pow2(66) + 1) * (2 * t) == (2 * t) * (pow2(66) + 1)) by (nonlinear_arith);
        lemma_multiply_divide_lt((2 * g + t) as int, (2 * t) as int, (pow2(66) + 1) as int);
    }
}

fn power_of_two(e: u32) -> (r: u128)
    requires
        e <= 104,
    ensures
        r == pow2(e as nat),
        1 <= r <= 0x100_0000_0000_0000_0000_0000_0000,
{
    let mut r: u128 = 1;
    let mut i: u32 = 0;
    proof {
        lemma2_to64();
        lemma_pow2_adds(64, 40);
        lemma_pow2_adds(32, 8);
    }
    while i < e
        invariant
            i <= e <= 104,
            r == pow2(i as nat),
            pow2(104) == 0x100_0000_0000_0000_0000_0000_0000,
        decreases e - i,
    {
        proof {
            lemma_pow2_unfold((i + 1) as nat);
            lemma_pow2_ordered((i + 1) as nat, 104);
        }
        r = r * 2;
        i = i + 1;
    }
    proof {
        lemma_pow2_pos(e as nat);
        lemma_pow2_ordered(e as nat, 104);
    }
    r
}

fn divide_half_even(n: u128, d: u128) -> (r: u128)
    requires
        0 < d < 0x1000_0000_0000_0000_0000_0000_0000_0000,
        n < 0x1000_0000_0000_0000_0000_0000_0000_0000,
    ensures
        r == half_even(n as nat, d as nat),
{
    let q: u128 = n / d;
    let rest: u128 = n % d;
    proof {
        lemma_div_nonincreasing(n as int, d as int);
    }
    if 2 * rest < d || (2 * rest == d && q % 2 == 0) {
        q
    } else {
        q + 1
    }
}

fn round_to_significand(x: u128) -> (r: u128)
    requires
        x <= 0x20_0000_0000_0000_0000_0000,
    ensures
        r == round_significand(x as nat),
{
    let mut top: u128 = x;
    let mut unit: u128 = 1;
    let mut bits: u32 = 0;
    proof {
        lemma2_to64();
        lemma2_to64_rest();
        lemma_pow2_adds(64, 21);
        lemma_pow2_strictly_increases(85, 86);
        lemma_excess_bits_bound(x as nat, 33);
        lemma_excess_bits(x as nat);
        lemma_round_significand(x as nat);
        lemma_pow2_ordered(53 + excess_bits(x as nat), 86);
        lemma_pow2_unfold(86);
    }
    while top >= 0x20_0000_0000_0000
        invariant
            pow2(53) == 0x20_0000_0000_0000,
            unit == pow2(bits as nat),
            bits + excess_bits(top as nat) == excess_bits(x as nat),
            excess_bits(x as nat) <= 33,
            pow2(33) == 0x2_0000_0000,
        decreases top,
    {
        proof {
            lemma_pow2_unfold((bits + 1) as nat);
            lemma_pow2_ordered((bits + 1) as nat, 33);
        }
        top = top / 2;
        unit = unit * 2;
        bits = bits + 1;
    }
    proof {
        lemma_pow2_pos(bits as nat);
        lemma_pow2_ordered(bits as nat, 33);
    }
    divide_half_even(x, unit) * unit
}

impl Ratio {
    /// The factor that takes `logical` to `physical`.
    pub fn new(physical: u32, logical: u32) -> (r: Ratio)
        requires
            logical > 0,
        ensures
            r.wf(),
            r == Ratio::of_quotient(physical as nat, logical as nat),
    {
        proof {
            lemma_quotient(physical as nat, logical as nat);
            lemma2_to64();
            lemma2_to64_rest();
        }
        if physical == 0 {
            return Ratio { mantissa: 0, exponent: 0 };
        }
        let p: u128 = physical as u128;
        let l: u128 = logical as u128;
        let ghost k = quotient_exponent(p as nat, l as nat, 20);
        proof {
            lemma_quotient_exponent(p as nat, l as nat, 20);
            assert(l * 0x10_0000_0000_0000 < 0x1_0000_0000 * 0x10_0000_0000_0000)
                by (nonlinear_arith)
                requires
                    l < 0x1_0000_0000,
            ;
        }
        let goal: u128 = l * 0x10_0000_0000_0000;
        let mut n: u128 = p * 0x10_0000;
        let mut exponent: u32 = 20;
        while n < goal
            invariant
                20 <= exponent <= k <= 84,
                k == quotient_exponent(p as nat, l as nat, exponent as nat),
                n == p * pow2(exponent as nat),
                goal == l * pow2(52),
                goal < 0x1_0000_0000 * 0x10_0000_0000_0000,
                p >= 1,
            decreases k - exponent,
        {
            proof {
                lemma_quotient_exponent_least(p as nat, l as nat, (exponent + 1) as nat);
                lemma_pow2_unfold((exponent + 1) as nat);
                assert(p * pow2((exponent + 1) as nat) == 2 * (p * pow2(exponent as nat)))
                    by (nonlinear_arith)
                    requires
                        pow2((exponent + 1) as nat) == 2 * pow2(exponent as nat),
                ;
            }
            n = n * 2;
            exponent = exponent + 1;
        }
        let m: u128 = divide_half_even(n, l);
        proof {
            lemma_half_even_exact(pow2(53), l as nat);
            assert(pow2(53) * l == l * pow2(53)) by (nonlinear_arith);
            lemma_half_even_monotone(n as nat, pow2(53) * (l as nat), l as nat);
        }
        if m == 0x20_0000_0000_0000 {
            Ratio { mantissa: 0x10_0000_0000_0000, exponent: exponent - 1 }
        } else {
            Ratio { mantissa: m as u64, exponent }
        }
    }

    /// The factor one.
    pub fn one() -> (r: Ratio)
        ensures
            r.wf(),
            r == Ratio::unit(),
    {
        proof {
            lemma2_to64_rest();
        }
        Ratio { mantissa: 0x10_0000_0000_0000, exponent: 52 }
    }

    /// The smallest factor that a scale is taken to have.
    pub fn smallest() -> (r: Ratio)
        ensures
            r.wf(),
            r == Ratio::epsilon(),
    {
        proof {
            lemma2_to64_rest();
        }
        Ratio { mantissa: 0x10_0000_0000_0000, exponent: 104 }
    }

    /// The larger of two factors.
    pub fn max(self, other: Ratio) -> (r: Ratio)
        requires
            self.wf(),
            other.wf(),
        ensures
            r == self.larger(other),
            self.le(r),
            other.le(r),
            r.wf(),
    {
        let larger: bool = if self.mantissa == 0 {
            true
        } else if other.mantissa == 0 {
            false
        } else if self.exponent == other.exponent {
            self.mantissa <= other.mantissa
        } else {
            self.exponent > other.exponent
        };
        proof {
            lemma_le_reflexive_or_ordered(self, other, larger);
        }
        if larger {
            other
        } else {
            self
        }
    }

    /// `v` scaled by this factor, to the nearest integer, half away from zero.
    pub fn scale(self, v: i64) -> (s: i128)
        requires
            self.wf(),
            -0x1_0000_0000 <= v <= 0x1_0000_0000,
        ensures
            s == self.apply(v as int),
            -0x4_0000_0000_0000_0000 <= s <= 0x4_0000_0000_0000_0000,
    {
        let magnitude: u64 = if v < 0 {
            (-v) as u64
        } else {
            v as u64
        };
        let s: u128 = self.scale_magnitude(magnitude);
        if v < 0 {
            -(s as i128)
        } else {
            s as i128
        }
    }

    fn scale_magnitude(self, v: u64) -> (s: u128)
        requires
            self.wf(),
            v <= 0x1_0000_0000,
        ensures
            s == scaled(v as nat, self.mantissa as nat, self.exponent as nat),
            s <= 0x4_0000_0000_0000_0000,
    {
        let ghost m = self.mantissa as nat;
        let ghost k = self.exponent as nat;
        proof {
            lemma2_to64();
            lemma2_to64_rest();
            lemma_scaled_bound(v as nat, m, k);
            assert(v * m <= 0x1_0000_0000 * 0x20_0000_0000_0000) by (nonlinear_arith)
                requires
                    v <= 0x1_0000_0000,
                    m < 0x20_0000_0000_0000,
            ;
        }
        let x: u128 = (v as u128) * (self.mantissa as u128);
        let g: u128 = round_to_significand(x);
        let half: u128 = power_of_two(self.exponent);
        proof {
            lemma_pow2_unfold(k + 1);
            lemma_round_significand(x as nat);
            lemma_pow2_adds(1, 85);
            lemma_pow2_adds(32, 53);
            lemma_excess_bits_bound(x as nat, 33);
            lemma_pow2_ordered(53 + excess_bits(x as nat), 86);
            lemma_pow2_adds(33, 53);
        }
        (2 * g + half) / (2 * half)
    }
}

} // verus!
