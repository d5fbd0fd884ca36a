//! Saturating parts-per-billion fractions and exact floor-rational splits.
//!
//! All fractional computation in the reward and slashing engines uses
//! non-overflowing fixed-point ratios, rounding down per recipient.

use vstd::prelude::*;

verus! {

/// The denominator of a [`Perbill`]: one billion parts make one whole.
pub const BILLION: u32 = 1_000_000_000;

/// What a floor-rational split pays: `x * num / den`, rounded down, with a
/// zero denominator paying nothing.
pub open spec fn spec_ratio_floor(x: int, num: int, den: int) -> int {
    if den == 0 {
        0
    } else {
        (x * num) / den
    }
}

/// `x * num / den`, rounded down; zero when `den` is zero.
///
/// The result never exceeds `x` when `num <= den`.
pub fn ratio_floor(x: u64, num: u64, den: u64) -> (r: u64)
    requires
        num <= den,
    ensures
        r as int == spec_ratio_floor(x as int, num as int, den as int),
        r <= x,
{
    if den == 0 {
        return 0;
    }
    proof {
        assert((x as int) * (num as int) <= (u64::MAX as int) * (u64::MAX as int))
            by (nonlinear_arith)
            requires
                0 <= x as int <= u64::MAX as int,
                0 <= num as int <= u64::MAX as int,
        ;
    }
    let wide: u128 = (x as u128) * (num as u128) / (den as u128);
    proof {
        assert((x as int) * (num as int) <= (x as int) * (den as int)) by (nonlinear_arith)
            requires
                num <= den,
                x >= 0,
        ;
        assert((x as int) * (den as int) / (den as int) == x as int) by (nonlinear_arith)
            requires
                den > 0,
                x >= 0,
        ;
        vstd::arithmetic::div_mod::lemma_div_is_ordered(
            (x as int) * (num as int),
            (x as int) * (den as int),
            den as int,
        );
        assert((x as int) * (num as int) >= 0) by (nonlinear_arith)
            requires
                x >= 0,
                num >= 0,
        ;
        vstd::arithmetic::div_mod::lemma_div_is_ordered(0, (x as int) * (num as int), den as int);
    }
    wide as u64
}

/// A fraction of one whole, in parts per billion, saturating at one.
#[derive(Clone, Copy, PartialEq, Eq, Structural, Debug)]
pub struct Perbill {
    parts: u32,
}

impl Perbill {
    /// The numerator, out of [`BILLION`].
    pub closed spec fn spec_parts(&self) -> int {
        self.parts as int
    }

    /// A fraction never exceeds one whole.
    pub open spec fn wf(&self) -> bool {
        0 <= self.spec_parts() <= BILLION
    }

    /// The fraction `parts / BILLION`, clamped to one whole.
    pub fn from_parts(parts: u32) -> (r: Self)
        ensures
            r.wf(),
            r.spec_parts() == if parts <= BILLION {
                parts as int
            } else {
                BILLION as int
            },
    {
        Perbill { parts: if parts <= BILLION { parts } else { BILLION } }
    }

    /// The fraction `p / 100`, clamped to one whole.
    pub fn from_percent(p: u32) -> (r: Self)
        ensures
            r.wf(),
            r.spec_parts() == if p <= 100 {
                p as int * 10_000_000
            } else {
                BILLION as int
            },
    {
        let capped: u32 = if p <= 100 { p } else { 100 };
        proof {
            assert(capped as int * 10_000_000 <= 100 * 10_000_000) by (nonlinear_arith)
                requires
                    capped <= 100,
            ;
        }
        Perbill { parts: capped * 10_000_000 }
    }

    /// The zero fraction, as a specification value.
    pub closed spec fn spec_zero() -> Self {
        Perbill { parts: 0 }
    }

    /// The zero fraction is well-formed and has no parts.
    pub proof fn lemma_spec_zero()
        ensures
            Self::spec_zero().wf(),
            Self::spec_zero().spec_parts() == 0,
    {
    }

    /// The zero fraction.
    pub fn zero() -> (r: Self)
        ensures
            r.wf(),
            r.spec_parts() == 0,
            r == Self::spec_zero(),
    {
        Perbill { parts: 0 }
    }

    /// One whole.
    pub fn one() -> (r: Self)
        ensures
            r.wf(),
            r.spec_parts() == BILLION as int,
    {
        Perbill { parts: BILLION }
    }

    /// Whether this is the zero fraction.
    pub fn is_zero(&self) -> (r: bool)
        ensures
            r == (self.spec_parts() == 0),
    {
        self.parts == 0
    }

    /// The fraction `p / q`, rounded down, with `p` capped at `q` and a zero
    /// `q` treated as one.
    pub fn from_rational(p: u64, q: u64) -> (r: Self)
        ensures
            r.wf(),
            r.spec_parts() == {
                let den = if q == 0 {
                    1int
                } else {
                    q as int
                };
                let num = if p as int <= den {
                    p as int
                } else {
                    den
                };
                (num * BILLION) / den
            },
    {
        let den: u64 = if q == 0 { 1 } else { q };
        let num: u64 = if p <= den { p } else { den };
        proof {
            assert((num as int) * (BILLION as int) <= (u64::MAX as int) * (u64::MAX as int))
                by (nonlinear_arith)
                requires
                    0 <= num as int <= u64::MAX as int,
                    0 <= BILLION as int <= u64::MAX as int,
            ;
        }
        let wide: u128 = (num as u128) * (BILLION as u128) / (den as u128);
        proof {
            let n = num as int;
            let d = den as int;
            let b = BILLION as int;
            assert(n * b <= d * b) by (nonlinear_arith)
                requires
                    0 <= n <= d,
                    b >= 0,
            ;
            assert(d * b / d == b) by (nonlinear_arith)
                requires
                    d > 0,
                    b >= 0,
            ;
            vstd::arithmetic::div_mod::lemma_div_is_ordered(n * b, d * b, d);
            assert(n * b >= 0) by (nonlinear_arith)
                requires
                    n >= 0,
                    b >= 0,
            ;
            vstd::arithmetic::div_mod::lemma_div_is_ordered(0, n * b, d);
        }
        Perbill { parts: wide as u32 }
    }

    /// This fraction of `x`, rounded down.
    pub fn mul_floor(&self, x: u64) -> (r: u64)
        requires
            self.wf(),
        ensures
            r as int == spec_ratio_floor(x as int, self.spec_parts(), BILLION as int),
            r <= x,
    {
        proof {
            assert((x as int) * (self.spec_parts()) <= (u64::MAX as int) * (u64::MAX as int))
                by (nonlinear_arith)
                requires
                    0 <= x as int <= u64::MAX as int,
                    0 <= self.spec_parts() <= u64::MAX as int,
            ;
        }
        let wide: u128 = (x as u128) * (self.parts as u128) / (BILLION as u128);
        proof {
            let b = BILLION as int;
            let p = self.spec_parts();
            assert((x as int) * p <= (x as int) * b) by (nonlinear_arith)
                requires
                    0 <= p <= b,
                    x >= 0,
            ;
            assert((x as int) * b / b == x as int) by (nonlinear_arith)
                requires
                    b > 0,
                    x >= 0,
            ;
            vstd::arithmetic::div_mod::lemma_div_is_ordered((x as int) * p, (x as int) * b, b);
            assert((x as int) * p >= 0) by (nonlinear_arith)
                requires
                    x >= 0,
                    p >= 0,
            ;
            vstd::arithmetic::div_mod::lemma_div_is_ordered(0, (x as int) * p, b);
        }
        wide as u64
    }
}

/// The sum of a sequence of stake values.
pub open spec fn sum_values(s: Seq<u64>) -> int
    decreases s.len(),
{
    if s.len() == 0 {
        0
    } else {
        sum_values(s.drop_last()) + s.last()
    }
}

/// Every value is bounded by the sum of all values.
pub proof fn lemma_sum_values_element_le(s: Seq<u64>, i: int)
    requires
        0 <= i < s.len(),
    ensures
        s[i] <= sum_values(s),
    decreases s.len(),
{
    if i + 1 == s.len() {
        lemma_sum_values_nonneg(s.drop_last());
    } else {
        lemma_sum_values_element_le(s.drop_last(), i);
        assert(s.drop_last()[i] == s[i]);
    }
}

/// Removing one value removes exactly its contribution from the sum.
pub proof fn lemma_sum_values_remove(s: Seq<u64>, i: int)
    requires
        0 <= i < s.len(),
    ensures
        sum_values(s.remove(i)) == sum_values(s) - s[i],
    decreases s.len(),
{
    if i == s.len() - 1 {
        assert(s.remove(i) =~= s.drop_last());
    } else {
        let t = s.remove(i);
        assert(t.drop_last() =~= s.drop_last().remove(i));
        assert(t.last() == s.last());
        lemma_sum_values_remove(s.drop_last(), i);
    }
}

/// The sum of the floor-rational payouts `s[i] * l / t` over a sequence of
/// stake values.
pub open spec fn sum_ratio_floor(s: Seq<u64>, l: int, t: int) -> int
    decreases s.len(),
{
    if s.len() == 0 {
        0
    } else {
        sum_ratio_floor(s.drop_last(), l, t) + spec_ratio_floor(s.last() as int, l, t)
    }
}

/// Sums of stake values are non-negative.
pub proof fn lemma_sum_values_nonneg(s: Seq<u64>)
    ensures
        sum_values(s) >= 0,
    decreases s.len(),
{
    if s.len() > 0 {
        lemma_sum_values_nonneg(s.drop_last());
    }
}

/// The floor-rational payouts, summed, sit within `t - 1` units times the
/// count of the exact rational total:
/// `t * paid <= sum * l <= t * paid + (t - 1) * count`.
pub proof fn lemma_sum_ratio_floor_bounds(s: Seq<u64>, l: int, t: int)
    requires
        t > 0,
        l >= 0,
    ensures
        t * sum_ratio_floor(s, l, t) <= sum_values(s) * l,
        sum_values(s) * l <= t * sum_ratio_floor(s, l, t) + (t - 1) * s.len(),
    decreases s.len(),
{
    if s.len() == 0 {
        assert(sum_values(s) * l == 0) by (nonlinear_arith)
            requires
                sum_values(s) == 0,
        ;
        assert(t * sum_ratio_floor(s, l, t) == 0) by (nonlinear_arith)
            requires
                sum_ratio_floor(s, l, t) == 0,
        ;
        assert((t - 1) * s.len() == 0) by (nonlinear_arith)
            requires
                s.len() == 0,
        ;
    } else {
        let prefix = s.drop_last();
        lemma_sum_ratio_floor_bounds(prefix, l, t);
        let v = s.last() as int;
        let a = v * l;
        let q = a / t;
        let pp = sum_ratio_floor(prefix, l, t);
        let sv = sum_values(prefix);
        let n = prefix.len() as int;
        assert(v * l >= 0) by (nonlinear_arith)
            requires
                v >= 0,
                l >= 0,
        ;
        vstd::arithmetic::div_mod::lemma_fundamental_div_mod(a, t);
        vstd::arithmetic::div_mod::lemma_mod_bound(a, t);
        // a == t * q + a % t with 0 <= a % t < t, hence t * q <= a < t * q + t
        assert(sum_ratio_floor(s, l, t) == pp + q);
        assert(sum_values(s) == sv + v);
        assert(t * (pp + q) == t * pp + t * q) by (nonlinear_arith);
        assert((sv + v) * l == sv * l + v * l) by (nonlinear_arith);
        assert((t - 1) * (n + 1) == (t - 1) * n + (t - 1)) by (nonlinear_arith);
        assert(s.len() == n + 1);
        assert(v * l <= t * q + (t - 1));
        assert(sv * l <= t * pp + (t - 1) * n);
        assert((sv + v) * l <= (t * pp + t * q) + ((t - 1) * n + (t - 1)));
        assert(t * sum_ratio_floor(s, l, t) + (t - 1) * s.len() == (t * pp + t * q) + ((t - 1) * n
            + (t - 1)));
    }
}

/// With no backing at all, every floor-rational payout is zero.
pub proof fn lemma_sum_ratio_floor_zero_den(s: Seq<u64>, l: int)
    ensures
        sum_ratio_floor(s, l, 0) == 0,
    decreases s.len(),
{
    if s.len() > 0 {
        lemma_sum_ratio_floor_zero_den(s.drop_last(), l);
    }
}

/// When the stakes sum to no more than the backing total, the floor-rational
/// payouts sum to no more than the amount split.
pub proof fn lemma_sum_ratio_floor_le(s: Seq<u64>, l: int, t: int)
    requires
        t > 0,
        l >= 0,
        sum_values(s) <= t,
    ensures
        sum_ratio_floor(s, l, t) <= l,
    decreases s.len(),
{
    lemma_sum_ratio_floor_bounds(s, l, t);
    assert(sum_values(s) * l <= t * l) by (nonlinear_arith)
        requires
            sum_values(s) <= t,
            l >= 0,
    ;
    assert(sum_ratio_floor(s, l, t) <= l) by (nonlinear_arith)
        requires
            t * sum_ratio_floor(s, l, t) <= t * l,
            t > 0,
    ;
}

/// When the stakes sum to exactly the backing total, the floor-rational
/// payouts fall short of the amount split by strictly fewer units than there
/// are stakes.
pub proof fn lemma_sum_ratio_floor_deficit(s: Seq<u64>, l: int, t: int)
    requires
        t > 0,
        l >= 0,
        sum_values(s) == t,
    ensures
        sum_ratio_floor(s, l, t) <= l,
        l - sum_ratio_floor(s, l, t) < s.len(),
{
    lemma_sum_ratio_floor_bounds(s, l, t);
    lemma_sum_ratio_floor_le(s, l, t);
    let paid = sum_ratio_floor(s, l, t);
    assert(t * l <= t * paid + (t - 1) * (s.len() as int)) by (nonlinear_arith)
        requires
            sum_values(s) * l <= t * paid + (t - 1) * (s.len() as int),
            sum_values(s) == t,
    ;
    assert((t - 1) * (s.len() as int) < t * (s.len() as int)) by (nonlinear_arith)
        requires
            t > 0,
            s.len() > 0,
    ;
    assert(l < paid + s.len()) by (nonlinear_arith)
        requires
            t * l < t * paid + t * (s.len() as int),
            t > 0,
    ;
}

} // verus!
