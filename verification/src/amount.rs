//! Decimal amounts, and how they are rounded to the ledger's precision.
//!
//! A record carries a decimal of up to 28 fractional digits. The ledger keeps
//! four of them: every balance is a whole number of *units*, one unit being
//! `10^-4`. The two operations on decimals that the ledger takes from
//! `rust_decimal` (rounding and comparing) are called here, on plain integers.

use vstd::prelude::*;

verus! {

/// Number of fractional digits kept by every balance.
pub const PRECISION: u32 = 4;

/// Largest scale a decimal can carry.
pub const MAX_SCALE: u32 = 28;

/// Largest magnitude of a decimal's mantissa: `2^96 - 1`.
pub const MAX_MANTISSA: i128 = 79_228_162_514_264_337_593_543_950_335;

/// `10^n`.
pub open spec fn pow10(n: nat) -> nat
    decreases n,
{
    if n == 0 {
        1
    } else {
        10 * pow10((n - 1) as nat)
    }
}

/// `a / d` rounded to the nearest whole number, a tie going to the even one.
pub open spec fn round_magnitude(a: nat, d: nat) -> nat {
    let q = a / d;
    let r = a % d;
    if 2 * r > d || (2 * r == d && q % 2 == 1) {
        q + 1
    } else {
        q
    }
}

/// `m / d` rounded half to even; the sign is kept and the magnitude rounded.
pub open spec fn round_half_even(m: int, d: nat) -> int {
    if m >= 0 {
        round_magnitude(m as nat, d) as int
    } else {
        -(round_magnitude((-m) as nat, d) as int)
    }
}

/// Mantissa and scale of `mantissa * 10^(-scale)` rounded half to even to at
/// most `dp` fractional digits. A decimal that has no more than `dp` digits
/// is left as it is.
pub open spec fn rounded(mantissa: int, scale: nat, dp: nat) -> (int, nat) {
    if scale <= dp {
        (mantissa, scale)
    } else {
        (round_half_even(mantissa, pow10((scale - dp) as nat)), dp)
    }
}

/// The mantissas and scales that make a decimal: a scale of at most 28 and a
/// mantissa of at most 96 bits.
pub open spec fn is_decimal(mantissa: int, scale: nat) -> bool {
    &&& scale <= MAX_SCALE
    &&& -MAX_MANTISSA <= mantissa <= MAX_MANTISSA
}

/// Whether `units` units can be held in a balance.
pub open spec fn in_range(units: int) -> bool {
    -MAX_MANTISSA <= units <= MAX_MANTISSA
}

/// A decimal number `mantissa * 10^(-scale)`, as a record carries it.
#[derive(Clone, Copy, Debug, PartialEq, Eq, Structural)]
pub struct Amount {
    pub mantissa: i128,
    pub scale: u32,
}

impl Amount {
    /// The amounts that are decimals.
    pub open spec fn valid(self) -> bool {
        is_decimal(self.mantissa as int, self.scale as nat)
    }

    /// This amount in units, after rounding half to even to four fractional
    /// digits.
    pub open spec fn units(self) -> int {
        let r = rounded(self.mantissa as int, self.scale as nat, PRECISION as nat);
        r.0 * pow10((PRECISION - r.1) as nat)
    }

    /// Whether this amount, before any rounding, is at most `units` units.
    pub open spec fn covered_by(self, units: int) -> bool {
        units * pow10(self.scale as nat) >= self.mantissa * pow10(PRECISION as nat)
    }

    /// An amount of `units` units.
    pub fn from_units(units: i64) -> (r: Amount)
        ensures
            r == (Amount { mantissa: units as i128, scale: PRECISION }),
            r.valid(),
            r.units() == units,
    {
        proof {
            reveal_with_fuel(pow10, 2);
        }
        Amount { mantissa: units as i128, scale: PRECISION }
    }

    /// Whether this amount is a decimal.
    pub fn is_valid(&self) -> (r: bool)
        ensures
            r == self.valid(),
    {
        self.scale <= MAX_SCALE && -MAX_MANTISSA <= self.mantissa && self.mantissa
            <= MAX_MANTISSA
    }

    /// This amount in units, rounded to four fractional digits.
    pub fn to_units(&self) -> (r: i128)
        requires
            self.valid(),
        ensures
            r == self.units(),
            -MAX_MANTISSA * 10_000 <= r <= MAX_MANTISSA * 10_000,
    {
        let r: (i128, u32) = round_dp(self.mantissa, self.scale, PRECISION);
        let factor: i128 = pow10_small(PRECISION - r.1);
        proof {
            lemma_rounded_bound(self.mantissa as int, self.scale as nat, PRECISION as nat);
            lemma_pow10_small();
            assert(-MAX_MANTISSA * 10_000 <= r.0 * factor <= MAX_MANTISSA * 10_000)
                by (nonlinear_arith)
                requires
                    -MAX_MANTISSA <= r.0 <= MAX_MANTISSA,
                    1 <= factor <= 10_000,
            ;
        }
        r.0 * factor
    }

    /// Whether a balance of `units` units is at least this amount, compared
    /// before any rounding.
    pub fn is_covered_by(&self, units: i128) -> (r: bool)
        requires
            self.valid(),
            in_range(units as int),
        ensures
            r == self.covered_by(units as int),
    {
        decimal_ge(units, PRECISION, self.mantissa, self.scale)
    }
}

/// `10^n` for the few exponents that bring a decimal up to four digits.
fn pow10_small(n: u32) -> (r: i128)
    requires
        n <= PRECISION,
    ensures
        r == pow10(n as nat),
        1 <= r <= 10_000,
{
    let mut r: i128 = 1;
    let mut i: u32 = 0;
    while i < n
        invariant
            i <= n <= PRECISION,
            r == pow10(i as nat),
            1 <= r,
            i == 0 ==> r == 1,
            i == 1 ==> r == 10,
            i == 2 ==> r == 100,
            i == 3 ==> r == 1_000,
            i == 4 ==> r == 10_000,
        decreases n - i,
    {
        r = r * 10;
        i = i + 1;
    }
    r
}

/// `pow10` on the exponents up to four.
pub proof fn lemma_pow10_small()
    ensures
        pow10(0) == 1,
        pow10(1) == 10,
        pow10(2) == 100,
        pow10(3) == 1_000,
        pow10(4) == 10_000,
{
    reveal_with_fuel(pow10, 5);
}

/// Every power of ten is positive.
pub proof fn lemma_pow10_positive(n: nat)
    ensures
        pow10(n) >= 1,
    decreases n,
{
    if n > 0 {
        lemma_pow10_positive((n - 1) as nat);
    }
}

/// Rounding by a divisor of at least two never grows the magnitude.
pub proof fn lemma_round_magnitude_bound(a: nat, d: nat)
    requires
        d >= 2,
    ensures
        round_magnitude(a, d) <= a,
{
    let q = a / d;
    let r = a % d;
    assert(a == d * q + r && 0 <= r < d) by (nonlinear_arith)
        requires
            q == a / d,
            r == a % d,
            d >= 2,
    ;
    assert(q >= 1 ==> d * q >= q + 1) by (nonlinear_arith)
        requires
            d >= 2,
    ;
    if q == 0 {
        assert(d * q == 0) by (nonlinear_arith)
            requires
                q == 0,
        ;
    }
}

/// Rounding a decimal gives a decimal: the scale does not grow, and neither
/// does the magnitude of the mantissa.
pub proof fn lemma_rounded_bound(mantissa: int, scale: nat, dp: nat)
    requires
        is_decimal(mantissa, scale),
    ensures
        is_decimal(rounded(mantissa, scale, dp).0, rounded(mantissa, scale, dp).1),
        rounded(mantissa, scale, dp).1 == if scale <= dp {
            scale
        } else {
            dp
        },
{
    if scale > dp {
        let d = pow10((scale - dp) as nat);
        lemma_pow10_positive((scale - dp - 1) as nat);
        if mantissa >= 0 {
            lemma_round_magnitude_bound(mantissa as nat, d);
        } else {
            lemma_round_magnitude_bound((-mantissa) as nat, d);
        }
    }
}

/// What `rust_decimal::Decimal::round_dp` returns for the decimal
/// `mantissa * 10^(-scale)`, as mantissa and scale.
///
/// Trusted: a decimal with at most `dp` fractional digits comes back as it
/// went in; any other comes back with exactly `dp` digits, its magnitude
/// rounded to the nearest and a tie to the even neighbour, its sign kept.
#[verifier::external_body]
fn round_dp(mantissa: i128, scale: u32, dp: u32) -> (r: (i128, u32))
    requires
        is_decimal(mantissa as int, scale as nat),
    ensures
        r.0 == rounded(mantissa as int, scale as nat, dp as nat).0,
        r.1 == rounded(mantissa as int, scale as nat, dp as nat).1,
{
    let d = rust_decimal::Decimal::from_i128_with_scale(mantissa, scale).round_dp(dp);
    (d.mantissa(), d.scale())
}

/// `>=` of `rust_decimal::Decimal` on the decimals
/// `left_mantissa * 10^(-left_scale)` and `right_mantissa * 10^(-right_scale)`.
///
/// Trusted: the comparison is by numeric value, whatever the two scales are.
#[verifier::external_body]
fn decimal_ge(left_mantissa: i128, left_scale: u32, right_mantissa: i128, right_scale: u32) -> (r:
    bool)
    requires
        is_decimal(left_mantissa as int, left_scale as nat),
        is_decimal(right_mantissa as int, right_scale as nat),
    ensures
        r == (left_mantissa * pow10(right_scale as nat) >= right_mantissa * pow10(
            left_scale as nat,
        )),
{
    rust_decimal::Decimal::from_i128_with_scale(left_mantissa, left_scale)
        >= rust_decimal::Decimal::from_i128_with_scale(right_mantissa, right_scale)
}

} // verus!
