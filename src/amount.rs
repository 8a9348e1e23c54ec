//! Fixed-point amounts with four fractional digits, and their parsing from
//! decimal text.
use std::str::FromStr;
use vstd::prelude::*;

verus! {

/// Number of fractional digits every amount carries.
pub const PRECISION: u32 = 4;

/// Largest magnitude of a decimal mantissa (96 bits).
pub const MAX_MANTISSA: i128 = 0xFFFF_FFFF_FFFF_FFFF_FFFF_FFFF;

/// Largest scale a decimal can have.
pub const MAX_SCALE: u32 = 28;

pub open spec fn pow10(n: nat) -> int
    decreases n,
{
    if n == 0 {
        1
    } else {
        10 * pow10((n - 1) as nat)
    }
}

pub open spec fn abs(x: int) -> int {
    if x < 0 {
        -x
    } else {
        x
    }
}

/// The decimal `m * 10^-s` rounded to `dp` fractional digits, half to even,
/// as a mantissa and a scale. A decimal with at most `dp` fractional digits
/// is left as it is.
pub open spec fn rounded(m: int, s: nat, dp: nat) -> (int, nat) {
    if s <= dp {
        (m, s)
    } else {
        let d = pow10((s - dp) as nat);
        let q = abs(m) / d;
        let r = abs(m) % d;
        let q2 = if 2 * r > d || (2 * r == d && q % 2 == 1) {
            q + 1
        } else {
            q
        };
        (if m < 0 {
            -q2
        } else {
            q2
        }, dp)
    }
}

/// Mantissa and scale of the decimal that `rust_decimal` reads from a text.
pub uninterp spec fn parsed_decimal(t: Seq<char>) -> Option<(int, nat)>;

/// Declared so that parsing can report the outside error.
#[verifier::external_type_specification]
#[verifier::external_body]
pub struct ExDecimalError(rust_decimal::Error);

/// Relies on `<rust_decimal::Decimal as FromStr>::from_str` to read a decimal
/// literal, and on `Decimal::mantissa` / `Decimal::scale` to take it apart; a
/// mantissa is assembled from 96 bits and a scale never exceeds `MAX_SCALE`.
#[verifier::external_body]
fn parse_decimal(t: &str) -> (r: Result<(i128, u32), rust_decimal::Error>)
    ensures
        match r {
            Ok((m, s)) => {
                &&& parsed_decimal(t@) == Some((m as int, s as nat))
                &&& -MAX_MANTISSA <= m <= MAX_MANTISSA
                &&& s <= MAX_SCALE
            },
            Err(_) => parsed_decimal(t@) is None,
        },
{
    rust_decimal::Decimal::from_str(t).map(|d| (d.mantissa(), d.scale()))
}

/// Relies on `rust_decimal::Decimal::round_dp`, which rounds half to even and
/// keeps a decimal that already has at most `dp` fractional digits.
#[verifier::external_body]
fn round_decimal(m: i128, s: u32, dp: u32) -> (r: (i128, u32))
    requires
        -MAX_MANTISSA <= m <= MAX_MANTISSA,
        s <= MAX_SCALE,
    ensures
        (r.0 as int, r.1 as nat) == rounded(m as int, s as nat, dp as nat),
{
    let d = rust_decimal::Decimal::from_i128_with_scale(m, s).round_dp(dp);
    (d.mantissa(), d.scale())
}

/// An amount of money as a whole number of ten-thousandths.
#[derive(Clone, Copy, Debug, PartialEq, Eq, Structural)]
pub struct Amount {
    pub units: i128,
}

/// Why a text is not an amount.
#[derive(Clone, Copy, Debug, PartialEq, Eq, Structural)]
pub enum AmountError {
    /// The text is not a decimal literal.
    Malformed,
}

/// The mantissa and scale that a text reads as once rounded to `precision`
/// fractional digits; the empty text reads as zero.
pub open spec fn decimal_of_text(t: Seq<char>, precision: nat) -> Option<(int, nat)> {
    if t.len() == 0 {
        Some((0, 0))
    } else {
        match parsed_decimal(t) {
            Some((m, s)) => Some(rounded(m, s, precision)),
            None => None,
        }
    }
}

/// The number of ten-thousandths that a text reads as.
pub open spec fn units_of_text(t: Seq<char>) -> Option<int> {
    match decimal_of_text(t, PRECISION as nat) {
        Some((m, s)) => Some(m * pow10((PRECISION - s) as nat)),
        None => None,
    }
}

proof fn lemma_pow10_positive(n: nat)
    ensures
        pow10(n) >= 1,
    decreases n,
{
    if n > 0 {
        lemma_pow10_positive((n - 1) as nat);
    }
}

/// Rounding never makes a mantissa larger, and leaves at most `dp` digits.
proof fn lemma_rounded_bounds(m: int, s: nat, dp: nat)
    ensures
        abs(rounded(m, s, dp).0) <= abs(m),
        rounded(m, s, dp).1 <= s,
        rounded(m, s, dp).1 <= dp || rounded(m, s, dp).1 == s,
        s <= dp ==> rounded(m, s, dp) == (m, s),
        s > dp ==> rounded(m, s, dp).1 == dp,
{
    if s > dp {
        let k = (s - dp) as nat;
        let d = pow10(k);
        lemma_pow10_positive((k - 1) as nat);
        assert(d >= 10);
        let a = abs(m);
        let q = a / d;
        let r = a % d;
        assert(a == q * d + r && 0 <= r < d && q >= 0) by (nonlinear_arith)
            requires
                a >= 0,
                d >= 10,
                q == a / d,
                r == a % d,
        ;
        if 2 * r >= d {
            assert(q + 1 <= a) by (nonlinear_arith)
                requires
                    a == q * d + r,
                    r >= 1,
                    q >= 0,
                    d >= 10,
            ;
        } else {
            assert(q <= a) by (nonlinear_arith)
                requires
                    a == q * d + r,
                    r >= 0,
                    q >= 0,
                    d >= 10,
            ;
        }
    }
}

impl Amount {
    /// The amount `num * 10^-scale`.
    pub fn new(num: i64, scale: u32) -> (r: Amount)
        requires
            scale <= PRECISION,
        ensures
            r.units == num * pow10((PRECISION - scale) as nat),
    {
        let mut units: i128 = num as i128;
        let mut k: u32 = scale;
        while k < PRECISION
            invariant
                scale <= k <= PRECISION,
                units == num * pow10((k - scale) as nat),
                i64::MIN <= num <= i64::MAX,
            decreases PRECISION - k,
        {
            assert(pow10((k + 1 - scale) as nat) == 10 * pow10((k - scale) as nat));
            proof { lemma_pow10_positive((k - scale) as nat); }
            assert(pow10((k - scale) as nat) <= 1000) by {
                reveal_with_fuel(pow10, 4);
            }
            assert(num * pow10((k + 1 - scale) as nat) == 10 * (num * pow10((k - scale) as nat)))
                by (nonlinear_arith)
                requires
                    pow10((k + 1 - scale) as nat) == 10 * pow10((k - scale) as nat),
            ;
            assert(-100_000_000_000_000_000_000_000 <= units <= 100_000_000_000_000_000_000_000)
                by (nonlinear_arith)
                requires
                    units == num * pow10((k - scale) as nat),
                    1 <= pow10((k - scale) as nat) <= 1000,
                    -10_000_000_000_000_000_000 <= num <= 10_000_000_000_000_000_000,
            ;
            units = units * 10;
            k = k + 1;
        }
        Amount { units }
    }

    /// The amount zero.
    pub fn zero() -> (r: Amount)
        ensures
            r.units == 0,
    {
        Amount { units: 0 }
    }
}

/// Reads a decimal literal and rounds it half to even to `precision`
/// fractional digits, giving its mantissa and scale. The empty text reads as
/// zero.
pub fn from_string_with_precision(val: &str, precision: u32) -> (r: Result<(i128, u32), AmountError>)
    ensures
        match r {
            Ok((m, s)) => decimal_of_text(val@, precision as nat) == Some((m as int, s as nat)),
            Err(e) => decimal_of_text(val@, precision as nat) is None && e == AmountError::Malformed,
        },
        r is Ok ==> r->Ok_0.1 <= MAX_SCALE && -MAX_MANTISSA <= r->Ok_0.0 <= MAX_MANTISSA,
{
    if val.is_empty() {
        Ok((0, 0))
    } else {
        match parse_decimal(val) {
            Ok((m, s)) => {
                proof {
                    lemma_rounded_bounds(m as int, s as nat, precision as nat);
                }
                Ok(round_decimal(m, s, precision))
            },
            Err(_) => Err(AmountError::Malformed),
        }
    }
}

/// Reads an amount field: a decimal literal rounded half to even to four
/// fractional digits, the empty text being zero.
pub fn deserialize_with_precision_of_4(text: &str) -> (r: Result<Amount, AmountError>)
    ensures
        match r {
            Ok(a) => units_of_text(text@) == Some(a.units as int),
            Err(e) => units_of_text(text@) is None && e == AmountError::Malformed,
        },
{
    match from_string_with_precision(text, PRECISION) {
        Ok((m, s)) => {
            proof {
                if text@.len() != 0 {
                    let (m0, s0) = parsed_decimal(text@)->Some_0;
                    lemma_rounded_bounds(m0, s0, PRECISION as nat);
                }
            }
            assert(s <= PRECISION);
            let mut units: i128 = m;
            let mut k: u32 = s;
            while k < PRECISION
                invariant
                    s <= k <= PRECISION,
                    units == m * pow10((k - s) as nat),
                    -MAX_MANTISSA <= m <= MAX_MANTISSA,
                decreases PRECISION - k,
            {
                assert(pow10((k + 1 - s) as nat) == 10 * pow10((k - s) as nat));
                proof { lemma_pow10_positive((k - s) as nat); }
                assert(pow10((k - s) as nat) <= 1000) by {
                    reveal_with_fuel(pow10, 4);
                }
                assert(m * pow10((k + 1 - s) as nat) == 10 * (m * pow10((k - s) as nat)))
                    by (nonlinear_arith)
                    requires
                        pow10((k + 1 - s) as nat) == 10 * pow10((k - s) as nat),
                ;
                assert(-MAX_MANTISSA * 1000 <= units <= MAX_MANTISSA * 1000) by (nonlinear_arith)
                    requires
                        units == m * pow10((k - s) as nat),
                        1 <= pow10((k - s) as nat) <= 1000,
                        -MAX_MANTISSA <= m <= MAX_MANTISSA,
                ;
                units = units * 10;
                k = k + 1;
            }
            Ok(Amount { units })
        },
        Err(e) => Err(e),
    }
}

} // verus!
