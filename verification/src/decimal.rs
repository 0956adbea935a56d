//! Fixed-point decimal numbers.
//!
//! Money and decimal cells carry their value as an integer mantissa
//! scaled by a power of ten: the pair `(mantissa, scale)` denotes
//! `mantissa / 10^scale`. All range comparisons on such values go
//! through [`ScaledDecimal::le`], which is exact (no rounding).

use vstd::prelude::*;

verus! {

/// `10^e` as a mathematical integer.
pub open spec fn pow10(e: nat) -> int
    decreases e,
{
    if e == 0 {
        1
    } else {
        10 * pow10((e - 1) as nat)
    }
}

pub proof fn lemma_pow10_positive(e: nat)
    ensures
        pow10(e) >= 1,
    decreases e,
{
    if e > 0 {
        lemma_pow10_positive((e - 1) as nat);
    }
}

pub proof fn lemma_pow10_increases(a: nat, b: nat)
    requires
        a <= b,
    ensures
        pow10(a) <= pow10(b),
    decreases b,
{
    if a < b {
        lemma_pow10_increases(a, (b - 1) as nat);
        lemma_pow10_positive((b - 1) as nat);
    }
}

/// The numeric value of the largest allowed denominator.
pub proof fn lemma_pow10_max_value()
    ensures
        pow10(MAX_DECIMAL_SCALE as nat) == 1_000_000_000_000_000_000,
{
    reveal_with_fuel(pow10, 19);
}

/// A decimal number `mantissa / 10^scale`, exact and free of rounding.
///
/// The scale is capped so that cross-multiplied comparisons fit in
/// 128-bit arithmetic.
#[derive(Clone, Copy, PartialEq, Eq, Structural, Debug)]
pub struct ScaledDecimal {
    pub mantissa: i64,
    pub scale: u32,
}

/// The largest scale a decimal value may carry.
pub const MAX_DECIMAL_SCALE: u32 = 18;

impl ScaledDecimal {
    /// The denominator stays small enough for exact 128-bit comparison.
    pub open spec fn wf(self) -> bool {
        self.scale <= MAX_DECIMAL_SCALE
    }

    /// `self <= other` as rational numbers:
    /// `ma / 10^sa <= mb / 10^sb` iff `ma * 10^sb <= mb * 10^sa`.
    pub open spec fn le_spec(self, other: ScaledDecimal) -> bool {
        self.mantissa * pow10(other.scale as nat) <= other.mantissa * pow10(
            self.scale as nat,
        )
    }

    /// Exact comparison by cross-multiplication in 128-bit arithmetic.
    pub fn le(&self, other: &ScaledDecimal) -> (r: bool)
        requires
            self.wf(),
            other.wf(),
        ensures
            r == self.le_spec(*other),
    {
        let pa: u64 = pow10_exec(other.scale);
        let pb: u64 = pow10_exec(self.scale);
        proof {
            lemma_pow10_increases(other.scale as nat, MAX_DECIMAL_SCALE as nat);
            lemma_pow10_increases(self.scale as nat, MAX_DECIMAL_SCALE as nat);
            lemma_pow10_positive(other.scale as nat);
            lemma_pow10_positive(self.scale as nat);
            lemma_pow10_max_value();
            assert(self.mantissa * pa <= i128::MAX && self.mantissa * pa >= i128::MIN) by (nonlinear_arith)
                requires
                    1 <= pa <= 1_000_000_000_000_000_000,
                    i64::MIN <= self.mantissa <= i64::MAX,
            ;
            assert(other.mantissa * pb <= i128::MAX && other.mantissa * pb >= i128::MIN)
                by (nonlinear_arith)
                requires
                    1 <= pb <= 1_000_000_000_000_000_000,
                    i64::MIN <= other.mantissa <= i64::MAX,
            ;
        }
        (self.mantissa as i128) * (pa as i128) <= (other.mantissa as i128) * (pb as i128)
    }
}

/// `10^e` as a machine integer.
pub fn pow10_exec(e: u32) -> (r: u64)
    requires
        e <= MAX_DECIMAL_SCALE,
    ensures
        r == pow10(e as nat),
{
    let mut r: u64 = 1;
    let mut i: u32 = 0;
    while i < e
        invariant
            i <= e <= MAX_DECIMAL_SCALE,
            r == pow10(i as nat),
        decreases e - i,
    {
        proof {
            lemma_pow10_increases(i as nat, (MAX_DECIMAL_SCALE - 1) as nat);
            assert(pow10((MAX_DECIMAL_SCALE - 1) as nat) == 100_000_000_000_000_000) by {
                reveal_with_fuel(pow10, 18);
            }
        }
        r = r * 10;
        i = i + 1;
    }
    r
}

} // verus!
