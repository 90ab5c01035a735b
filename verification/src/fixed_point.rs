//! Fixed-point numbers with 48 fractional bits, for prices and fee rates.

use vstd::prelude::*;

verus! {

/// One, in the representation of [`I80F48`]: two to the power 48.
pub open spec fn frac_unit() -> int {
    0x1_0000_0000_0000
}

/// `v` can be held in 128 signed bits.
pub open spec fn fits_i128(v: int) -> bool {
    i128::MIN <= v <= i128::MAX
}

/// Representation of the product of two fixed-point numbers: the exact
/// product rounded down to a multiple of the smallest step.
pub open spec fn mul_bits(a: int, b: int) -> int {
    (a * b) / frac_unit()
}

/// Quotient of two integers rounded towards zero.
pub open spec fn div_to_zero(n: int, d: int) -> int
    recommends
        d != 0,
{
    if n >= 0 && d > 0 {
        n / d
    } else if n >= 0 {
        -(n / (-d))
    } else if d > 0 {
        -((-n) / d)
    } else {
        (-n) / (-d)
    }
}

/// Representation of the quotient of two fixed-point numbers: the exact
/// quotient rounded towards zero to a multiple of the smallest step.
pub open spec fn div_bits(a: int, b: int) -> int
    recommends
        b != 0,
{
    div_to_zero(a * frac_unit(), b)
}

/// Product of two fixed-point numbers given by their representations.
///
/// Calls `checked_mul` of the `fixed` crate on `FixedI128` with 48 fractional
/// bits. That function forms the exact 256-bit product, shifts it right by 48
/// bits, which rounds down, and reports overflow when the shifted value does
/// not fit in 128 signed bits. The contract states exactly that.
#[verifier::external_body]
fn fixed_checked_mul(a: i128, b: i128) -> (r: Option<i128>)
    ensures
        fits_i128(mul_bits(a as int, b as int)) ==> r == Some(mul_bits(a as int, b as int) as i128),
        !fits_i128(mul_bits(a as int, b as int)) ==> r.is_none(),
{
    let x = fixed::types::I80F48::from_bits(a);
    let y = fixed::types::I80F48::from_bits(b);
    match x.checked_mul(y) {
        Some(p) => Some(p.to_bits()),
        None => None,
    }
}

/// Quotient of two fixed-point numbers given by their representations.
///
/// Calls `checked_div` of the `fixed` crate on `FixedI128` with 48 fractional
/// bits. That function returns nothing for a zero divisor; otherwise it widens
/// the dividend to 256 bits, shifts it left by 48 bits, divides the magnitudes
/// and restores the sign, which rounds towards zero, and reports overflow when
/// the quotient does not fit in 128 signed bits. The contract states exactly
/// that.
#[verifier::external_body]
fn fixed_checked_div(a: i128, b: i128) -> (r: Option<i128>)
    ensures
        b != 0 && fits_i128(div_bits(a as int, b as int)) ==> r == Some(
            div_bits(a as int, b as int) as i128,
        ),
        b == 0 || !fits_i128(div_bits(a as int, b as int)) ==> r.is_none(),
{
    let x = fixed::types::I80F48::from_bits(a);
    let y = fixed::types::I80F48::from_bits(b);
    match x.checked_div(y) {
        Some(q) => Some(q.to_bits()),
        None => None,
    }
}

/// A signed fixed-point number with 80 integer and 48 fractional bits, held as
/// its 128-bit representation: the number is `bits / 2^48`.
#[derive(Clone, Copy, Debug, PartialEq, Eq, Structural)]
pub struct I80F48 {
    pub bits: i128,
}

impl I80F48 {
    /// The number with the given representation.
    pub open spec fn of_bits(bits: int) -> I80F48
        recommends
            fits_i128(bits),
    {
        I80F48 { bits: bits as i128 }
    }

    /// The fixed-point number equal to the integer `n`.
    pub open spec fn of_int(n: int) -> I80F48 {
        I80F48 { bits: (n * frac_unit()) as i128 }
    }

    /// The largest integer that is not above the number.
    pub open spec fn floor_int(self) -> int {
        self.bits as int / frac_unit()
    }

    pub open spec fn spec_checked_add(self, rhs: I80F48) -> Option<I80F48> {
        if fits_i128(self.bits + rhs.bits) {
            Some(I80F48::of_bits(self.bits + rhs.bits))
        } else {
            None
        }
    }

    pub open spec fn spec_checked_sub(self, rhs: I80F48) -> Option<I80F48> {
        if fits_i128(self.bits - rhs.bits) {
            Some(I80F48::of_bits(self.bits - rhs.bits))
        } else {
            None
        }
    }

    pub open spec fn spec_checked_mul(self, rhs: I80F48) -> Option<I80F48> {
        if fits_i128(mul_bits(self.bits as int, rhs.bits as int)) {
            Some(I80F48::of_bits(mul_bits(self.bits as int, rhs.bits as int)))
        } else {
            None
        }
    }

    pub open spec fn spec_checked_div(self, rhs: I80F48) -> Option<I80F48> {
        if rhs.bits != 0 && fits_i128(div_bits(self.bits as int, rhs.bits as int)) {
            Some(I80F48::of_bits(div_bits(self.bits as int, rhs.bits as int)))
        } else {
            None
        }
    }

    /// The number rounded down to an integer, where that is a `u64`.
    pub open spec fn spec_checked_to_u64(self) -> Option<u64> {
        if 0 <= self.floor_int() <= u64::MAX {
            Some(self.floor_int() as u64)
        } else {
            None
        }
    }

    /// The number rounded down to an integer, where that is an `i64`.
    pub open spec fn spec_checked_to_i64(self) -> Option<i64> {
        if i64::MIN <= self.floor_int() <= i64::MAX {
            Some(self.floor_int() as i64)
        } else {
            None
        }
    }

    pub open spec fn spec_min(self, rhs: I80F48) -> I80F48 {
        if self.bits <= rhs.bits {
            self
        } else {
            rhs
        }
    }

    pub open spec fn spec_max(self, rhs: I80F48) -> I80F48 {
        if self.bits >= rhs.bits {
            self
        } else {
            rhs
        }
    }

    pub fn zero() -> (r: I80F48)
        ensures
            r.bits == 0,
    {
        I80F48 { bits: 0 }
    }

    pub fn from_bits(bits: i128) -> (r: I80F48)
        ensures
            r.bits == bits,
    {
        I80F48 { bits }
    }

    pub fn to_bits(&self) -> (bits: i128)
        ensures
            bits == self.bits,
    {
        self.bits
    }

    /// The fixed-point number equal to `n`; every `i64` fits.
    pub fn from_num(n: i64) -> (r: I80F48)
        ensures
            r == I80F48::of_int(n as int),
            r.bits == n * frac_unit(),
    {
        let wide: i128 = n as i128;
        I80F48 { bits: wide * 0x1_0000_0000_0000i128 }
    }

    pub fn is_negative(&self) -> (r: bool)
        ensures
            r == (self.bits < 0),
    {
        self.bits < 0
    }

    pub fn checked_add(&self, rhs: I80F48) -> (r: Option<I80F48>)
        ensures
            r == self.spec_checked_add(rhs),
    {
        match self.bits.checked_add(rhs.bits) {
            Some(bits) => Some(I80F48 { bits }),
            None => None,
        }
    }

    pub fn checked_sub(&self, rhs: I80F48) -> (r: Option<I80F48>)
        ensures
            r == self.spec_checked_sub(rhs),
    {
        match self.bits.checked_sub(rhs.bits) {
            Some(bits) => Some(I80F48 { bits }),
            None => None,
        }
    }

    /// The product, rounded down to the next representable number; `None`
    /// where it is out of range.
    pub fn checked_mul(&self, rhs: I80F48) -> (r: Option<I80F48>)
        ensures
            r == self.spec_checked_mul(rhs),
    {
        match fixed_checked_mul(self.bits, rhs.bits) {
            Some(bits) => Some(I80F48 { bits }),
            None => None,
        }
    }

    /// The quotient, rounded towards zero to the next representable number;
    /// `None` for a zero divisor or where it is out of range.
    pub fn checked_div(&self, rhs: I80F48) -> (r: Option<I80F48>)
        ensures
            r == self.spec_checked_div(rhs),
    {
        match fixed_checked_div(self.bits, rhs.bits) {
            Some(bits) => Some(I80F48 { bits }),
            None => None,
        }
    }

    /// The number rounded down to an integer.
    pub fn checked_to_i64(&self) -> (r: Option<i64>)
        ensures
            r == self.spec_checked_to_i64(),
    {
        match self.bits.checked_div_euclid(0x1_0000_0000_0000i128) {
            Some(q) => {
                if q >= i64::MIN as i128 && q <= i64::MAX as i128 {
                    Some(q as i64)
                } else {
                    None
                }
            },
            None => None,
        }
    }

    /// The number rounded down to an integer.
    pub fn checked_to_u64(&self) -> (r: Option<u64>)
        ensures
            r == self.spec_checked_to_u64(),
    {
        match self.bits.checked_div_euclid(0x1_0000_0000_0000i128) {
            Some(q) => {
                if q >= 0 && q <= u64::MAX as i128 {
                    Some(q as u64)
                } else {
                    None
                }
            },
            None => None,
        }
    }

    pub fn min(&self, rhs: I80F48) -> (r: I80F48)
        ensures
            r == self.spec_min(rhs),
    {
        if self.bits <= rhs.bits {
            *self
        } else {
            rhs
        }
    }

    pub fn max(&self, rhs: I80F48) -> (r: I80F48)
        ensures
            r == self.spec_max(rhs),
    {
        if self.bits >= rhs.bits {
            *self
        } else {
            rhs
        }
    }
}

} // verus!
