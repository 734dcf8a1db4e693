//! Exact decimal values and the arithmetic that `rust_decimal` performs on them.
use rust_decimal::Decimal;
use vstd::prelude::*;

verus! {

/// Largest scale (digits after the point) a decimal may have.
pub const MAX_SCALE: u32 = 28;

/// Largest magnitude of a mantissa: 2^96 - 1.
pub const MAX_MANTISSA: i128 = 79228162514264337593543950335;

/// 10^n.
pub open spec fn pow10(n: nat) -> int
    decreases n,
{
    if n == 0 {
        1
    } else {
        10 * pow10((n - 1) as nat)
    }
}

pub proof fn lemma_pow10_positive(n: nat)
    ensures
        pow10(n) >= 1,
    decreases n,
{
    if n > 0 {
        lemma_pow10_positive((n - 1) as nat);
    }
}

pub proof fn lemma_pow10_monotone(a: nat, b: nat)
    requires
        a <= b,
    ensures
        pow10(a) <= pow10(b),
    decreases b,
{
    if a < b {
        lemma_pow10_monotone(a, (b - 1) as nat);
        lemma_pow10_positive((b - 1) as nat);
    }
}

/// A decimal number `mantissa * 10^-scale`.
#[derive(Clone, Copy, Debug, PartialEq, Eq)]
pub struct Dec {
    pub mantissa: i128,
    pub scale: u32,
}

/// The magnitude bound on multiples of 10^-28 that fit in 96 bits at scale `s`.
pub open spec fn bound_at(s: nat) -> int {
    MAX_MANTISSA * pow10((28 - s) as nat)
}

/// `u` (counted in units of 10^-28) can be written with at most 96 bits at scale `s`.
pub open spec fn fits_at(u: int, s: nat) -> bool {
    -bound_at(s) <= u <= bound_at(s)
}

impl Dec {
    /// The value lies in the range of `rust_decimal::Decimal`.
    pub open spec fn wf(self) -> bool {
        self.scale <= MAX_SCALE && -MAX_MANTISSA <= self.mantissa <= MAX_MANTISSA
    }

    /// The value counted in units of 10^-28: every representable value is a whole number of them.
    pub open spec fn units(self) -> int {
        self.mantissa * pow10((28 - self.scale) as nat)
    }

    pub proof fn lemma_units_sign(self)
        requires
            self.wf(),
        ensures
            (self.units() == 0) == (self.mantissa == 0),
            (self.units() > 0) == (self.mantissa > 0),
            (self.units() < 0) == (self.mantissa < 0),
            fits_at(self.units(), self.scale as nat),
    {
        let p = pow10((28 - self.scale) as nat);
        lemma_pow10_positive((28 - self.scale) as nat);
        let m = self.mantissa as int;
        let mm = MAX_MANTISSA as int;
        assert(self.units() == m * p);
        assert((m > 0 ==> m * p > 0) && (m < 0 ==> m * p < 0) && (m == 0 ==> m * p == 0))
            by (nonlinear_arith)
            requires
                p >= 1,
        ;
        assert(-mm * p <= m * p <= mm * p) by (nonlinear_arith)
            requires
                p >= 1,
                -mm <= m <= mm,
        ;
    }

    pub fn new(mantissa: i64, scale: u32) -> (r: Dec)
        requires
            scale <= MAX_SCALE,
        ensures
            r.wf(),
            r.mantissa == mantissa,
            r.scale == scale,
    {
        Dec { mantissa: mantissa as i128, scale }
    }

    pub fn zero() -> (r: Dec)
        ensures
            r.wf(),
            r.units() == 0,
            r == (Dec { mantissa: 0, scale: 0 }),
    {
        Dec { mantissa: 0, scale: 0 }
    }

    pub fn is_zero(&self) -> (r: bool)
        requires
            self.wf(),
        ensures
            r == (self.units() == 0),
    {
        proof {
            self.lemma_units_sign();
        }
        self.mantissa == 0
    }

    pub fn is_positive(&self) -> (r: bool)
        requires
            self.wf(),
        ensures
            r == (self.units() > 0),
    {
        proof {
            self.lemma_units_sign();
        }
        self.mantissa > 0
    }
}

/// The sum or difference `u` of `a` and `b` is exact in `rust_decimal`: both operands and
/// the result fit in 96 bits at the larger of the two scales.
pub open spec fn aligned_exact(a: Dec, b: Dec, u: int) -> bool {
    let s = if a.scale >= b.scale { a.scale as nat } else { b.scale as nat };
    fits_at(a.units(), s) && fits_at(b.units(), s) && fits_at(u, s)
}

pub uninterp spec fn decimal_sum(a: Dec, b: Dec) -> Option<Dec>;

pub uninterp spec fn decimal_difference(a: Dec, b: Dec) -> Option<Dec>;

pub uninterp spec fn decimal_product(a: Dec, b: Dec) -> Option<Dec>;

pub uninterp spec fn decimal_quotient(a: Dec, b: Dec) -> Option<Dec>;

/// Relies on `rust_decimal::Decimal::checked_add`: `None` on overflow; the result is
/// exact when the operands and the sum fit at the larger scale (it rounds only when the
/// 96-bit mantissa overflows), and its scale is then at most that scale.
#[verifier::external_body]
pub(crate) fn checked_add(a: Dec, b: Dec) -> (r: Option<Dec>)
    requires
        a.wf(),
        b.wf(),
    ensures
        r == decimal_sum(a, b),
        r.is_some() ==> r.unwrap().wf(),
        aligned_exact(a, b, a.units() + b.units()) ==> r.is_some() && r.unwrap().units()
            == a.units() + b.units() && (r.unwrap().scale <= a.scale || r.unwrap().scale
            <= b.scale),
{
    let x = Decimal::from_i128_with_scale(a.mantissa, a.scale);
    let y = Decimal::from_i128_with_scale(b.mantissa, b.scale);
    match x.checked_add(y) {
        Some(v) => Some(Dec { mantissa: v.mantissa(), scale: v.scale() }),
        None => None,
    }
}

/// Relies on `rust_decimal::Decimal::checked_sub`: `None` on overflow; the result is
/// exact when the operands and the difference fit at the larger scale, and its scale is
/// then at most that scale.
#[verifier::external_body]
pub(crate) fn checked_sub(a: Dec, b: Dec) -> (r: Option<Dec>)
    requires
        a.wf(),
        b.wf(),
    ensures
        r == decimal_difference(a, b),
        r.is_some() ==> r.unwrap().wf(),
        aligned_exact(a, b, a.units() - b.units()) ==> r.is_some() && r.unwrap().units()
            == a.units() - b.units() && (r.unwrap().scale <= a.scale || r.unwrap().scale
            <= b.scale),
{
    let x = Decimal::from_i128_with_scale(a.mantissa, a.scale);
    let y = Decimal::from_i128_with_scale(b.mantissa, b.scale);
    match x.checked_sub(y) {
        Some(v) => Some(Dec { mantissa: v.mantissa(), scale: v.scale() }),
        None => None,
    }
}

/// Relies on `rust_decimal::Decimal::checked_mul`: `None` on overflow; when the scales
/// add up to at most 28 and the product of the mantissas fits in 96 bits, that product is
/// the result's mantissa, at the summed scale unless it is zero; a zero factor gives
/// `Decimal::ZERO`.
#[verifier::external_body]
pub(crate) fn checked_mul(a: Dec, b: Dec) -> (r: Option<Dec>)
    requires
        a.wf(),
        b.wf(),
    ensures
        r == decimal_product(a, b),
        r.is_some() ==> r.unwrap().wf(),
        a.scale + b.scale <= MAX_SCALE && -MAX_MANTISSA <= a.mantissa * b.mantissa
            <= MAX_MANTISSA ==> r.is_some() && r.unwrap().mantissa == a.mantissa * b.mantissa
            && (r.unwrap().mantissa != 0 ==> r.unwrap().scale == a.scale + b.scale),
        a.mantissa == 0 || b.mantissa == 0 ==> r == Some(Dec { mantissa: 0, scale: 0 }),
{
    let x = Decimal::from_i128_with_scale(a.mantissa, a.scale);
    let y = Decimal::from_i128_with_scale(b.mantissa, b.scale);
    match x.checked_mul(y) {
        Some(v) => Some(Dec { mantissa: v.mantissa(), scale: v.scale() }),
        None => None,
    }
}

/// Relies on `rust_decimal::Decimal::checked_div`: `None` when the divisor is zero or the
/// quotient overflows; otherwise the quotient, rounded to the available precision.
#[verifier::external_body]
pub(crate) fn checked_div(a: Dec, b: Dec) -> (r: Option<Dec>)
    requires
        a.wf(),
        b.wf(),
    ensures
        r == decimal_quotient(a, b),
        r.is_some() ==> r.unwrap().wf(),
        b.mantissa == 0 ==> r.is_none(),
{
    let x = Decimal::from_i128_with_scale(a.mantissa, a.scale);
    let y = Decimal::from_i128_with_scale(b.mantissa, b.scale);
    match x.checked_div(y) {
        Some(v) => Some(Dec { mantissa: v.mantissa(), scale: v.scale() }),
        None => None,
    }
}

/// Relies on `rust_decimal::Decimal`'s ordering, which compares numeric values.
#[verifier::external_body]
pub(crate) fn less_than(a: Dec, b: Dec) -> (r: bool)
    requires
        a.wf(),
        b.wf(),
    ensures
        r == (a.units() < b.units()),
{
    Decimal::from_i128_with_scale(a.mantissa, a.scale) < Decimal::from_i128_with_scale(
        b.mantissa,
        b.scale,
    )
}

} // verus!

verus! {

/// An arithmetic operation overflowed the range of a decimal, or divided by zero.
#[derive(Copy, Clone, Debug, PartialEq, Eq, Structural)]
pub enum ArithmeticError {
    Overflow,
    DivisionByZero,
}

pub proof fn lemma_fits_at_wider(u: int, s: nat, t: nat)
    requires
        fits_at(u, t),
        s <= t <= 28,
    ensures
        fits_at(u, s),
{
    lemma_pow10_monotone((28 - t) as nat, (28 - s) as nat);
    let p = pow10((28 - t) as nat);
    let q = pow10((28 - s) as nat);
    let mm = MAX_MANTISSA as int;
    assert(mm * p <= mm * q) by (nonlinear_arith)
        requires
            p <= q,
            mm >= 0,
    ;
}

} // verus!

verus! {

/// When `a + b` fits at the larger scale of the two, `r` is that sum exactly, at a scale no
/// larger.
pub open spec fn exact_sum(a: Dec, b: Dec, r: Dec) -> bool {
    aligned_exact(a, b, a.units() + b.units()) ==> r.units() == a.units() + b.units() && (
    r.scale <= a.scale || r.scale <= b.scale)
}

/// Operands and result that fit at `s` fit at the larger of the two scales, which is at most `s`.
pub proof fn lemma_exact_at(a: Dec, b: Dec, u: int, s: nat)
    requires
        a.scale <= s,
        b.scale <= s,
        s <= 28,
        fits_at(a.units(), s),
        fits_at(b.units(), s),
        fits_at(u, s),
    ensures
        aligned_exact(a, b, u),
{
    let sm = if a.scale >= b.scale {
        a.scale as nat
    } else {
        b.scale as nat
    };
    lemma_fits_at_wider(a.units(), sm, s);
    lemma_fits_at_wider(b.units(), sm, s);
    lemma_fits_at_wider(u, sm, s);
}

/// `a * b` is exact in `rust_decimal`: the scales add up to at most 28 and the product of
/// the mantissas fits in 96 bits.
pub open spec fn product_fits(a: Dec, b: Dec) -> bool {
    a.scale + b.scale <= MAX_SCALE && -MAX_MANTISSA <= a.mantissa * b.mantissa <= MAX_MANTISSA
}

/// `r` is `a * b` exactly (`units` counts 10^-28, so the product carries an extra 10^28),
/// at a scale of at most the two scales added.
pub open spec fn exact_product(a: Dec, b: Dec, r: Dec) -> bool {
    r.units() * pow10(28) == a.units() * b.units() && r.scale <= a.scale + b.scale
}

pub proof fn lemma_pow10_add(x: nat, y: nat)
    ensures
        pow10(x + y) == pow10(x) * pow10(y),
    decreases x,
{
    if x > 0 {
        lemma_pow10_add((x - 1) as nat, y);
        assert(pow10(x + y) == 10 * pow10((x - 1 + y) as nat));
        let p = pow10((x - 1) as nat);
        let q = pow10(y);
        assert(10 * (p * q) == (10 * p) * q) by (nonlinear_arith);
    }
}

/// The mantissas multiplied, at the two scales added, are the product of the values.
pub proof fn lemma_mantissa_product(a: Dec, b: Dec)
    requires
        a.scale + b.scale <= MAX_SCALE,
    ensures
        a.mantissa * b.mantissa * pow10((28 - a.scale - b.scale) as nat) * pow10(28) == a.units()
            * b.units(),
{
    let x = (28 - a.scale) as nat;
    let y = (28 - b.scale) as nat;
    let z = (28 - a.scale - b.scale) as nat;
    let am = a.mantissa as int;
    let bm = b.mantissa as int;
    lemma_pow10_add(z, 28);
    lemma_pow10_add(x, y);
    assert(z + 28 == x + y);
    let pz = pow10(z);
    let p28 = pow10(28);
    let px = pow10(x);
    let py = pow10(y);
    assert((am * bm) * pz * p28 == (am * px) * (bm * py)) by (nonlinear_arith)
        requires
            pz * p28 == px * py,
    ;
}

pub proof fn lemma_product_units(a: Dec, b: Dec, r: Dec)
    requires
        product_fits(a, b),
        r.mantissa == a.mantissa * b.mantissa,
        r.mantissa != 0 ==> r.scale == a.scale + b.scale,
        a.mantissa == 0 || b.mantissa == 0 ==> r == (Dec { mantissa: 0, scale: 0 }),
    ensures
        exact_product(a, b, r),
{
    lemma_mantissa_product(a, b);
    let am = a.mantissa as int;
    let bm = b.mantissa as int;
    if a.mantissa == 0 || b.mantissa == 0 {
        assert(am * bm == 0) by (nonlinear_arith)
            requires
                am == 0 || bm == 0,
        ;
        assert(r.units() == 0);
    } else {
        assert(am * bm != 0) by (nonlinear_arith)
            requires
                am != 0,
                bm != 0,
        ;
    }
}

/// `a + b` as `rust_decimal` computes it; an overflow is an error.
pub open spec fn sum_result(a: Dec, b: Dec) -> Result<Dec, ArithmeticError> {
    match decimal_sum(a, b) {
        Some(v) => Ok(v),
        None => Err(ArithmeticError::Overflow),
    }
}

/// `a - b` as `rust_decimal` computes it; an overflow is an error.
pub open spec fn difference_result(a: Dec, b: Dec) -> Result<Dec, ArithmeticError> {
    match decimal_difference(a, b) {
        Some(v) => Ok(v),
        None => Err(ArithmeticError::Overflow),
    }
}

/// `a * b` as `rust_decimal` computes it; an overflow is an error.
pub open spec fn product_result(a: Dec, b: Dec) -> Result<Dec, ArithmeticError> {
    match decimal_product(a, b) {
        Some(v) => Ok(v),
        None => Err(ArithmeticError::Overflow),
    }
}

/// `a / b` as `rust_decimal` computes it; a zero divisor or an overflow is an error.
pub open spec fn quotient_result(a: Dec, b: Dec) -> Result<Dec, ArithmeticError> {
    if b.mantissa == 0 {
        Err(ArithmeticError::DivisionByZero)
    } else {
        match decimal_quotient(a, b) {
            Some(v) => Ok(v),
            None => Err(ArithmeticError::Overflow),
        }
    }
}

impl Dec {
    pub fn plus(self, other: Dec) -> (r: Result<Dec, ArithmeticError>)
        requires
            self.wf(),
            other.wf(),
        ensures
            r == sum_result(self, other),
            r.is_ok() ==> r.unwrap().wf(),
            r.is_ok() ==> exact_sum(self, other, r.unwrap()),
    {
        match checked_add(self, other) {
            Some(v) => Ok(v),
            None => Err(ArithmeticError::Overflow),
        }
    }

    pub fn minus(self, other: Dec) -> (r: Result<Dec, ArithmeticError>)
        requires
            self.wf(),
            other.wf(),
        ensures
            r == difference_result(self, other),
            r.is_ok() ==> r.unwrap().wf(),
    {
        match checked_sub(self, other) {
            Some(v) => Ok(v),
            None => Err(ArithmeticError::Overflow),
        }
    }

    pub fn times(self, other: Dec) -> (r: Result<Dec, ArithmeticError>)
        requires
            self.wf(),
            other.wf(),
        ensures
            r == product_result(self, other),
            r.is_ok() ==> r.unwrap().wf(),
            product_fits(self, other) ==> r.is_ok() && exact_product(self, other, r.unwrap()),
    {
        let r = checked_mul(self, other);
        proof {
            if product_fits(self, other) {
                lemma_product_units(self, other, r.unwrap());
            }
        }
        match r {
            Some(v) => Ok(v),
            None => Err(ArithmeticError::Overflow),
        }
    }

    pub fn divided_by(self, other: Dec) -> (r: Result<Dec, ArithmeticError>)
        requires
            self.wf(),
            other.wf(),
        ensures
            r == quotient_result(self, other),
            r.is_ok() ==> r.unwrap().wf(),
    {
        if other.mantissa == 0 {
            return Err(ArithmeticError::DivisionByZero);
        }
        match checked_div(self, other) {
            Some(v) => Ok(v),
            None => Err(ArithmeticError::Overflow),
        }
    }

    /// `self < other`, comparing values.
    pub fn lt(self, other: Dec) -> (r: bool)
        requires
            self.wf(),
            other.wf(),
        ensures
            r == (self.units() < other.units()),
    {
        less_than(self, other)
    }
}

} // verus!
