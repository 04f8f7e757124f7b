//! Exact decimal numbers, computed by rust_decimal.

use vstd::prelude::*;

verus! {

/// Largest magnitude a mantissa may have: 2^96 - 1.
pub const MAX_MANTISSA: i128 = 79228162514264337593543950335;

/// Largest number of digits after the decimal point.
pub const MAX_SCALE: u32 = 28;

pub open spec fn pow10(n: nat) -> int
    decreases n,
{
    if n == 0 {
        1
    } else {
        10 * pow10((n - 1) as nat)
    }
}

/// An exact decimal number `mantissa / 10^scale`, with a mantissa of at most
/// 96 bits and at most 28 digits after the point.
#[derive(Clone, Copy, Debug)]
pub struct Decimal {
    pub mantissa: i128,
    pub scale: u32,
}

/// What rust_decimal's `Display` writes for the number with this mantissa and scale.
pub uninterp spec fn decimal_text_of(d: Decimal) -> Seq<char>;

/// What rust_decimal's `saturating_add` returns for two numbers.
pub uninterp spec fn saturating_sum_of(a: Decimal, b: Decimal) -> Decimal;

/// What rust_decimal's `checked_add` returns for two numbers.
pub uninterp spec fn checked_sum_of(a: Decimal, b: Decimal) -> Option<Decimal>;

/// What rust_decimal's `checked_mul` returns for two numbers.
pub uninterp spec fn checked_product_of(a: Decimal, b: Decimal) -> Option<Decimal>;

/// What rust_decimal's `checked_div` returns for two numbers.
pub uninterp spec fn checked_quotient_of(a: Decimal, b: Decimal) -> Option<Decimal>;

impl Decimal {
    pub open spec fn wf(self) -> bool {
        -MAX_MANTISSA <= self.mantissa <= MAX_MANTISSA && self.scale <= MAX_SCALE
    }

    /// The two numbers are equal in value, whatever their scales.
    pub open spec fn same_value(self, other: Decimal) -> bool {
        self.mantissa * pow10(other.scale as nat) == other.mantissa * pow10(self.scale as nat)
    }

    /// Equality as `==` decides it: by value for numbers within bounds, else
    /// field by field.
    pub open spec fn equals(self, other: Decimal) -> bool {
        if self.wf() && other.wf() {
            self.same_value(other)
        } else {
            self.mantissa == other.mantissa && self.scale == other.scale
        }
    }

    /// The sum of two numbers of one scale fits in a mantissa.
    pub open spec fn exact_sum_fits(self, other: Decimal) -> bool {
        self.scale == other.scale && -MAX_MANTISSA <= self.mantissa + other.mantissa
            <= MAX_MANTISSA
    }

    /// The sum of two numbers of one scale, where it fits.
    pub open spec fn exact_sum(self, other: Decimal) -> Decimal {
        Decimal { mantissa: (self.mantissa + other.mantissa) as i128, scale: self.scale }
    }

    /// The sum of two exponents as they merge: exact where it fits at a
    /// common scale, else what rust_decimal's `saturating_add` returns.
    pub open spec fn merged_sum(self, other: Decimal) -> Decimal {
        if self.exact_sum_fits(other) {
            self.exact_sum(other)
        } else {
            saturating_sum_of(self, other)
        }
    }

    pub open spec fn spec_is_zero(self) -> bool {
        self.mantissa == 0
    }

    pub open spec fn spec_is_negative(self) -> bool {
        self.mantissa < 0
    }

    /// The number is exactly one.
    pub open spec fn spec_is_one(self) -> bool {
        self.mantissa == pow10(self.scale as nat)
    }

    pub open spec fn spec_neg(self) -> Decimal {
        Decimal { mantissa: (-self.mantissa) as i128, scale: self.scale }
    }

    /// `num * 10^-scale`.
    pub fn new(num: i64, scale: u32) -> (r: Decimal)
        requires
            scale <= MAX_SCALE,
        ensures
            r.wf(),
            r.mantissa == num,
            r.scale == scale,
    {
        Decimal { mantissa: num as i128, scale }
    }

    /// The integer `num`.
    pub fn from_int(num: i64) -> (r: Decimal)
        ensures
            r.wf(),
            r.mantissa == num,
            r.scale == 0,
    {
        Decimal { mantissa: num as i128, scale: 0 }
    }

    pub fn is_zero(&self) -> (r: bool)
        ensures
            r == self.spec_is_zero(),
    {
        self.mantissa == 0
    }

    pub fn is_sign_negative(&self) -> (r: bool)
        ensures
            r == self.spec_is_negative(),
    {
        self.mantissa < 0
    }

    /// The number with its sign flipped; the scale is kept.
    pub fn negate(&self) -> (r: Decimal)
        requires
            self.wf(),
        ensures
            r.wf(),
            r == self.spec_neg(),
    {
        Decimal { mantissa: -self.mantissa, scale: self.scale }
    }

    /// Text of the number as rust_decimal writes it.
    pub fn to_text(&self) -> (r: String)
        requires
            self.wf(),
        ensures
            r@ == decimal_text_of(*self),
    {
        decimal_text(self)
    }
}

impl PartialEq for Decimal {
    fn eq(&self, other: &Decimal) -> (r: bool) {
        if in_bounds(self) && in_bounds(other) {
            decimal_eq(self, other)
        } else {
            self.mantissa == other.mantissa && self.scale == other.scale
        }
    }
}

impl vstd::std_specs::cmp::PartialEqSpecImpl for Decimal {
    open spec fn obeys_eq_spec() -> bool {
        true
    }

    open spec fn eq_spec(&self, other: &Decimal) -> bool {
        self.equals(*other)
    }
}

fn in_bounds(d: &Decimal) -> (r: bool)
    ensures
        r == d.wf(),
{
    -MAX_MANTISSA <= d.mantissa && d.mantissa <= MAX_MANTISSA && d.scale <= MAX_SCALE
}

/// Relies on rust_decimal's `PartialEq for Decimal`, which compares values
/// (`1.0 == 1`).
#[verifier::external_body]
fn decimal_eq(a: &Decimal, b: &Decimal) -> (r: bool)
    requires
        a.wf(),
        b.wf(),
    ensures
        r == a.same_value(*b),
{
    let x = rust_decimal::Decimal::from_i128_with_scale(a.mantissa, a.scale);
    let y = rust_decimal::Decimal::from_i128_with_scale(b.mantissa, b.scale);
    x == y
}

/// Relies on rust_decimal's `Display for Decimal`.
#[verifier::external_body]
fn decimal_text(d: &Decimal) -> (r: String)
    requires
        d.wf(),
    ensures
        r@ == decimal_text_of(*d),
{
    rust_decimal::Decimal::from_i128_with_scale(d.mantissa, d.scale).to_string()
}

/// Relies on rust_decimal's `Decimal::saturating_add`: it never fails, and two
/// numbers of one scale whose sum fits in 96 bits are added as integers at
/// that scale (the scale drops only on overflow).
#[verifier::external_body]
pub(crate) fn saturating_sum(a: &Decimal, b: &Decimal) -> (r: Decimal)
    requires
        a.wf(),
        b.wf(),
    ensures
        r.wf(),
        r == saturating_sum_of(*a, *b),
        a.exact_sum_fits(*b) ==> r == a.exact_sum(*b),
{
    let x = rust_decimal::Decimal::from_i128_with_scale(a.mantissa, a.scale);
    let y = rust_decimal::Decimal::from_i128_with_scale(b.mantissa, b.scale);
    let s = x.saturating_add(y);
    Decimal { mantissa: s.mantissa(), scale: s.scale() }
}

/// Relies on rust_decimal's `Decimal::checked_add`: `None` on overflow, and
/// two numbers of one scale whose sum fits in 96 bits are added as integers
/// at that scale.
#[verifier::external_body]
pub(crate) fn checked_sum(a: &Decimal, b: &Decimal) -> (r: Option<Decimal>)
    requires
        a.wf(),
        b.wf(),
    ensures
        r == checked_sum_of(*a, *b),
        r.is_some() ==> r.unwrap().wf(),
        a.exact_sum_fits(*b) ==> r == Some(a.exact_sum(*b)),
{
    let x = rust_decimal::Decimal::from_i128_with_scale(a.mantissa, a.scale);
    let y = rust_decimal::Decimal::from_i128_with_scale(b.mantissa, b.scale);
    x.checked_add(y).map(|s| Decimal { mantissa: s.mantissa(), scale: s.scale() })
}

/// Relies on rust_decimal's `Decimal::checked_mul`: `None` on overflow.
#[verifier::external_body]
pub(crate) fn checked_product(a: &Decimal, b: &Decimal) -> (r: Option<Decimal>)
    requires
        a.wf(),
        b.wf(),
    ensures
        r == checked_product_of(*a, *b),
        r.is_some() ==> r.unwrap().wf(),
{
    let x = rust_decimal::Decimal::from_i128_with_scale(a.mantissa, a.scale);
    let y = rust_decimal::Decimal::from_i128_with_scale(b.mantissa, b.scale);
    x.checked_mul(y).map(|s| Decimal { mantissa: s.mantissa(), scale: s.scale() })
}

/// Relies on rust_decimal's `Decimal::checked_div`: `None` on a zero divisor
/// or on overflow.
#[verifier::external_body]
pub(crate) fn checked_quotient(a: &Decimal, b: &Decimal) -> (r: Option<Decimal>)
    requires
        a.wf(),
        b.wf(),
    ensures
        r == checked_quotient_of(*a, *b),
        r.is_some() ==> r.unwrap().wf(),
        b.spec_is_zero() ==> r.is_none(),
{
    let x = rust_decimal::Decimal::from_i128_with_scale(a.mantissa, a.scale);
    let y = rust_decimal::Decimal::from_i128_with_scale(b.mantissa, b.scale);
    x.checked_div(y).map(|s| Decimal { mantissa: s.mantissa(), scale: s.scale() })
}

} // verus!
