//! Decimal values with units, and their arithmetic.

use vstd::prelude::*;

use crate::decimal::{
    checked_product, checked_product_of, checked_quotient, checked_quotient_of, checked_sum,
    checked_sum_of, decimal_text_of, Decimal,
};
use crate::unit::{atoms_equal, canonical, negate_atoms, unit_text, AtomView, Unit, UnitAtom};

verus! {

/// A quantity as the contracts see it: its value and its unit's atoms.
pub type QuantityView = (Decimal, Seq<AtomView>);

/// The sum of two quantities: defined where the units are equal and the
/// values' sum does not overflow.
pub open spec fn quantity_sum(a: QuantityView, b: QuantityView) -> Option<QuantityView> {
    if atoms_equal(a.1, b.1) {
        match checked_sum_of(a.0, b.0) {
            Some(v) => Some((v, a.1)),
            None => None,
        }
    } else {
        None
    }
}

pub open spec fn quantity_product(a: QuantityView, b: QuantityView) -> Option<QuantityView> {
    match checked_product_of(a.0, b.0) {
        Some(v) => Some((v, canonical(a.1 + b.1))),
        None => None,
    }
}

/// The quotient of two quantities: undefined for a zero divisor.
pub open spec fn quantity_quotient(a: QuantityView, b: QuantityView) -> Option<QuantityView> {
    if b.0.spec_is_zero() {
        None
    } else {
        match checked_quotient_of(a.0, b.0) {
            Some(v) => Some((v, canonical(a.1 + negate_atoms(b.1)))),
            None => None,
        }
    }
}

pub open spec fn quantity_text(q: QuantityView) -> Seq<char> {
    decimal_text_of(q.0) + seq![' '] + unit_text(q.1)
}

pub open spec fn view_option(r: Option<Quantity>) -> Option<QuantityView> {
    match r {
        Some(q) => Some(q@),
        None => None,
    }
}

/// A decimal value with a unit.
#[derive(Clone, Debug)]
pub struct Quantity {
    value: Decimal,
    unit: Unit,
}

impl View for Quantity {
    type V = QuantityView;

    closed spec fn view(&self) -> QuantityView {
        (self.value, self.unit@)
    }
}

impl Quantity {
    pub closed spec fn wf(&self) -> bool {
        self.value.wf() && self.unit.wf()
    }

    pub fn new(value: Decimal, unit: Unit) -> (r: Quantity)
        requires
            value.wf(),
            unit.wf(),
        ensures
            r.wf(),
            r@ == (value, unit@),
    {
        Quantity { value, unit }
    }

    /// A dimensionless quantity.
    pub fn num(value: Decimal) -> (r: Quantity)
        requires
            value.wf(),
        ensures
            r.wf(),
            r@ == (value, Seq::<AtomView>::empty()),
    {
        Quantity { value, unit: Unit::none() }
    }

    /// One of the atom's unit.
    pub fn from_atom(atom: UnitAtom) -> (r: Quantity)
        requires
            atom.exp.wf(),
        ensures
            r.wf(),
            r@ == (Decimal { mantissa: 1, scale: 0 }, seq![atom@]),
    {
        Quantity { value: Decimal::from_int(1), unit: Unit::from(atom) }
    }

    /// One of the unit.
    pub fn from_unit(unit: Unit) -> (r: Quantity)
        requires
            unit.wf(),
        ensures
            r.wf(),
            r@ == (Decimal { mantissa: 1, scale: 0 }, unit@),
    {
        Quantity { value: Decimal::from_int(1), unit }
    }

    pub fn value(&self) -> (r: Decimal)
        ensures
            r == self@.0,
    {
        self.value
    }

    pub fn unit(&self) -> (r: &Unit)
        ensures
            r@ == self@.1,
    {
        &self.unit
    }

    /// The sum, where both units are equal; `None` where they differ or the
    /// sum overflows.
    pub fn add(self, rhs: Quantity) -> (r: Option<Quantity>)
        requires
            self.wf(),
            rhs.wf(),
        ensures
            view_option(r) == quantity_sum(self@, rhs@),
            r matches Some(q) ==> q.wf(),
    {
        if self.unit == rhs.unit {
            match checked_sum(&self.value, &rhs.value) {
                Some(v) => Some(Quantity { value: v, unit: self.unit }),
                None => None,
            }
        } else {
            None
        }
    }

    /// `self + (-rhs)`.
    pub fn sub(self, rhs: Quantity) -> (r: Option<Quantity>)
        requires
            self.wf(),
            rhs.wf(),
        ensures
            view_option(r) == quantity_sum(self@, (rhs@.0.spec_neg(), rhs@.1)),
            r matches Some(q) ==> q.wf(),
    {
        let neg = Quantity { value: rhs.value.negate(), unit: rhs.unit };
        self.add(neg)
    }

    /// The product of values and of units; `None` where the value overflows.
    pub fn mul(self, rhs: Quantity) -> (r: Option<Quantity>)
        requires
            self.wf(),
            rhs.wf(),
        ensures
            view_option(r) == quantity_product(self@, rhs@),
            r matches Some(q) ==> q.wf(),
    {
        match checked_product(&self.value, &rhs.value) {
            Some(v) => Some(Quantity { value: v, unit: self.unit.mul(rhs.unit) }),
            None => None,
        }
    }

    /// The quotient of values and of units; `None` for a zero divisor or
    /// where the value overflows.
    pub fn div(self, rhs: Quantity) -> (r: Option<Quantity>)
        requires
            self.wf(),
            rhs.wf(),
        ensures
            view_option(r) == quantity_quotient(self@, rhs@),
            r matches Some(q) ==> q.wf(),
            rhs@.0.spec_is_zero() ==> r.is_none(),
    {
        if rhs.value.is_zero() {
            return None;
        }
        match checked_quotient(&self.value, &rhs.value) {
            Some(v) => Some(Quantity { value: v, unit: self.unit.div(rhs.unit) }),
            None => None,
        }
    }

    /// The value, one space, then the unit's text.
    pub fn to_text(&self) -> (r: String)
        requires
            self.wf(),
        ensures
            r@ == quantity_text(self@),
    {
        let mut s = self.value.to_text();
        proof {
            reveal_strlit(" ");
        }
        s.append(" ");
        let u = self.unit.to_text();
        s.append(u.as_str());
        s
    }
}

impl PartialEq for Quantity {
    fn eq(&self, other: &Quantity) -> (r: bool) {
        self.value == other.value && self.unit == other.unit
    }
}

impl vstd::std_specs::cmp::PartialEqSpecImpl for Quantity {
    open spec fn obeys_eq_spec() -> bool {
        true
    }

    open spec fn eq_spec(&self, other: &Quantity) -> bool {
        self@.0.equals(other@.0) && atoms_equal(self@.1, other@.1)
    }
}

} // verus!
