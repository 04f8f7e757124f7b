use unitlang::decimal::Decimal;
use unitlang::quantity::Quantity;
use unitlang::unit::{Unit, UnitAtom};

fn unit(name: &str) -> Unit {
    Unit::from(UnitAtom::base(name))
}

fn dec(n: i64) -> Decimal {
    Decimal::from_int(n)
}

#[test]
fn add_with_equal_units() {
    let r = Quantity::new(dec(5), unit("m")).add(Quantity::new(dec(3), unit("m")));
    assert!(r == Some(Quantity::new(dec(8), unit("m"))));
}

#[test]
fn add_with_different_units_fails() {
    let r = Quantity::new(dec(5), unit("m")).add(Quantity::new(dec(3), unit("s")));
    assert!(r.is_none());
}

#[test]
fn sub_with_equal_units() {
    let r = Quantity::new(dec(5), unit("m")).sub(Quantity::new(dec(3), unit("m")));
    assert!(r == Some(Quantity::new(dec(2), unit("m"))));
    let bad = Quantity::new(dec(5), unit("m")).sub(Quantity::num(dec(3)));
    assert!(bad.is_none());
}

#[test]
fn div_by_zero_fails() {
    assert!(Quantity::num(dec(10)).div(Quantity::num(dec(0))).is_none());
    assert!(Quantity::new(dec(10), unit("m"))
        .div(Quantity::new(dec(0), unit("s")))
        .is_none());
}

#[test]
fn div_by_two() {
    let r = Quantity::num(dec(10)).div(Quantity::num(dec(2)));
    assert!(r == Some(Quantity::num(dec(5))));
}

#[test]
fn mul_combines_units() {
    let r = Quantity::new(dec(2), unit("m"))
        .mul(Quantity::new(dec(3), unit("s")))
        .unwrap();
    assert_eq!(r.to_text(), "6 [m s]");
}

#[test]
fn div_combines_units() {
    let r = Quantity::new(dec(6), unit("m"))
        .div(Quantity::new(dec(4), unit("s")))
        .unwrap();
    assert_eq!(r.to_text(), "1.50 [m s^-1]");
    let same = Quantity::new(dec(6), unit("m"))
        .div(Quantity::new(dec(2), unit("m")))
        .unwrap();
    assert_eq!(same.to_text(), "3 ");
}

#[test]
fn dimensionless_display_has_trailing_space() {
    assert_eq!(Quantity::num(dec(5)).to_text(), "5 ");
    assert_eq!(Quantity::num(Decimal::new(250, 2)).to_text(), "2.50 ");
}

#[test]
fn quantities_from_units() {
    let q = Quantity::from_atom(UnitAtom::base("kg"));
    assert_eq!(q.to_text(), "1 [kg]");
    let p = Quantity::from_unit(unit("s"));
    assert_eq!(p.to_text(), "1 [s]");
    assert!(p.value() == dec(1));
    assert!(*p.unit() == unit("s"));
}

#[test]
fn overflowing_product_fails() {
    let big = Decimal::new(i64::MAX, 0);
    let r = Quantity::num(big)
        .mul(Quantity::num(big))
        .and_then(|q| q.mul(Quantity::num(big)));
    assert!(r.is_none());
}

#[test]
fn overflowing_sum_fails() {
    let max = Decimal { mantissa: 79228162514264337593543950335, scale: 0 };
    let r = Quantity::num(max).add(Quantity::num(max));
    assert!(r.is_none());
}
