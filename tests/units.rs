use unitlang::decimal::Decimal;
use unitlang::unit::{Unit, UnitAtom};

fn atom(name: &str, exp: i64) -> UnitAtom {
    UnitAtom::new(name, Decimal::from_int(exp))
}

fn unit_of(atoms: &[(&str, i64)]) -> Unit {
    let mut u = Unit::none();
    for (n, e) in atoms {
        u = u.mul(Unit::from(atom(n, *e)));
    }
    u
}

#[test]
fn cancellation_gives_none() {
    let u = Unit::from(atom("m", 1)).mul(Unit::from(atom("m", -1)));
    assert!(u == Unit::none());
    assert_eq!(u.to_text(), "");
}

#[test]
fn division_by_itself_gives_none() {
    let a = unit_of(&[("kg", 1), ("m", 2), ("s", -1)]);
    let b = unit_of(&[("kg", 1), ("m", 2), ("s", -1)]);
    assert!(a.div(b) == Unit::none());
}

#[test]
fn positives_come_before_negatives() {
    let u = Unit::from(atom("kg", 1))
        .mul(Unit::from(atom("m", -1)))
        .mul(Unit::from(atom("s", 1)));
    assert_eq!(u.to_text(), "[kg s m^-1]");
}

#[test]
fn negatives_keep_name_order() {
    let u = unit_of(&[("z", -1), ("a", -2), ("q", 3)]);
    assert_eq!(u.to_text(), "[q^3 a^-2 z^-1]");
}

#[test]
fn disjoint_products_commute() {
    let a = unit_of(&[("m", 1), ("s", -2)]);
    let b = unit_of(&[("kg", 1)]);
    let a2 = unit_of(&[("m", 1), ("s", -2)]);
    let b2 = unit_of(&[("kg", 1)]);
    let ab = a.mul(b);
    let ba = b2.mul(a2);
    assert!(ab == ba);
    assert_eq!(ab.to_text(), "[kg m s^-2]");
}

#[test]
fn equal_names_merge() {
    let u = unit_of(&[("m", 1), ("s", 1), ("m", 2)]);
    assert_eq!(u.to_text(), "[m^3 s]");
}

#[test]
fn multiplying_by_none_is_identity() {
    let a = unit_of(&[("m", 2), ("s", -1)]);
    let b = unit_of(&[("m", 2), ("s", -1)]);
    assert!(a.mul(Unit::none()) == b);
}

#[test]
fn zero_exponent_is_dropped() {
    let u = Unit::from(atom("m", 0)).mul(Unit::none());
    assert!(u == Unit::none());
}

#[test]
fn fractional_exponents_add_up() {
    let half = UnitAtom::new("m", Decimal::new(5, 1));
    let half2 = UnitAtom::new("m", Decimal::new(5, 1));
    let u = Unit::from(half).mul(Unit::from(half2));
    assert_eq!(u.to_text(), "[m]");
    let q = Unit::from(UnitAtom::new("m", Decimal::new(5, 1))).mul(Unit::none());
    assert_eq!(q.to_text(), "[m^0.5]");
}

#[test]
fn division_negates_right_exponents() {
    let u = Unit::from(atom("m", 1)).div(Unit::from(atom("s", 2)));
    assert_eq!(u.to_text(), "[m s^-2]");
}

#[test]
fn atom_display() {
    assert_eq!(UnitAtom::base("m").to_text(), "m");
    assert_eq!(atom("m", 2).to_text(), "m^2");
    assert_eq!(atom("m", -1).to_text(), "m^-1");
    assert_eq!(UnitAtom::new("m", Decimal::new(10, 1)).to_text(), "m");
}

#[test]
fn unit_display() {
    assert_eq!(Unit::none().to_text(), "");
    assert_eq!(Unit::from(UnitAtom::base("m")).to_text(), "[m]");
}

#[test]
fn unicode_names_sort_after_ascii() {
    let u = unit_of(&[("µ", 1), ("z", 1)]);
    assert_eq!(u.to_text(), "[z µ]");
}

#[test]
fn unit_equality_compares_exponent_values() {
    let a = Unit::from(UnitAtom::new("m", Decimal::new(20, 1)));
    let b = Unit::from(atom("m", 2));
    assert!(a == b);
    assert!(Unit::from(atom("m", 2)) != Unit::from(atom("s", 2)));
}

#[test]
fn exponent_sum_saturates_at_the_largest_decimal() {
    let max = Decimal { mantissa: 79228162514264337593543950335, scale: 0 };
    let u = Unit::from(UnitAtom::new("m", max)).mul(Unit::from(UnitAtom::new("m", max)));
    assert_eq!(u.to_text(), "[m^79228162514264337593543950335]");
}

#[test]
fn atoms_are_listed_in_canonical_order() {
    let u = Unit::from(atom("s", -1)).mul(Unit::from(atom("kg", 1)));
    let names: Vec<String> = u.atoms().iter().map(|a| a.name.clone()).collect();
    assert_eq!(names, vec!["kg".to_string(), "s".to_string()]);
}
