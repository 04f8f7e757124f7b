//! Products of named dimensions raised to decimal powers, in canonical form.

use vstd::prelude::*;

use crate::decimal::{decimal_text_of, saturating_sum, Decimal};
use crate::laws::{distinct_names, lemma_canonical_distinct};

verus! {

/// A unit atom as the contracts see it: its name and its exponent.
pub type AtomView = (Seq<char>, Decimal);

/// Lexicographic order of names, character by character (the order of `str`).
pub open spec fn name_less(a: Seq<char>, b: Seq<char>) -> bool
    decreases a.len(),
{
    if a.len() == 0 {
        b.len() > 0
    } else if b.len() == 0 {
        false
    } else if a[0] != b[0] {
        (a[0] as u32) < (b[0] as u32)
    } else {
        name_less(a.drop_first(), b.drop_first())
    }
}

/// Adds one atom to a list of atoms kept in name order: an atom of the same
/// name takes the sum of both exponents, else the atom goes in before the
/// first name that does not precede it.
pub open spec fn insert_atom(groups: Seq<AtomView>, a: AtomView) -> Seq<AtomView>
    decreases groups.len(),
{
    if groups.len() == 0 {
        seq![a]
    } else if name_less(groups[0].0, a.0) {
        seq![groups[0]] + insert_atom(groups.drop_first(), a)
    } else if groups[0].0 == a.0 {
        seq![(a.0, groups[0].1.merged_sum(a.1))] + groups.drop_first()
    } else {
        seq![a] + groups
    }
}

/// The atoms sorted by name, those of one name merged into one whose exponent
/// sums theirs from left to right.
pub open spec fn merge_atoms(s: Seq<AtomView>) -> Seq<AtomView>
    decreases s.len(),
{
    if s.len() == 0 {
        Seq::empty()
    } else {
        insert_atom(merge_atoms(s.drop_last()), s.last())
    }
}

/// The atoms with a positive exponent, in order.
pub open spec fn positive_atoms(s: Seq<AtomView>) -> Seq<AtomView>
    decreases s.len(),
{
    if s.len() == 0 {
        Seq::empty()
    } else if !s.last().1.spec_is_zero() && !s.last().1.spec_is_negative() {
        positive_atoms(s.drop_last()).push(s.last())
    } else {
        positive_atoms(s.drop_last())
    }
}

/// The atoms with a negative exponent, in order.
pub open spec fn negative_atoms(s: Seq<AtomView>) -> Seq<AtomView>
    decreases s.len(),
{
    if s.len() == 0 {
        Seq::empty()
    } else if s.last().1.spec_is_negative() {
        negative_atoms(s.drop_last()).push(s.last())
    } else {
        negative_atoms(s.drop_last())
    }
}

/// Canonical form of a product of atoms: merged by name, zero exponents
/// dropped, positive exponents before negative ones.
pub open spec fn canonical(s: Seq<AtomView>) -> Seq<AtomView> {
    positive_atoms(merge_atoms(s)) + negative_atoms(merge_atoms(s))
}

/// The same atoms with every exponent negated.
pub open spec fn negate_atoms(s: Seq<AtomView>) -> Seq<AtomView> {
    s.map_values(|a: AtomView| (a.0, a.1.spec_neg()))
}

pub open spec fn atoms_wf(s: Seq<AtomView>) -> bool {
    forall|i: int| 0 <= i < s.len() ==> (#[trigger] s[i]).1.wf()
}

/// No negative exponent stands before a non-negative one.
pub open spec fn sign_partitioned(s: Seq<AtomView>) -> bool {
    forall|i: int, j: int|
        0 <= i < j < s.len() && (#[trigger] s[i]).1.spec_is_negative() ==> (
        #[trigger] s[j]).1.spec_is_negative()
}

pub open spec fn atom_text(a: AtomView) -> Seq<char> {
    if a.1.spec_is_one() {
        a.0
    } else {
        a.0 + seq!['^'] + decimal_text_of(a.1)
    }
}

/// The atoms' texts joined by single spaces.
pub open spec fn joined_text(s: Seq<AtomView>) -> Seq<char>
    decreases s.len(),
{
    if s.len() == 0 {
        Seq::empty()
    } else if s.len() == 1 {
        atom_text(s[0])
    } else {
        joined_text(s.drop_last()) + seq![' '] + atom_text(s.last())
    }
}

pub open spec fn unit_text(s: Seq<AtomView>) -> Seq<char> {
    if s.len() == 0 {
        Seq::empty()
    } else {
        seq!['['] + joined_text(s) + seq![']']
    }
}

/// Same names in the same order, with exponents equal in value.
pub open spec fn atoms_equal(a: Seq<AtomView>, b: Seq<AtomView>) -> bool {
    a.len() == b.len() && forall|i: int|
        0 <= i < a.len() ==> (#[trigger] a[i]).0 == b[i].0 && a[i].1.equals(b[i].1)
}

/// A named dimension raised to a decimal power.
#[derive(Clone, Debug)]
pub struct UnitAtom {
    pub name: String,
    pub exp: Decimal,
}

impl View for UnitAtom {
    type V = AtomView;

    open spec fn view(&self) -> AtomView {
        (self.name@, self.exp)
    }
}

impl UnitAtom {
    /// The atom `name^1`.
    pub fn base(name: &str) -> (r: UnitAtom)
        ensures
            r@ == (name@, Decimal { mantissa: 1, scale: 0 }),
    {
        UnitAtom { name: String::from_str(name), exp: Decimal::from_int(1) }
    }

    /// The atom `name^exp`.
    pub fn new(name: &str, exp: Decimal) -> (r: UnitAtom)
        ensures
            r@ == (name@, exp),
    {
        UnitAtom { name: String::from_str(name), exp }
    }

    fn duplicate(&self) -> (r: UnitAtom)
        ensures
            r@ == self@,
    {
        UnitAtom { name: self.name.clone(), exp: self.exp }
    }

    /// The bare name where the exponent is exactly one, else `name^exp`.
    pub fn to_text(&self) -> (r: String)
        requires
            self.exp.wf(),
        ensures
            r@ == atom_text(self@),
    {
        let one = Decimal::from_int(1);
        assert(crate::decimal::pow10(0) == 1);
        if self.exp == one {
            self.name.clone()
        } else {
            let mut s = self.name.clone();
            proof {
                reveal_strlit("^");
            }
            s.append("^");
            let e = self.exp.to_text();
            s.append(e.as_str());
            s
        }
    }
}

impl PartialEq for UnitAtom {
    fn eq(&self, other: &UnitAtom) -> (r: bool) {
        self.name == other.name && self.exp == other.exp
    }
}

impl vstd::std_specs::cmp::PartialEqSpecImpl for UnitAtom {
    open spec fn obeys_eq_spec() -> bool {
        true
    }

    open spec fn eq_spec(&self, other: &UnitAtom) -> bool {
        self.name@ == other.name@ && self.exp.equals(other.exp)
    }
}

/// A product of unit atoms, in the order the algebra leaves them.
#[derive(Clone, Debug)]
pub struct Unit {
    atoms: Vec<UnitAtom>,
}

pub open spec fn view_atoms(v: Seq<UnitAtom>) -> Seq<AtomView> {
    v.map_values(|a: UnitAtom| a@)
}

impl View for Unit {
    type V = Seq<AtomView>;

    closed spec fn view(&self) -> Seq<AtomView> {
        view_atoms(self.atoms@)
    }
}

/// `name_less(a, b)`, computed.
fn name_before(a: &String, b: &String) -> (r: bool)
    ensures
        r == name_less(a@, b@),
{
    let la = a.as_str().unicode_len();
    let lb = b.as_str().unicode_len();
    let mut i: usize = 0;
    assert(a@.subrange(0, la as int) =~= a@);
    assert(b@.subrange(0, lb as int) =~= b@);
    while i < la && i < lb
        invariant
            la == a@.len(),
            lb == b@.len(),
            i <= la,
            i <= lb,
            name_less(a@, b@) == name_less(a@.subrange(i as int, la as int), b@.subrange(i as int, lb as int)),
        decreases la - i,
    {
        let ca = a.as_str().get_char(i);
        let cb = b.as_str().get_char(i);
        proof {
            let sa = a@.subrange(i as int, la as int);
            let sb = b@.subrange(i as int, lb as int);
            assert(sa.drop_first() =~= a@.subrange(i + 1, la as int));
            assert(sb.drop_first() =~= b@.subrange(i + 1, lb as int));
            assert(sa[0] == ca);
            assert(sb[0] == cb);
        }
        if ca != cb {
            return (ca as u32) < (cb as u32);
        }
        i = i + 1;
    }
    proof {
        let sa = a@.subrange(i as int, la as int);
        let sb = b@.subrange(i as int, lb as int);
        assert(sa.len() == 0 || sb.len() == 0);
    }
    i == la && i < lb
}

proof fn lemma_insert_skip(g: Seq<AtomView>, a: AtomView, i: int)
    requires
        0 <= i <= g.len(),
        forall|j: int| 0 <= j < i ==> name_less((#[trigger] g[j]).0, a.0),
    ensures
        insert_atom(g, a) == g.take(i) + insert_atom(g.skip(i), a),
    decreases i,
{
    if i > 0 {
        lemma_insert_skip(g.drop_first(), a, i - 1);
        assert(g.drop_first().take(i - 1) =~= g.take(i).drop_first());
        assert(g.drop_first().skip(i - 1) =~= g.skip(i));
        assert(g.take(i) =~= seq![g[0]] + g.take(i).drop_first());
    } else {
        assert(g.take(0) =~= Seq::<AtomView>::empty());
        assert(g.skip(0) =~= g);
    }
}

/// Adds `a` to `groups` as `insert_atom` says.
fn insert_into(groups: &mut Vec<UnitAtom>, a: UnitAtom)
    requires
        atoms_wf(view_atoms(old(groups)@)),
        a.exp.wf(),
    ensures
        atoms_wf(view_atoms(final(groups)@)),
        view_atoms(final(groups)@) == insert_atom(view_atoms(old(groups)@), a@),
{
    let ghost g0 = view_atoms(groups@);
    let mut i: usize = 0;
    while i < groups.len() && name_before(&groups[i].name, &a.name)
        invariant
            groups@ == old(groups)@,
            g0 == view_atoms(groups@),
            i <= groups.len(),
            forall|j: int| 0 <= j < i ==> name_less((#[trigger] g0[j]).0, a@.0),
        decreases groups.len() - i,
    {
        i = i + 1;
    }
    proof {
        lemma_insert_skip(g0, a@, i as int);
    }
    if i < groups.len() && groups[i].name == a.name {
        let e = saturating_sum(&groups[i].exp, &a.exp);
        assert(e == groups@[i as int].exp.merged_sum(a.exp));
        let merged = UnitAtom { name: a.name, exp: e };
        groups.set(i, merged);
        proof {
            let rest = g0.skip(i as int);
            assert(!name_less(rest[0].0, a@.0));
            assert(rest.drop_first() =~= g0.skip(i + 1));
            assert(view_atoms(groups@) =~= g0.take(i as int) + insert_atom(rest, a@));
        }
    } else {
        groups.insert(i, a);
        proof {
            let rest = g0.skip(i as int);
            assert(view_atoms(groups@) =~= g0.take(i as int) + insert_atom(rest, a@));
        }
    }
}

impl Unit {
    pub closed spec fn wf(&self) -> bool {
        atoms_wf(self@)
    }

    /// The dimensionless unit: no atoms.
    pub fn none() -> (r: Unit)
        ensures
            r.wf(),
            r@ == Seq::<AtomView>::empty(),
    {
        let r = Unit { atoms: Vec::new() };
        assert(r@ =~= Seq::<AtomView>::empty());
        r
    }

    /// The unit of one atom.
    pub fn from(atom: UnitAtom) -> (r: Unit)
        requires
            atom.exp.wf(),
        ensures
            r.wf(),
            r@ == seq![atom@],
    {
        let r = Unit { atoms: vec![atom] };
        assert(r@ =~= seq![atom@]);
        r
    }

    /// The atoms, in order.
    pub fn atoms(&self) -> (r: &Vec<UnitAtom>)
        ensures
            view_atoms(r@) == self@,
    {
        &self.atoms
    }

    /// The product of two units in canonical form.
    pub fn mul(self, rhs: Unit) -> (r: Unit)
        requires
            self.wf(),
            rhs.wf(),
        ensures
            r.wf(),
            r@ == canonical(self@ + rhs@),
            sign_partitioned(r@),
            distinct_names(r@),
    {
        let ghost all = self@ + rhs@;
        let mut concat: Vec<UnitAtom> = self.atoms;
        let mut tail: Vec<UnitAtom> = rhs.atoms;
        concat.append(&mut tail);
        assert(view_atoms(concat@) =~= all);
        let mut groups: Vec<UnitAtom> = Vec::new();
        let n = concat.len();
        let mut i: usize = 0;
        while i < n
            invariant
                n == concat.len(),
                i <= n,
                view_atoms(concat@) == all,
                atoms_wf(all),
                atoms_wf(view_atoms(groups@)),
                view_atoms(groups@) == merge_atoms(all.take(i as int)),
            decreases n - i,
        {
            let a = concat[i].duplicate();
            proof {
                assert(all.take(i + 1).drop_last() =~= all.take(i as int));
                assert(all[i as int] == a@);
            }
            insert_into(&mut groups, a);
            i = i + 1;
        }
        assert(all.take(n as int) =~= all);
        let ghost merged = view_atoms(groups@);
        let mut pos: Vec<UnitAtom> = Vec::new();
        let mut neg: Vec<UnitAtom> = Vec::new();
        let m = groups.len();
        let mut k: usize = 0;
        while k < m
            invariant
                m == groups.len(),
                k <= m,
                merged == view_atoms(groups@),
                atoms_wf(merged),
                view_atoms(pos@) == positive_atoms(merged.take(k as int)),
                view_atoms(neg@) == negative_atoms(merged.take(k as int)),
                atoms_wf(view_atoms(pos@)),
                atoms_wf(view_atoms(neg@)),
                forall|j: int| 0 <= j < pos@.len() ==> !(#[trigger] pos@[j]).exp.spec_is_negative(),
                forall|j: int| 0 <= j < neg@.len() ==> (#[trigger] neg@[j]).exp.spec_is_negative(),
            decreases m - k,
        {
            let a = groups[k].duplicate();
            proof {
                assert(merged.take(k + 1).drop_last() =~= merged.take(k as int));
                assert(merged[k as int] == a@);
            }
            let ghost pos0 = pos@;
            let ghost neg0 = neg@;
            if a.exp.is_sign_negative() {
                neg.push(a);
                assert(view_atoms(neg@) =~= view_atoms(neg0).push(a@));
            } else if !a.exp.is_zero() {
                pos.push(a);
                assert(view_atoms(pos@) =~= view_atoms(pos0).push(a@));
            }
            k = k + 1;
        }
        assert(merged.take(m as int) =~= merged);
        let ghost pos0 = pos@;
        let ghost neg0 = neg@;
        pos.append(&mut neg);
        let r = Unit { atoms: pos };
        assert(r@ =~= view_atoms(pos0) + view_atoms(neg0));
        proof {
            lemma_canonical_distinct(all);
        }
        r
    }
    /// The quotient of two units: the right-hand exponents negated, then
    /// multiplied in.
    pub fn div(self, rhs: Unit) -> (r: Unit)
        requires
            self.wf(),
            rhs.wf(),
        ensures
            r.wf(),
            r@ == canonical(self@ + negate_atoms(rhs@)),
            sign_partitioned(r@),
            distinct_names(r@),
    {
        let mut inv: Vec<UnitAtom> = Vec::new();
        let n = rhs.atoms.len();
        let mut i: usize = 0;
        while i < n
            invariant
                n == rhs.atoms.len(),
                i <= n,
                atoms_wf(rhs@),
                view_atoms(inv@) == negate_atoms(rhs@).take(i as int),
                atoms_wf(view_atoms(inv@)),
            decreases n - i,
        {
            let a = &rhs.atoms[i];
            let ghost inv0 = inv@;
            proof {
                assert(rhs@[i as int] == a@);
            }
            let na = UnitAtom { name: a.name.clone(), exp: a.exp.negate() };
            assert(negate_atoms(rhs@)[i as int] == na@);
            inv.push(na);
            assert(view_atoms(inv@) =~= view_atoms(inv0).push(na@));
            assert(view_atoms(inv@) =~= negate_atoms(rhs@).take(i + 1));
            i = i + 1;
        }
        assert(negate_atoms(rhs@).take(n as int) =~= negate_atoms(rhs@));
        self.mul(Unit { atoms: inv })
    }

    /// Empty for no atoms, else the atoms' texts joined by spaces in brackets.
    pub fn to_text(&self) -> (r: String)
        requires
            self.wf(),
        ensures
            r@ == unit_text(self@),
    {
        let n = self.atoms.len();
        if n == 0 {
            return String::new();
        }
        proof {
            reveal_strlit("[");
            reveal_strlit(" ");
            reveal_strlit("]");
        }
        let mut s = String::from_str("[");
        assert(self@[0] == self.atoms@[0]@);
        let first = self.atoms[0].to_text();
        s.append(first.as_str());
        assert(self@.take(1).drop_last() =~= Seq::<AtomView>::empty());
        let mut i: usize = 1;
        while i < n
            invariant
                n == self.atoms.len(),
                1 <= i <= n,
                self.wf(),
                s@ == seq!['['] + joined_text(self@.take(i as int)),
            decreases n - i,
        {
            assert(self@[i as int] == self.atoms@[i as int]@);
            let t = self.atoms[i].to_text();
            proof {
                assert(self@.take(i + 1).drop_last() =~= self@.take(i as int));
                assert(self@.take(i + 1).last() == self@[i as int]);
                assert(joined_text(self@.take(i + 1)) == joined_text(self@.take(i as int)) + seq![' ']
                    + atom_text(self@[i as int]));
            }
            proof {
                reveal_strlit(" ");
            }
            s.append(" ");
            s.append(t.as_str());
            assert(s@ =~= seq!['['] + joined_text(self@.take(i + 1)));
            i = i + 1;
        }
        s.append("]");
        assert(self@.take(n as int) =~= self@);
        s
    }
}

impl PartialEq for Unit {
    fn eq(&self, other: &Unit) -> (r: bool) {
        let n = self.atoms.len();
        assert(self@.len() == n && other@.len() == other.atoms.len());
        if n != other.atoms.len() {
            return false;
        }
        let mut i: usize = 0;
        while i < n
            invariant
                n == self.atoms.len(),
                n == other.atoms.len(),
                i <= n,
                forall|j: int|
                    0 <= j < i ==> (#[trigger] self@[j]).0 == other@[j].0 && self@[j].1.equals(
                        other@[j].1,
                    ),
            decreases n - i,
        {
            assert(self@[i as int] == self.atoms@[i as int]@);
            assert(other@[i as int] == other.atoms@[i as int]@);
            if !(self.atoms[i] == other.atoms[i]) {
                return false;
            }
            i = i + 1;
        }
        true
    }
}

impl vstd::std_specs::cmp::PartialEqSpecImpl for Unit {
    open spec fn obeys_eq_spec() -> bool {
        true
    }

    open spec fn eq_spec(&self, other: &Unit) -> bool {
        atoms_equal(self@, other@)
    }
}

} // verus!
