//! Laws of the unit algebra, and the facts about name order they rest on.

use vstd::prelude::*;

use crate::unit::{
    canonical, insert_atom, merge_atoms, name_less, negate_atoms, negative_atoms, positive_atoms,
    atoms_wf, AtomView,
};

verus! {

/// The atoms' names are pairwise distinct.
pub open spec fn distinct_names(s: Seq<AtomView>) -> bool {
    forall|i: int, j: int| 0 <= i < j < s.len() ==> (#[trigger] s[i]).0 != (#[trigger] s[j]).0
}

/// The atoms stand in strictly increasing name order.
pub open spec fn sorted_by_name(s: Seq<AtomView>) -> bool {
    forall|i: int, j: int|
        0 <= i < j < s.len() ==> name_less((#[trigger] s[i]).0, (#[trigger] s[j]).0)
}

proof fn lemma_name_irreflexive(a: Seq<char>)
    ensures
        !name_less(a, a),
    decreases a.len(),
{
    if a.len() > 0 {
        lemma_name_irreflexive(a.drop_first());
    }
}

proof fn lemma_name_transitive(a: Seq<char>, b: Seq<char>, c: Seq<char>)
    requires
        name_less(a, b),
        name_less(b, c),
    ensures
        name_less(a, c),
    decreases a.len(),
{
    if a.len() > 0 && b.len() > 0 && c.len() > 0 && a[0] == b[0] && b[0] == c[0] {
        lemma_name_transitive(a.drop_first(), b.drop_first(), c.drop_first());
    }
}

proof fn lemma_char_code(c: char, d: char)
    requires
        c != d,
    ensures
        (c as u32) != (d as u32),
{
    assert((c as u32) as int == c as int);
    assert((d as u32) as int == d as int);
}

proof fn lemma_name_total(a: Seq<char>, b: Seq<char>)
    requires
        a != b,
    ensures
        name_less(a, b) || name_less(b, a),
    decreases a.len(),
{
    if a.len() > 0 && b.len() > 0 && a[0] == b[0] {
        if a.drop_first() == b.drop_first() {
            assert(a =~= seq![a[0]] + a.drop_first());
            assert(b =~= seq![b[0]] + b.drop_first());
        } else {
            lemma_name_total(a.drop_first(), b.drop_first());
        }
    } else if a.len() > 0 && b.len() > 0 {
        lemma_char_code(a[0], b[0]);
    } else if a.len() == 0 && b.len() == 0 {
        assert(a =~= b);
    }
}

/// Every name of `insert_atom(g, a)` stays above a bound that `a` and all of
/// `g` stay above.
proof fn lemma_insert_lower_bound(g: Seq<AtomView>, a: AtomView, lo: Seq<char>)
    requires
        name_less(lo, a.0),
        forall|k: int| 0 <= k < g.len() ==> name_less(lo, (#[trigger] g[k]).0),
    ensures
        forall|k: int|
            0 <= k < insert_atom(g, a).len() ==> name_less(lo, (#[trigger] insert_atom(g, a)[k]).0),
    decreases g.len(),
{
    if g.len() > 0 {
        let rest = g.drop_first();
        assert forall|k: int| 0 <= k < rest.len() implies name_less(lo, (#[trigger] rest[k]).0) by {
            assert(rest[k] == g[k + 1]);
        }
        lemma_insert_lower_bound(rest, a, lo);
        let r = insert_atom(g, a);
        if name_less(g[0].0, a.0) {
            assert forall|k: int| 0 <= k < r.len() implies name_less(lo, (#[trigger] r[k]).0) by {
                if k > 0 {
                    assert(r[k] == insert_atom(rest, a)[k - 1]);
                }
            }
        } else if g[0].0 == a.0 {
            assert forall|k: int| 0 <= k < r.len() implies name_less(lo, (#[trigger] r[k]).0) by {
                if k > 0 {
                    assert(r[k] == g[k]);
                }
            }
        } else {
            assert forall|k: int| 0 <= k < r.len() implies name_less(lo, (#[trigger] r[k]).0) by {
                if k > 0 {
                    assert(r[k] == g[k - 1]);
                }
            }
        }
    }
}

proof fn lemma_insert_sorted(g: Seq<AtomView>, a: AtomView)
    requires
        sorted_by_name(g),
    ensures
        sorted_by_name(insert_atom(g, a)),
    decreases g.len(),
{
    if g.len() > 0 {
        let rest = g.drop_first();
        let r = insert_atom(g, a);
        assert(sorted_by_name(rest)) by {
            assert forall|i: int, j: int| 0 <= i < j < rest.len() implies name_less(
                (#[trigger] rest[i]).0,
                (#[trigger] rest[j]).0,
            ) by {
                assert(rest[i] == g[i + 1] && rest[j] == g[j + 1]);
            }
        }
        if name_less(g[0].0, a.0) {
            lemma_insert_sorted(rest, a);
            assert forall|k: int| 0 <= k < rest.len() implies name_less(g[0].0, (#[trigger] rest[k]).0) by {
                assert(rest[k] == g[k + 1]);
            }
            lemma_insert_lower_bound(rest, a, g[0].0);
            let ir = insert_atom(rest, a);
            assert forall|i: int, j: int| 0 <= i < j < r.len() implies name_less(
                (#[trigger] r[i]).0,
                (#[trigger] r[j]).0,
            ) by {
                assert(r[j] == ir[j - 1]);
                if i > 0 {
                    assert(r[i] == ir[i - 1]);
                }
            }
        } else if g[0].0 == a.0 {
            assert forall|i: int, j: int| 0 <= i < j < r.len() implies name_less(
                (#[trigger] r[i]).0,
                (#[trigger] r[j]).0,
            ) by {
                assert(r[j].0 == g[j].0);
                assert(r[i].0 == g[i].0);
            }
        } else {
            lemma_name_total(g[0].0, a.0);
            assert forall|i: int, j: int| 0 <= i < j < r.len() implies name_less(
                (#[trigger] r[i]).0,
                (#[trigger] r[j]).0,
            ) by {
                assert(r[j] == g[j - 1]);
                if i > 0 {
                    assert(r[i] == g[i - 1]);
                } else if j > 1 {
                    lemma_name_transitive(a.0, g[0].0, g[j - 1].0);
                }
            }
        }
    }
}

/// Into a name-sorted list that holds the name of `a`, `a` is merged with
/// the atom of that name.
proof fn lemma_insert_existing(g: Seq<AtomView>, a: AtomView, k: int)
    requires
        sorted_by_name(g),
        0 <= k < g.len(),
        g[k].0 == a.0,
    ensures
        insert_atom(g, a) == g.update(k, (a.0, g[k].1.merged_sum(a.1))),
    decreases k,
{
    let rest = g.drop_first();
    if k == 0 {
        lemma_name_irreflexive(a.0);
        assert(insert_atom(g, a) =~= g.update(k, (a.0, g[k].1.merged_sum(a.1))));
    } else {
        assert(name_less(g[0].0, g[k].0));
        assert(sorted_by_name(rest)) by {
            assert forall|i: int, j: int| 0 <= i < j < rest.len() implies name_less(
                (#[trigger] rest[i]).0,
                (#[trigger] rest[j]).0,
            ) by {
                assert(rest[i] == g[i + 1] && rest[j] == g[j + 1]);
            }
        }
        assert(rest[k - 1] == g[k]);
        lemma_insert_existing(rest, a, k - 1);
        assert(insert_atom(g, a) =~= g.update(k, (a.0, g[k].1.merged_sum(a.1))));
    }
}

/// Inserting an atom whose name `g` does not hold adds exactly that atom.
proof fn lemma_insert_fresh(g: Seq<AtomView>, a: AtomView)
    requires
        forall|k: int| 0 <= k < g.len() ==> (#[trigger] g[k]).0 != a.0,
    ensures
        insert_atom(g, a).to_set() == g.to_set().insert(a),
        insert_atom(g, a).len() == g.len() + 1,
    decreases g.len(),
{
    if g.len() == 0 {
        assert(insert_atom(g, a).to_set() =~= g.to_set().insert(a)) by {
            assert(insert_atom(g, a) == seq![a]);
            assert(insert_atom(g, a)[0] == a);
        }
    } else {
        let rest = g.drop_first();
        let r = insert_atom(g, a);
        if name_less(g[0].0, a.0) {
            assert forall|k: int| 0 <= k < rest.len() implies (#[trigger] rest[k]).0 != a.0 by {
                assert(rest[k] == g[k + 1]);
            }
            lemma_insert_fresh(rest, a);
            let ir = insert_atom(rest, a);
            assert(r =~= seq![g[0]] + ir);
            assert(g =~= seq![g[0]] + rest);
            assert forall|x: AtomView| r.to_set().contains(x) <==> g.to_set().insert(a).contains(x) by {
                if r.to_set().contains(x) {
                    let k = choose|k: int| 0 <= k < r.len() && r[k] == x;
                    if k > 0 {
                        assert(ir[k - 1] == x);
                        assert(ir.to_set().contains(x));
                        if x != a {
                            assert(rest.to_set().contains(x));
                            let m = choose|m: int| 0 <= m < rest.len() && rest[m] == x;
                            assert(g[m + 1] == x);
                        }
                    } else {
                        assert(g[0] == x);
                    }
                }
                if g.to_set().insert(a).contains(x) {
                    if x == a {
                        assert(ir.to_set().contains(a));
                        let m = choose|m: int| 0 <= m < ir.len() && ir[m] == a;
                        assert(r[m + 1] == a);
                    } else {
                        let m = choose|m: int| 0 <= m < g.len() && g[m] == x;
                        if m == 0 {
                            assert(r[0] == x);
                        } else {
                            assert(rest[m - 1] == x);
                            assert(rest.to_set().contains(x));
                            assert(ir.to_set().contains(x));
                            let q = choose|q: int| 0 <= q < ir.len() && ir[q] == x;
                            assert(r[q + 1] == x);
                        }
                    }
                }
            }
            assert(r.to_set() =~= g.to_set().insert(a));
        } else {
            assert(g[0].0 != a.0);
            assert(r =~= seq![a] + g);
            assert forall|x: AtomView| r.to_set().contains(x) <==> g.to_set().insert(a).contains(x) by {
                if r.to_set().contains(x) {
                    let k = choose|k: int| 0 <= k < r.len() && r[k] == x;
                    if k > 0 {
                        assert(g[k - 1] == x);
                    }
                }
                if g.to_set().insert(a).contains(x) {
                    if x == a {
                        assert(r[0] == a);
                    } else {
                        let m = choose|m: int| 0 <= m < g.len() && g[m] == x;
                        assert(r[m + 1] == x);
                    }
                }
            }
            assert(r.to_set() =~= g.to_set().insert(a));
        }
    }
}

/// For atoms of distinct names, merging sorts them and changes nothing else.
proof fn lemma_merge_distinct(s: Seq<AtomView>)
    requires
        distinct_names(s),
    ensures
        merge_atoms(s).to_set() == s.to_set(),
        merge_atoms(s).len() == s.len(),
        sorted_by_name(merge_atoms(s)),
    decreases s.len(),
{
    if s.len() == 0 {
        assert(merge_atoms(s).to_set() =~= s.to_set());
    } else {
        let pre = s.drop_last();
        assert(distinct_names(pre)) by {
            assert forall|i: int, j: int| 0 <= i < j < pre.len() implies (#[trigger] pre[i]).0 != (
            #[trigger] pre[j]).0 by {
                assert(pre[i] == s[i] && pre[j] == s[j]);
            }
        }
        lemma_merge_distinct(pre);
        let g = merge_atoms(pre);
        assert forall|k: int| 0 <= k < g.len() implies (#[trigger] g[k]).0 != s.last().0 by {
            assert(g.to_set().contains(g[k]));
            assert(pre.to_set().contains(g[k]));
            let m = choose|m: int| 0 <= m < pre.len() && pre[m] == g[k];
            assert(s[m] == pre[m]);
        }
        lemma_insert_fresh(g, s.last());
        lemma_insert_sorted(g, s.last());
        assert(s =~= pre.push(s.last()));
        assert(s.to_set() =~= pre.to_set().insert(s.last())) by {
            assert forall|x: AtomView| s.to_set().contains(x) <==> pre.to_set().insert(s.last()).contains(x) by {
                if s.to_set().contains(x) {
                    let k = choose|k: int| 0 <= k < s.len() && s[k] == x;
                    if k < s.len() - 1 {
                        assert(pre[k] == x);
                    }
                }
                if pre.to_set().contains(x) {
                    let k = choose|k: int| 0 <= k < pre.len() && pre[k] == x;
                    assert(s[k] == x);
                }
            }
        }
    }
}

proof fn lemma_zero_atoms_vanish(g: Seq<AtomView>)
    requires
        forall|k: int| 0 <= k < g.len() ==> (#[trigger] g[k]).1.mantissa == 0,
    ensures
        positive_atoms(g) == Seq::<AtomView>::empty(),
        negative_atoms(g) == Seq::<AtomView>::empty(),
    decreases g.len(),
{
    if g.len() > 0 {
        let pre = g.drop_last();
        assert forall|k: int| 0 <= k < pre.len() implies (#[trigger] pre[k]).1.mantissa == 0 by {
            assert(pre[k] == g[k]);
        }
        lemma_zero_atoms_vanish(pre);
    }
}

/// `merge_atoms(s + t)` continues from `merge_atoms(s)` with the atoms of `t`.
proof fn lemma_merge_append(s: Seq<AtomView>, t: Seq<AtomView>)
    ensures
        t.len() > 0 ==> merge_atoms(s + t) == insert_atom(merge_atoms(s + t.drop_last()), t.last()),
        merge_atoms(s + t.take(0)) == merge_atoms(s),
{
    assert(s + t.take(0) =~= s);
    if t.len() > 0 {
        assert((s + t).drop_last() =~= s + t.drop_last());
    }
}

/// What merging the negated atoms `n[..j]` into the merged atoms of `a` has done:
/// each atom whose name was met has a zero exponent, the others are as they were.
proof fn lemma_cancel_prefix(a: Seq<AtomView>, j: int)
    requires
        atoms_wf(a),
        distinct_names(a),
        0 <= j <= a.len(),
    ensures
        ({
            let ga = merge_atoms(a);
            let g = merge_atoms(a + negate_atoms(a).take(j));
            &&& ga.to_set() == a.to_set()
            &&& ga.len() == a.len()
            &&& sorted_by_name(ga)
            &&& g.len() == ga.len()
            &&& sorted_by_name(g)
            &&& forall|k: int| 0 <= k < g.len() ==> (#[trigger] g[k]).0 == ga[k].0
            &&& forall|k: int, i: int|
                0 <= k < g.len() && 0 <= i < j && a[i].0 == ga[k].0 ==> (#[trigger] g[k]).1.mantissa
                    == 0 && #[trigger] a[i] == a[i]
            &&& forall|k: int|
                0 <= k < g.len() && (forall|i: int| 0 <= i < j ==> (#[trigger] a[i]).0 != ga[k].0)
                    ==> (#[trigger] g[k]) == ga[k]
        }),
    decreases j,
{
    let n = negate_atoms(a);
    lemma_merge_distinct(a);
    let ga = merge_atoms(a);
    if j == 0 {
        assert(a + n.take(0) =~= a);
    } else {
        lemma_cancel_prefix(a, j - 1);
        let g = merge_atoms(a + n.take(j - 1));
        let jj = j - 1;
        assert(a.to_set().contains(a[jj]));
        let k = choose|k: int| 0 <= k < ga.len() && ga[k] == a[jj];
        assert forall|i: int| 0 <= i < jj implies (#[trigger] a[i]).0 != ga[k].0 by {}
        assert(g[k] == a[jj]);
        let x = n[jj];
        assert(x == (a[jj].0, a[jj].1.spec_neg()));
        lemma_insert_existing(g, x, k);
        let g2 = insert_atom(g, x);
        assert(a[jj].1.wf());
        assert(g2[k].1.mantissa == 0);
        assert(n.take(j).drop_last() =~= n.take(jj));
        assert(n.take(j).last() == x);
        lemma_merge_append(a, n.take(j));
        assert(g2 == merge_atoms(a + n.take(j)));
        lemma_name_irreflexive(a[jj].0);
        assert forall|q: int| 0 <= q < g2.len() && q != k implies (#[trigger] g2[q]) == g[q] && ga[q].0
            != a[jj].0 by {
            if q < k {
                assert(name_less(ga[q].0, ga[k].0));
            } else {
                assert(name_less(ga[k].0, ga[q].0));
            }
        }
        lemma_insert_sorted(g, x);
        assert forall|q: int, i: int|
            0 <= q < g2.len() && 0 <= i < j && a[i].0 == ga[q].0 implies (#[trigger] g2[q]).1.mantissa
                == 0 && #[trigger] a[i] == a[i] by {
            if i < jj {
                if q == k {
                } else {
                    assert(g2[q] == g[q]);
                }
            }
        }
        assert forall|q: int|
            0 <= q < g2.len() && (forall|i: int| 0 <= i < j ==> (#[trigger] a[i]).0 != ga[q].0)
                implies (#[trigger] g2[q]) == ga[q] by {
            assert(a[jj].0 != ga[q].0);
            assert(forall|i: int| 0 <= i < jj ==> (#[trigger] a[i]).0 != ga[q].0);
        }
    }
}

proof fn lemma_merge_sorted(s: Seq<AtomView>)
    ensures
        sorted_by_name(merge_atoms(s)),
    decreases s.len(),
{
    if s.len() > 0 {
        lemma_merge_sorted(s.drop_last());
        lemma_insert_sorted(merge_atoms(s.drop_last()), s.last());
    }
}

/// The kept atoms are atoms of `g`, in name order where `g` is.
proof fn lemma_kept_atoms(g: Seq<AtomView>)
    ensures
        forall|k: int| 0 <= k < positive_atoms(g).len() ==> g.contains(#[trigger] positive_atoms(g)[k]),
        forall|k: int| 0 <= k < negative_atoms(g).len() ==> g.contains(#[trigger] negative_atoms(g)[k]),
        forall|k: int| 0 <= k < positive_atoms(g).len() ==> !(#[trigger] positive_atoms(g)[k]).1.spec_is_negative(),
        forall|k: int| 0 <= k < negative_atoms(g).len() ==> (#[trigger] negative_atoms(g)[k]).1.spec_is_negative(),
        sorted_by_name(g) ==> sorted_by_name(positive_atoms(g)) && sorted_by_name(negative_atoms(g)),
    decreases g.len(),
{
    if g.len() > 0 {
        let pre = g.drop_last();
        let x = g.last();
        lemma_kept_atoms(pre);
        let pp = positive_atoms(pre);
        let np = negative_atoms(pre);
        assert forall|v: AtomView| pre.contains(v) implies g.contains(v) by {
            let k = choose|k: int| 0 <= k < pre.len() && pre[k] == v;
            assert(g[k] == v);
        }
        assert(g[g.len() - 1] == x);
        if sorted_by_name(g) {
            assert(sorted_by_name(pre)) by {
                assert forall|i: int, j: int| 0 <= i < j < pre.len() implies name_less(
                    (#[trigger] pre[i]).0,
                    (#[trigger] pre[j]).0,
                ) by {
                    assert(pre[i] == g[i] && pre[j] == g[j]);
                }
            }
            assert forall|v: AtomView| pre.contains(v) implies name_less(v.0, x.0) by {
                let k = choose|k: int| 0 <= k < pre.len() && pre[k] == v;
                assert(g[k] == v);
            }
            assert forall|i: int, j: int| 0 <= i < j < positive_atoms(g).len() implies name_less(
                (#[trigger] positive_atoms(g)[i]).0,
                (#[trigger] positive_atoms(g)[j]).0,
            ) by {
                if j == pp.len() {
                    assert(pre.contains(pp[i]));
                }
            }
            assert forall|i: int, j: int| 0 <= i < j < negative_atoms(g).len() implies name_less(
                (#[trigger] negative_atoms(g)[i]).0,
                (#[trigger] negative_atoms(g)[j]).0,
            ) by {
                if j == np.len() {
                    assert(pre.contains(np[i]));
                }
            }
        }
    }
}

/// Canonical atoms never repeat a name.
pub(crate) proof fn lemma_canonical_distinct(s: Seq<AtomView>)
    ensures
        distinct_names(canonical(s)),
{
    let g = merge_atoms(s);
    lemma_merge_sorted(s);
    lemma_kept_atoms(g);
    let p = positive_atoms(g);
    let n = negative_atoms(g);
    let c = canonical(s);
    assert forall|i: int, j: int| 0 <= i < j < c.len() implies (#[trigger] c[i]).0 != (
    #[trigger] c[j]).0 by {
        if j < p.len() {
            lemma_name_irreflexive(c[i].0);
            assert(name_less(p[i].0, p[j].0));
        } else if i >= p.len() {
            lemma_name_irreflexive(c[i].0);
            assert(name_less(n[i - p.len()].0, n[j - p.len()].0));
        } else {
            let y = p[i];
            let z = n[j - p.len()];
            assert(g.contains(y) && g.contains(z));
            let a = choose|a: int| 0 <= a < g.len() && g[a] == y;
            let b = choose|b: int| 0 <= b < g.len() && g[b] == z;
            if y.0 == z.0 {
                lemma_name_irreflexive(y.0);
                if a < b {
                    assert(name_less(g[a].0, g[b].0));
                } else if b < a {
                    assert(name_less(g[b].0, g[a].0));
                }
            }
        }
    }
}

/// Dividing a unit of distinct names by itself leaves no atom.
pub proof fn law_division_inverse(a: Seq<AtomView>)
    requires
        atoms_wf(a),
        distinct_names(a),
    ensures
        canonical(a + negate_atoms(a)) == Seq::<AtomView>::empty(),
{
    let n = negate_atoms(a);
    lemma_cancel_prefix(a, a.len() as int);
    lemma_merge_distinct(a);
    let ga = merge_atoms(a);
    assert(n.take(a.len() as int) =~= n);
    let g = merge_atoms(a + n);
    assert forall|k: int| 0 <= k < g.len() implies (#[trigger] g[k]).1.mantissa == 0 by {
        assert(ga.to_set().contains(ga[k]));
        let i = choose|i: int| 0 <= i < a.len() && a[i] == ga[k];
        assert(a[i].0 == ga[k].0);
    }
    lemma_zero_atoms_vanish(g);
    assert(canonical(a + n) =~= Seq::<AtomView>::empty());
}

proof fn lemma_sorted_tail(x: Seq<AtomView>)
    requires
        sorted_by_name(x),
        x.len() > 0,
    ensures
        sorted_by_name(x.drop_first()),
        x.drop_first().to_set() == x.to_set().remove(x[0]),
{
    let t = x.drop_first();
    assert forall|i: int, j: int| 0 <= i < j < t.len() implies name_less(
        (#[trigger] t[i]).0,
        (#[trigger] t[j]).0,
    ) by {
        assert(t[i] == x[i + 1] && t[j] == x[j + 1]);
    }
    lemma_name_irreflexive(x[0].0);
    assert forall|v: AtomView| t.to_set().contains(v) <==> x.to_set().remove(x[0]).contains(v) by {
        if t.to_set().contains(v) {
            let k = choose|k: int| 0 <= k < t.len() && t[k] == v;
            assert(x[k + 1] == v);
            assert(name_less(x[0].0, x[k + 1].0));
        }
        if x.to_set().remove(x[0]).contains(v) {
            let k = choose|k: int| 0 <= k < x.len() && x[k] == v;
            assert(k != 0);
            assert(t[k - 1] == v);
        }
    }
    assert(t.to_set() =~= x.to_set().remove(x[0]));
}

/// Two name-sorted sequences of the same atoms are the same sequence.
proof fn lemma_sorted_unique(x: Seq<AtomView>, y: Seq<AtomView>)
    requires
        sorted_by_name(x),
        sorted_by_name(y),
        x.to_set() == y.to_set(),
    ensures
        x == y,
    decreases x.len(),
{
    if x.len() == 0 {
        if y.len() > 0 {
            assert(y.to_set().contains(y[0]));
        }
        assert(x =~= y);
    } else {
        if y.len() == 0 {
            assert(x.to_set().contains(x[0]));
        }
        assert(x.to_set().contains(x[0]));
        assert(y.to_set().contains(y[0]));
        let k = choose|k: int| 0 <= k < y.len() && y[k] == x[0];
        let m = choose|m: int| 0 <= m < x.len() && x[m] == y[0];
        lemma_name_irreflexive(x[0].0);
        if k > 0 {
            assert(name_less(y[0].0, y[k].0));
            if m > 0 {
                assert(name_less(x[0].0, x[m].0));
                lemma_name_transitive(x[0].0, y[0].0, x[0].0);
            }
        }
        assert(x[0] == y[0]);
        lemma_sorted_tail(x);
        lemma_sorted_tail(y);
        lemma_sorted_unique(x.drop_first(), y.drop_first());
        assert(x =~= seq![x[0]] + x.drop_first());
        assert(y =~= seq![y[0]] + y.drop_first());
    }
}

/// Multiplying units that share no atom name gives the same unit in either
/// order.
pub proof fn law_commutative_merge(a: Seq<AtomView>, b: Seq<AtomView>)
    requires
        distinct_names(a + b),
    ensures
        canonical(a + b) == canonical(b + a),
{
    let ab = a + b;
    let ba = b + a;
    assert(distinct_names(ba)) by {
        assert forall|i: int, j: int| 0 <= i < j < ba.len() implies (#[trigger] ba[i]).0 != (
        #[trigger] ba[j]).0 by {
            let pi = if i < b.len() { i + a.len() } else { i - b.len() };
            let pj = if j < b.len() { j + a.len() } else { j - b.len() };
            assert(ba[i] == ab[pi] && ba[j] == ab[pj]);
            if pi < pj {
                assert(ab[pi].0 != ab[pj].0);
            } else {
                assert(ab[pj].0 != ab[pi].0);
            }
        }
    }
    lemma_merge_distinct(ab);
    lemma_merge_distinct(ba);
    assert(ab.to_set() =~= ba.to_set()) by {
        assert forall|v: AtomView| ab.to_set().contains(v) <==> ba.to_set().contains(v) by {
            if ab.to_set().contains(v) {
                let k = choose|k: int| 0 <= k < ab.len() && ab[k] == v;
                if k < a.len() {
                    assert(ba[k + b.len()] == v);
                } else {
                    assert(ba[k - a.len()] == v);
                }
            }
            if ba.to_set().contains(v) {
                let k = choose|k: int| 0 <= k < ba.len() && ba[k] == v;
                if k < b.len() {
                    assert(ab[k + a.len()] == v);
                } else {
                    assert(ab[k - b.len()] == v);
                }
            }
        }
    }
    lemma_sorted_unique(merge_atoms(ab), merge_atoms(ba));
}

} // verus!
