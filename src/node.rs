//! AST nodes with the source ranges they span.

use vstd::prelude::*;

use std::ops::Range;

use crate::decimal::{decimal_text_of, Decimal};

verus! {

/// The shape of an AST node.
#[derive(Debug)]
pub enum NodeType {
    Def(String),
    Add(Box<Node>, Box<Node>),
    Sub(Box<Node>, Box<Node>),
    Mul(Box<Node>, Box<Node>),
    Div(Box<Node>, Box<Node>),
    Unit(String),
    Num(Decimal),
    Assign(String, Box<Node>),
    AddAssign(String, Box<Node>),
    SubAssign(String, Box<Node>),
    MulAssign(String, Box<Node>),
    DivAssign(String, Box<Node>),
    Scope(Vec<Node>),
    Error,
}

/// An AST node with the byte range of source text it spans.
#[derive(Debug)]
pub struct Node {
    pub typ: NodeType,
    pub range: Range<usize>,
}

/// The assignment forms that a `Unit` leaf can be turned into.
#[derive(Debug, Clone, Copy, PartialEq, Eq, Structural)]
enum AssignKind {
    Assign,
    Add,
    Sub,
    Mul,
    Div,
}

/// The binary operators.
#[derive(Debug, Clone, Copy, PartialEq, Eq, Structural)]
enum BinOp {
    Add,
    Sub,
    Mul,
    Div,
}

pub open spec fn min_nat(a: usize, b: usize) -> usize {
    if a <= b {
        a
    } else {
        b
    }
}

pub open spec fn max_nat(a: usize, b: usize) -> usize {
    if a >= b {
        a
    } else {
        b
    }
}

/// Two nodes are equal in shape: same variants, names and values (numbers
/// by value), children equal in shape; ranges are not compared.
pub open spec fn same_node(a: Node, b: Node) -> bool
    decreases a,
{
    same_type(a.typ, b.typ)
}

pub open spec fn same_type(a: NodeType, b: NodeType) -> bool
    decreases a,
{
    match a {
        NodeType::Def(x) => b is Def && x@ == b->Def_0@,
        NodeType::Add(l, r) => b is Add && same_node(*l, *b->Add_0) && same_node(*r, *b->Add_1),
        NodeType::Sub(l, r) => b is Sub && same_node(*l, *b->Sub_0) && same_node(*r, *b->Sub_1),
        NodeType::Mul(l, r) => b is Mul && same_node(*l, *b->Mul_0) && same_node(*r, *b->Mul_1),
        NodeType::Div(l, r) => b is Div && same_node(*l, *b->Div_0) && same_node(*r, *b->Div_1),
        NodeType::Unit(x) => b is Unit && x@ == b->Unit_0@,
        NodeType::Num(x) => b is Num && x.equals(b->Num_0),
        NodeType::Assign(x, v) => b is Assign && x@ == b->Assign_0@ && same_node(*v, *b->Assign_1),
        NodeType::AddAssign(x, v) => b is AddAssign && x@ == b->AddAssign_0@ && same_node(
            *v,
            *b->AddAssign_1,
        ),
        NodeType::SubAssign(x, v) => b is SubAssign && x@ == b->SubAssign_0@ && same_node(
            *v,
            *b->SubAssign_1,
        ),
        NodeType::MulAssign(x, v) => b is MulAssign && x@ == b->MulAssign_0@ && same_node(
            *v,
            *b->MulAssign_1,
        ),
        NodeType::DivAssign(x, v) => b is DivAssign && x@ == b->DivAssign_0@ && same_node(
            *v,
            *b->DivAssign_1,
        ),
        NodeType::Scope(xs) => b is Scope && same_nodes(xs@, b->Scope_0@),
        NodeType::Error => b is Error,
    }
}

/// Both lists have one length and their nodes are pairwise equal in shape.
pub open spec fn same_nodes(xs: Seq<Node>, ys: Seq<Node>) -> bool
    decreases xs,
{
    xs.len() == ys.len() && (xs.len() == 0 || (same_nodes(
        xs.subrange(0, xs.len() - 1),
        ys.subrange(0, ys.len() - 1),
    ) && same_node(xs[xs.len() - 1], ys[ys.len() - 1])))
}

/// The union of two ranges: from the smaller start to the larger end.
pub fn merge_ranges(r1: &Range<usize>, r2: &Range<usize>) -> (r: Range<usize>)
    ensures
        r.start == min_nat(r1.start, r2.start),
        r.end == max_nat(r1.end, r2.end),
{
    let start = if r2.start < r1.start {
        r2.start
    } else {
        r1.start
    };
    let end = if r2.end > r1.end {
        r2.end
    } else {
        r1.end
    };
    start..end
}

/// Every number in the tree fits rust_decimal's bounds.
pub open spec fn node_wf(n: Node) -> bool
    decreases n,
{
    type_wf(n.typ)
}

pub open spec fn type_wf(t: NodeType) -> bool
    decreases t,
{
    match t {
        NodeType::Add(l, r) => node_wf(*l) && node_wf(*r),
        NodeType::Sub(l, r) => node_wf(*l) && node_wf(*r),
        NodeType::Mul(l, r) => node_wf(*l) && node_wf(*r),
        NodeType::Div(l, r) => node_wf(*l) && node_wf(*r),
        NodeType::Num(x) => x.wf(),
        NodeType::Assign(_, v) => node_wf(*v),
        NodeType::AddAssign(_, v) => node_wf(*v),
        NodeType::SubAssign(_, v) => node_wf(*v),
        NodeType::MulAssign(_, v) => node_wf(*v),
        NodeType::DivAssign(_, v) => node_wf(*v),
        NodeType::Scope(xs) => nodes_wf(xs@),
        _ => true,
    }
}

pub open spec fn nodes_wf(xs: Seq<Node>) -> bool
    decreases xs,
{
    xs.len() == 0 || (nodes_wf(xs.subrange(0, xs.len() - 1)) && node_wf(xs[xs.len() - 1]))
}

proof fn lemma_nodes_wf_index(xs: Seq<Node>, i: int)
    requires
        nodes_wf(xs),
        0 <= i < xs.len(),
    ensures
        node_wf(xs[i]),
    decreases xs.len(),
{
    let pre = xs.subrange(0, xs.len() - 1);
    if i < xs.len() - 1 {
        lemma_nodes_wf_index(pre, i);
        assert(pre[i] == xs[i]);
    }
}

proof fn lemma_same_nodes_index(xs: Seq<Node>, ys: Seq<Node>, i: int)
    requires
        same_nodes(xs, ys),
        0 <= i < xs.len(),
    ensures
        same_node(xs[i], ys[i]),
    decreases xs.len(),
{
    if i < xs.len() - 1 {
        lemma_same_nodes_index(xs.subrange(0, xs.len() - 1), ys.subrange(0, ys.len() - 1), i);
    }
}

pub open spec fn infix_text(l: Seq<char>, op: Seq<char>, r: Seq<char>) -> Seq<char> {
    "("@ + l + op + r + ")"@
}

/// Fully parenthesised infix text of a node.
pub open spec fn node_text(n: Node) -> Seq<char>
    decreases n,
{
    type_text(n.typ)
}

pub open spec fn type_text(t: NodeType) -> Seq<char>
    decreases t,
{
    match t {
        NodeType::Def(name) => "(def "@ + name@ + ")"@,
        NodeType::Add(l, r) => infix_text(node_text(*l), " + "@, node_text(*r)),
        NodeType::Sub(l, r) => infix_text(node_text(*l), " - "@, node_text(*r)),
        NodeType::Mul(l, r) => infix_text(node_text(*l), " * "@, node_text(*r)),
        NodeType::Div(l, r) => infix_text(node_text(*l), " / "@, node_text(*r)),
        NodeType::Unit(name) => name@,
        NodeType::Num(x) => decimal_text_of(x),
        NodeType::Assign(name, v) => infix_text(name@, " = "@, node_text(*v)),
        NodeType::AddAssign(name, v) => infix_text(name@, " += "@, node_text(*v)),
        NodeType::SubAssign(name, v) => infix_text(name@, " -= "@, node_text(*v)),
        NodeType::MulAssign(name, v) => infix_text(name@, " *= "@, node_text(*v)),
        NodeType::DivAssign(name, v) => infix_text(name@, " /= "@, node_text(*v)),
        NodeType::Scope(xs) => "{\n"@ + scope_text(xs@) + "}"@,
        NodeType::Error => "Error"@,
    }
}

/// Each node's text followed by a newline.
pub open spec fn scope_text(xs: Seq<Node>) -> Seq<char>
    decreases xs,
{
    if xs.len() == 0 {
        Seq::empty()
    } else {
        scope_text(xs.subrange(0, xs.len() - 1)) + node_text(xs[xs.len() - 1]) + "\n"@
    }
}

fn infix(l: String, op: &str, r: String) -> (s: String)
    ensures
        s@ == infix_text(l@, op@, r@),
{
    let mut s = String::from_str("(");
    s.append(l.as_str());
    s.append(op);
    s.append(r.as_str());
    s.append(")");
    s
}

fn node_to_text(n: &Node) -> (s: String)
    requires
        node_wf(*n),
    ensures
        s@ == node_text(*n),
    decreases n,
{
    type_to_text(&n.typ)
}

fn type_to_text(t: &NodeType) -> (s: String)
    requires
        type_wf(*t),
    ensures
        s@ == type_text(*t),
    decreases t,
{
    match t {
        NodeType::Def(name) => {
            let mut s = String::from_str("(def ");
            s.append(name.as_str());
            s.append(")");
            s
        },
        NodeType::Add(l, r) => infix(node_to_text(l), " + ", node_to_text(r)),
        NodeType::Sub(l, r) => infix(node_to_text(l), " - ", node_to_text(r)),
        NodeType::Mul(l, r) => infix(node_to_text(l), " * ", node_to_text(r)),
        NodeType::Div(l, r) => infix(node_to_text(l), " / ", node_to_text(r)),
        NodeType::Unit(name) => name.clone(),
        NodeType::Num(x) => x.to_text(),
        NodeType::Assign(name, v) => infix(name.clone(), " = ", node_to_text(v)),
        NodeType::AddAssign(name, v) => infix(name.clone(), " += ", node_to_text(v)),
        NodeType::SubAssign(name, v) => infix(name.clone(), " -= ", node_to_text(v)),
        NodeType::MulAssign(name, v) => infix(name.clone(), " *= ", node_to_text(v)),
        NodeType::DivAssign(name, v) => infix(name.clone(), " /= ", node_to_text(v)),
        NodeType::Scope(xs) => {
            let mut s = String::from_str("{\n");
            let n = xs.len();
            let mut i: usize = 0;
            assert(xs@.subrange(0, 0) =~= Seq::<Node>::empty());
            while i < n
                invariant
                    n == xs@.len(),
                    i <= n,
                    type_wf(*t),
                    *t == NodeType::Scope(*xs),
                    s@ == "{\n"@ + scope_text(xs@.subrange(0, i as int)),
                decreases n - i,
            {
                proof {
                    lemma_nodes_wf_index(xs@, i as int);
                }
                assert(decreases_to!(*t => *xs));
                assert(decreases_to!(*xs => xs@));
                assert(decreases_to!(xs@ => xs@[i as int]));
                let x = node_to_text(&xs[i]);
                s.append(x.as_str());
                s.append("\n");
                proof {
                    let sub = xs@.subrange(0, i + 1);
                    assert(sub.subrange(0, i as int) =~= xs@.subrange(0, i as int));
                    assert(sub[i as int] == xs@[i as int]);
                }
                i = i + 1;
            }
            assert(xs@.subrange(0, n as int) =~= xs@);
            s.append("}");
            s
        },
        NodeType::Error => String::from_str("Error"),
    }
}

fn nodes_equal(a: &Node, b: &Node) -> (r: bool)
    ensures
        r == same_node(*a, *b),
    decreases a, 2nat,
{
    types_equal(&a.typ, &b.typ)
}

fn types_equal(a: &NodeType, b: &NodeType) -> (r: bool)
    ensures
        r == same_type(*a, *b),
    decreases a, 1nat,
{
    match a {
        NodeType::Def(x) => match b {
            NodeType::Def(y) => *x == *y,
            _ => false,
        },
        NodeType::Add(l1, r1) => match b {
            NodeType::Add(l2, r2) => nodes_equal(l1, l2) && nodes_equal(r1, r2),
            _ => false,
        },
        NodeType::Sub(l1, r1) => match b {
            NodeType::Sub(l2, r2) => nodes_equal(l1, l2) && nodes_equal(r1, r2),
            _ => false,
        },
        NodeType::Mul(l1, r1) => match b {
            NodeType::Mul(l2, r2) => nodes_equal(l1, l2) && nodes_equal(r1, r2),
            _ => false,
        },
        NodeType::Div(l1, r1) => match b {
            NodeType::Div(l2, r2) => nodes_equal(l1, l2) && nodes_equal(r1, r2),
            _ => false,
        },
        NodeType::Unit(x) => match b {
            NodeType::Unit(y) => *x == *y,
            _ => false,
        },
        NodeType::Num(x) => match b {
            NodeType::Num(y) => *x == *y,
            _ => false,
        },
        NodeType::Assign(x, v1) => match b {
            NodeType::Assign(y, v2) => *x == *y && nodes_equal(v1, v2),
            _ => false,
        },
        NodeType::AddAssign(x, v1) => match b {
            NodeType::AddAssign(y, v2) => *x == *y && nodes_equal(v1, v2),
            _ => false,
        },
        NodeType::SubAssign(x, v1) => match b {
            NodeType::SubAssign(y, v2) => *x == *y && nodes_equal(v1, v2),
            _ => false,
        },
        NodeType::MulAssign(x, v1) => match b {
            NodeType::MulAssign(y, v2) => *x == *y && nodes_equal(v1, v2),
            _ => false,
        },
        NodeType::DivAssign(x, v1) => match b {
            NodeType::DivAssign(y, v2) => *x == *y && nodes_equal(v1, v2),
            _ => false,
        },
        NodeType::Scope(xs) => match b {
            NodeType::Scope(ys) => scopes_equal(a, xs, ys),
            _ => false,
        },
        NodeType::Error => match b {
            NodeType::Error => true,
            _ => false,
        },
    }
}

fn scopes_equal(a: &NodeType, xs: &Vec<Node>, ys: &Vec<Node>) -> (r: bool)
    requires
        *a == NodeType::Scope(*xs),
    ensures
        r == same_nodes(xs@, ys@),
    decreases a, 0nat,
{
    let n = xs.len();
    if n != ys.len() {
        return false;
    }
    let mut i: usize = 0;
    assert(xs@.subrange(0, 0) =~= Seq::<Node>::empty());
    assert(ys@.subrange(0, 0) =~= Seq::<Node>::empty());
    while i < n
        invariant
            n == xs@.len(),
            n == ys@.len(),
            i <= n,
            *a == NodeType::Scope(*xs),
            same_nodes(xs@.subrange(0, i as int), ys@.subrange(0, i as int)),
        decreases n - i,
    {
        assert(decreases_to!(*a => a->Scope_0));
        assert(decreases_to!(a->Scope_0 => a->Scope_0@));
        assert(decreases_to!(a->Scope_0@ => xs@[i as int]));
        if !nodes_equal(&xs[i], &ys[i]) {
            proof {
                if same_nodes(xs@, ys@) {
                    lemma_same_nodes_index(xs@, ys@, i as int);
                }
            }
            return false;
        }
        proof {
            let xi = xs@.subrange(0, i + 1);
            let yi = ys@.subrange(0, i + 1);
            assert(xi.subrange(0, i as int) =~= xs@.subrange(0, i as int));
            assert(yi.subrange(0, i as int) =~= ys@.subrange(0, i as int));
        }
        i = i + 1;
    }
    assert(xs@.subrange(0, n as int) =~= xs@);
    assert(ys@.subrange(0, n as int) =~= ys@);
    true
}

proof fn lemma_same_node_reflexive(n: Node)
    ensures
        same_node(n, n),
    decreases n,
{
    lemma_same_type_reflexive(n.typ);
}

proof fn lemma_same_type_reflexive(t: NodeType)
    ensures
        same_type(t, t),
    decreases t,
{
    match t {
        NodeType::Add(l, r) => {
            lemma_same_node_reflexive(*l);
            lemma_same_node_reflexive(*r);
        },
        NodeType::Sub(l, r) => {
            lemma_same_node_reflexive(*l);
            lemma_same_node_reflexive(*r);
        },
        NodeType::Mul(l, r) => {
            lemma_same_node_reflexive(*l);
            lemma_same_node_reflexive(*r);
        },
        NodeType::Div(l, r) => {
            lemma_same_node_reflexive(*l);
            lemma_same_node_reflexive(*r);
        },
        NodeType::Assign(_, v) => lemma_same_node_reflexive(*v),
        NodeType::AddAssign(_, v) => lemma_same_node_reflexive(*v),
        NodeType::SubAssign(_, v) => lemma_same_node_reflexive(*v),
        NodeType::MulAssign(_, v) => lemma_same_node_reflexive(*v),
        NodeType::DivAssign(_, v) => lemma_same_node_reflexive(*v),
        NodeType::Scope(xs) => {
            assert(decreases_to!(t => xs));
            assert(decreases_to!(xs => xs@));
            lemma_same_nodes_reflexive(xs@);
        },
        _ => {},
    }
}

proof fn lemma_same_nodes_reflexive(xs: Seq<Node>)
    ensures
        same_nodes(xs, xs),
    decreases xs,
{
    if xs.len() > 0 {
        lemma_same_nodes_reflexive(xs.subrange(0, xs.len() - 1));
        lemma_same_node_reflexive(xs[xs.len() - 1]);
    }
}

/// Nodes of one shape compare equal whatever source ranges they carry.
pub proof fn law_equality_ignores_range(typ: NodeType, r1: Range<usize>, r2: Range<usize>)
    ensures
        same_node(Node { typ: typ, range: r1 }, Node { typ: typ, range: r2 }),
{
    lemma_same_type_reflexive(typ);
}

impl PartialEq for Node {
    fn eq(&self, other: &Node) -> (r: bool) {
        nodes_equal(self, other)
    }
}

impl vstd::std_specs::cmp::PartialEqSpecImpl for Node {
    open spec fn obeys_eq_spec() -> bool {
        true
    }

    open spec fn eq_spec(&self, other: &Node) -> bool {
        same_node(*self, *other)
    }
}

impl From<Node> for NodeType {
    fn from(n: Node) -> (r: NodeType) {
        n.typ
    }
}

impl vstd::std_specs::convert::FromSpecImpl<Node> for NodeType {
    open spec fn obeys_from_spec() -> bool {
        true
    }

    open spec fn from_spec(n: Node) -> NodeType {
        n.typ
    }
}

impl PartialEq for NodeType {
    fn eq(&self, other: &NodeType) -> (r: bool) {
        types_equal(self, other)
    }
}

impl vstd::std_specs::cmp::PartialEqSpecImpl for NodeType {
    open spec fn obeys_eq_spec() -> bool {
        true
    }

    open spec fn eq_spec(&self, other: &NodeType) -> bool {
        same_type(*self, *other)
    }
}

impl Node {
    /// Fully parenthesised infix text: `(a + b)`, `(x = v)`, a block's nodes
    /// one per line in braces, `Error` for a parse failure.
    pub fn to_text(&self) -> (r: String)
        requires
            node_wf(*self),
        ensures
            r@ == node_text(*self),
    {
        node_to_text(self)
    }

    pub fn new(typ: NodeType, range: Range<usize>) -> (r: Node)
        ensures
            r.typ == typ,
            r.range == range,
    {
        Node { typ, range }
    }

    /// The node that marks where parsing failed.
    pub fn err(range: Range<usize>) -> (r: Node)
        ensures
            r.typ == NodeType::Error,
            r.range == range,
    {
        Node { typ: NodeType::Error, range }
    }

    /// The node `op(self, rhs)`, spanning both operands.
    fn binary(self, op: BinOp, rhs: Node) -> (r: Node)
        ensures
            r.typ == (match op {
                BinOp::Add => NodeType::Add(Box::new(self), Box::new(rhs)),
                BinOp::Sub => NodeType::Sub(Box::new(self), Box::new(rhs)),
                BinOp::Mul => NodeType::Mul(Box::new(self), Box::new(rhs)),
                BinOp::Div => NodeType::Div(Box::new(self), Box::new(rhs)),
            }),
            r.range.start == min_nat(self.range.start, rhs.range.start),
            r.range.end == max_nat(self.range.end, rhs.range.end),
    {
        let range = merge_ranges(&self.range, &rhs.range);
        let typ = match op {
            BinOp::Add => NodeType::Add(Box::new(self), Box::new(rhs)),
            BinOp::Sub => NodeType::Sub(Box::new(self), Box::new(rhs)),
            BinOp::Mul => NodeType::Mul(Box::new(self), Box::new(rhs)),
            BinOp::Div => NodeType::Div(Box::new(self), Box::new(rhs)),
        };
        Node { typ, range }
    }

    pub fn add(self, rhs: Node) -> (r: Node)
        ensures
            r.typ == NodeType::Add(Box::new(self), Box::new(rhs)),
            r.range.start == min_nat(self.range.start, rhs.range.start),
            r.range.end == max_nat(self.range.end, rhs.range.end),
    {
        self.binary(BinOp::Add, rhs)
    }

    pub fn sub(self, rhs: Node) -> (r: Node)
        ensures
            r.typ == NodeType::Sub(Box::new(self), Box::new(rhs)),
            r.range.start == min_nat(self.range.start, rhs.range.start),
            r.range.end == max_nat(self.range.end, rhs.range.end),
    {
        self.binary(BinOp::Sub, rhs)
    }

    pub fn mul(self, rhs: Node) -> (r: Node)
        ensures
            r.typ == NodeType::Mul(Box::new(self), Box::new(rhs)),
            r.range.start == min_nat(self.range.start, rhs.range.start),
            r.range.end == max_nat(self.range.end, rhs.range.end),
    {
        self.binary(BinOp::Mul, rhs)
    }

    pub fn div(self, rhs: Node) -> (r: Node)
        ensures
            r.typ == NodeType::Div(Box::new(self), Box::new(rhs)),
            r.range.start == min_nat(self.range.start, rhs.range.start),
            r.range.end == max_nat(self.range.end, rhs.range.end),
    {
        self.binary(BinOp::Div, rhs)
    }

    pub open spec fn is_unit_leaf(&self) -> bool {
        self.typ is Unit
    }

    /// Turns a `Unit(name)` leaf into the assignment `kind` of `other` to
    /// `name`, spanning both nodes.
    fn assign_with(&mut self, kind: AssignKind, other: Node)
        requires
            old(self).is_unit_leaf(),
        ensures
            final(self).typ == (match kind {
                AssignKind::Assign => NodeType::Assign(old(self).typ->Unit_0, Box::new(other)),
                AssignKind::Add => NodeType::AddAssign(old(self).typ->Unit_0, Box::new(other)),
                AssignKind::Sub => NodeType::SubAssign(old(self).typ->Unit_0, Box::new(other)),
                AssignKind::Mul => NodeType::MulAssign(old(self).typ->Unit_0, Box::new(other)),
                AssignKind::Div => NodeType::DivAssign(old(self).typ->Unit_0, Box::new(other)),
            }),
            final(self).range.start == min_nat(old(self).range.start, other.range.start),
            final(self).range.end == max_nat(old(self).range.end, other.range.end),
    {
        let range = merge_ranges(&self.range, &other.range);
        let name = match &self.typ {
            NodeType::Unit(name) => name.clone(),
            _ => String::new(),
        };
        let typ = match kind {
            AssignKind::Assign => NodeType::Assign(name, Box::new(other)),
            AssignKind::Add => NodeType::AddAssign(name, Box::new(other)),
            AssignKind::Sub => NodeType::SubAssign(name, Box::new(other)),
            AssignKind::Mul => NodeType::MulAssign(name, Box::new(other)),
            AssignKind::Div => NodeType::DivAssign(name, Box::new(other)),
        };
        *self = Node { typ, range };
    }

    /// `name = other`, where `self` is the leaf `Unit(name)`.
    pub fn assign(&mut self, other: Node)
        requires
            old(self).is_unit_leaf(),
        ensures
            final(self).typ == NodeType::Assign(old(self).typ->Unit_0, Box::new(other)),
            final(self).range.start == min_nat(old(self).range.start, other.range.start),
            final(self).range.end == max_nat(old(self).range.end, other.range.end),
    {
        self.assign_with(AssignKind::Assign, other)
    }

    /// `name += other`, where `self` is the leaf `Unit(name)`.
    pub fn add_assign(&mut self, other: Node)
        requires
            old(self).is_unit_leaf(),
        ensures
            final(self).typ == NodeType::AddAssign(old(self).typ->Unit_0, Box::new(other)),
            final(self).range.start == min_nat(old(self).range.start, other.range.start),
            final(self).range.end == max_nat(old(self).range.end, other.range.end),
    {
        self.assign_with(AssignKind::Add, other)
    }

    /// `name -= other`, where `self` is the leaf `Unit(name)`.
    pub fn sub_assign(&mut self, other: Node)
        requires
            old(self).is_unit_leaf(),
        ensures
            final(self).typ == NodeType::SubAssign(old(self).typ->Unit_0, Box::new(other)),
            final(self).range.start == min_nat(old(self).range.start, other.range.start),
            final(self).range.end == max_nat(old(self).range.end, other.range.end),
    {
        self.assign_with(AssignKind::Sub, other)
    }

    /// `name *= other`, where `self` is the leaf `Unit(name)`.
    pub fn mul_assign(&mut self, other: Node)
        requires
            old(self).is_unit_leaf(),
        ensures
            final(self).typ == NodeType::MulAssign(old(self).typ->Unit_0, Box::new(other)),
            final(self).range.start == min_nat(old(self).range.start, other.range.start),
            final(self).range.end == max_nat(old(self).range.end, other.range.end),
    {
        self.assign_with(AssignKind::Mul, other)
    }

    /// `name /= other`, where `self` is the leaf `Unit(name)`.
    pub fn div_assign(&mut self, other: Node)
        requires
            old(self).is_unit_leaf(),
        ensures
            final(self).typ == NodeType::DivAssign(old(self).typ->Unit_0, Box::new(other)),
            final(self).range.start == min_nat(old(self).range.start, other.range.start),
            final(self).range.end == max_nat(old(self).range.end, other.range.end),
    {
        self.assign_with(AssignKind::Div, other)
    }
}

} // verus!
