use unitlang::decimal::Decimal;
use unitlang::node::{merge_ranges, Node, NodeType};

fn leaf(name: &str, start: usize, end: usize) -> Node {
    Node::new(NodeType::Unit(name.to_string()), start..end)
}

fn num(n: i64, start: usize, end: usize) -> Node {
    Node::new(NodeType::Num(Decimal::from_int(n)), start..end)
}

#[test]
fn equality_ignores_range() {
    let a = leaf("x", 0, 1).add(num(1, 4, 5));
    let b = leaf("x", 10, 11).add(num(1, 20, 21));
    assert!(a == b);
    let c = leaf("x", 0, 1).sub(num(1, 4, 5));
    assert!(a != c);
}

#[test]
fn binary_range_is_union() {
    let a = num(1, 7, 9).mul(leaf("m", 2, 3));
    assert_eq!(a.range, 2..9);
    let b = leaf("m", 2, 12).div(num(1, 7, 9));
    assert_eq!(b.range, 2..12);
}

#[test]
fn merge_ranges_takes_smallest_start_and_largest_end() {
    assert_eq!(merge_ranges(&(3..5), &(1..2)), 1..5);
    assert_eq!(merge_ranges(&(1..2), &(3..5)), 1..5);
    assert_eq!(merge_ranges(&(1..10), &(3..5)), 1..10);
}

#[test]
fn assign_turns_leaf_into_assignment() {
    let mut n = leaf("x", 0, 1);
    n.assign(num(2, 4, 5));
    assert_eq!(n.range, 0..5);
    assert_eq!(n.to_text(), "(x = 2)");
    let mut m = leaf("y", 0, 1);
    m.add_assign(num(3, 5, 6));
    assert_eq!(m.to_text(), "(y += 3)");
    let mut s = leaf("y", 0, 1);
    s.sub_assign(num(3, 5, 6));
    assert_eq!(s.to_text(), "(y -= 3)");
    let mut p = leaf("y", 0, 1);
    p.mul_assign(num(3, 5, 6));
    assert_eq!(p.to_text(), "(y *= 3)");
    let mut q = leaf("y", 0, 1);
    q.div_assign(num(3, 5, 6));
    assert_eq!(q.to_text(), "(y /= 3)");
}

#[test]
fn node_display() {
    let e = leaf("a", 0, 1).add(num(1, 4, 5)).mul(leaf("b", 8, 9));
    assert_eq!(e.to_text(), "((a + 1) * b)");
    let mut asg = leaf("x", 0, 1);
    asg.assign(num(1, 4, 5));
    let block = Node::new(NodeType::Scope(vec![asg, Node::err(6..7)]), 0..8);
    assert_eq!(block.to_text(), "{\n(x = 1)\nError\n}");
    let d = Node::new(NodeType::Def("f".to_string()), 0..5);
    assert_eq!(d.to_text(), "(def f)");
    assert_eq!(Node::new(NodeType::Scope(vec![]), 0..2).to_text(), "{\n}");
}

#[test]
fn scope_equality_compares_children() {
    let a = Node::new(NodeType::Scope(vec![num(1, 0, 1), leaf("m", 2, 3)]), 0..3);
    let b = Node::new(NodeType::Scope(vec![num(1, 5, 6), leaf("m", 7, 8)]), 5..8);
    let c = Node::new(NodeType::Scope(vec![num(1, 0, 1)]), 0..1);
    assert!(a == b);
    assert!(a != c);
}
