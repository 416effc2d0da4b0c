use neuron::graph::Graph;
use neuron::node::Op;

#[test]
fn test_add() {
    let mut g = Graph::new();
    let a = g.leaf(10, "a".to_string());
    let b = g.leaf(11, "b".to_string());
    let c = g.leaf(21, "c".to_string());

    let a_plus_b = g.add(a, b);
    g.with_label(a_plus_b, "a+b".to_string());

    assert_eq!(g.value(a_plus_b), g.value(c));
    assert_eq!(g.gradient(a_plus_b), g.gradient(c));

    g.back_prop_gradient(a_plus_b);
    println!("{:?}", (g.value(a_plus_b), g.gradient(a_plus_b)));
}

#[test]
fn test_mul() {
    let mut g = Graph::new();
    let a = g.leaf(2, "a".to_string());
    let b = g.leaf(11, "b".to_string());
    let c = g.leaf(22, "c".to_string());

    let a_mul_b = g.mul(a, b);
    g.with_label(a_mul_b, "a*b".to_string());

    assert_eq!(g.value(a_mul_b), g.value(c));
    assert_eq!(g.gradient(a_mul_b), g.gradient(c));

    g.back_prop_gradient(a_mul_b);
    println!("{:?}", (g.value(a_mul_b), g.gradient(a_mul_b)));
}

#[test]
fn test_visualize() {
    let mut g = Graph::new();
    let a = g.leaf(2, "a".to_string());
    let b = g.leaf(-3, "b".to_string());
    let c = g.leaf(10, "c".to_string());

    let e = g.mul(a, b);
    g.with_label(e, "e".to_string());

    let d = g.add(e, c);
    g.with_label(d, "d".to_string());

    let f = g.leaf(-2, "f".to_string());

    let l = g.mul(d, f);
    g.with_label(l, "L".to_string());

    let edges = g.edges();
    for (p, ch) in &edges {
        println!("{} -> {}", p, ch);
    }
    assert_eq!(edges, vec![(a, e), (b, e), (e, d), (c, d), (d, l), (f, l)]);
}

#[test]
fn nn_test_nn() {
    let mut g = Graph::new();
    let a = g.leaf(2, "a".to_string());
    let b = g.leaf(-3, "b".to_string());
    let c = g.leaf(10, "c".to_string());

    let e = g.mul(a, b);
    g.with_label(e, "e".to_string());

    let d = g.add(e, c);
    g.with_label(d, "d".to_string());

    let f = g.leaf(-2, "f".to_string());

    let l = g.mul(d, f);
    g.with_label(l, "L".to_string());

    g.back_prop_gradient(l);

    let edges = g.edges();
    println!("{:?}", edges);
}

#[test]
fn use_node_multiple() {
    let mut g = Graph::new();
    let a = g.leaf(3, "a".to_string());
    let b = g.add(a, a);
    g.with_label(b, "b".to_string());
    g.back_prop_gradient(b);
}

#[test]
fn val_test_nn() {
    let mut g = Graph::new();
    let a = g.leaf(2, "a".to_string());
    let b = g.leaf(-3, "b".to_string());
    let c = g.leaf(10, "c".to_string());

    let e = g.mul(a, b);
    g.with_label(e, "e".to_string());

    let d = g.add(e, c);
    g.with_label(d, "d".to_string());

    let f = g.leaf(-2, "f".to_string());

    let l = g.mul(d, f);
    g.with_label(l, "L".to_string());

    g.back_prop_gradient(l);

    let edges = g.edges();
    println!("{:?}", edges);
}

#[test]
fn add_node_parents_same() {
    let mut g = Graph::new();
    let a = g.leaf(3, "a".to_string());
    let b = g.add(a, a);
    g.with_label(b, "b".to_string());
    g.back_prop_gradient(b);
}

#[test]
fn mul_node_parents_same() {
    let mut g = Graph::new();
    let a = g.leaf(3, "a".to_string());
    let b = g.mul(a, a);
    g.with_label(b, "b".to_string());
    g.back_prop_gradient(b);
}

#[test]
fn leaf_starts_clean() {
    let mut g = Graph::new();
    let a = g.leaf(7, "a".to_string());
    assert_eq!(g.len(), 1);
    assert_eq!(g.value(a), 7);
    assert_eq!(g.gradient(a), 0);
    assert_eq!(g.operation(a), Op::Leaf);
    assert_eq!(g.parent_count(a), 0);
    assert_eq!(g.label(a), &Some("a".to_string()));
}

#[test]
fn constant_has_no_label() {
    let mut g = Graph::new();
    let c = g.constant(-1);
    assert_eq!(g.value(c), -1);
    assert_eq!(g.label(c), &None);
}

#[test]
fn operation_tags_and_parents() {
    let mut g = Graph::new();
    let a = g.leaf(4, "a".to_string());
    let b = g.leaf(3, "b".to_string());
    let s = g.add(a, b);
    let m = g.mul(a, b);
    let p = g.pow(a, b);
    let r = g.relu(a);
    assert_eq!(g.operation(s), Op::Add);
    assert_eq!(g.operation(m), Op::Mul);
    assert_eq!(g.operation(p), Op::Pow);
    assert_eq!(g.operation(r), Op::Relu);
    assert_eq!(g.parent_count(s), 2);
    assert_eq!(g.parent(s, 0), a);
    assert_eq!(g.parent(s, 1), b);
    assert_eq!(g.parent_count(r), 1);
    assert_eq!(g.parent(r, 0), a);
}

#[test]
fn pow_computes_value() {
    let mut g = Graph::new();
    let a = g.leaf(2, "a".to_string());
    let b = g.leaf(10, "b".to_string());
    let p = g.pow(a, b);
    assert_eq!(g.value(p), 1024);
}

#[test]
fn neg_is_mul_by_minus_one() {
    let mut g = Graph::new();
    let a = g.leaf(4, "a".to_string());
    let n = g.neg(a);
    assert_eq!(g.value(n), -4);
    assert_eq!(g.operation(n), Op::Mul);
    let c = g.parent(n, 0);
    assert_eq!(g.value(c), -1);
    assert_eq!(g.operation(c), Op::Leaf);
    assert_eq!(g.parent(n, 1), a);
}

#[test]
fn reset_gradient_clears_one_node() {
    let mut g = Graph::new();
    let a = g.leaf(5, "a".to_string());
    let b = g.leaf(6, "b".to_string());
    let s = g.add(a, b);
    g.back_prop_gradient(s);
    assert_eq!(g.gradient(a), 1);
    g.reset_gradient(a);
    assert_eq!(g.gradient(a), 0);
    assert_eq!(g.gradient(b), 1);
}
