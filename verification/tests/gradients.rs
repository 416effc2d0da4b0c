use neuron::graph::Graph;

#[test]
fn backward_add_gives_unit_gradients() {
    let mut g = Graph::new();
    let a = g.leaf(5, "a".to_string());
    let b = g.leaf(7, "b".to_string());
    let s = g.add(a, b);
    g.back_prop_gradient(s);
    assert_eq!(g.gradient(s), 1);
    assert_eq!(g.gradient(a), 1);
    assert_eq!(g.gradient(b), 1);
}

#[test]
fn backward_mul_gives_cross_gradients() {
    let mut g = Graph::new();
    let a = g.leaf(5, "a".to_string());
    let b = g.leaf(7, "b".to_string());
    let m = g.mul(a, b);
    g.back_prop_gradient(m);
    assert_eq!(g.gradient(a), 7);
    assert_eq!(g.gradient(b), 5);
}

#[test]
fn backward_self_add_doubles() {
    let mut g = Graph::new();
    let a = g.leaf(3, "a".to_string());
    let s = g.add(a, a);
    g.back_prop_gradient(s);
    assert_eq!(g.gradient(a), 2);
}

#[test]
fn backward_self_mul_doubles_value() {
    let mut g = Graph::new();
    let a = g.leaf(3, "a".to_string());
    let m = g.mul(a, a);
    g.back_prop_gradient(m);
    assert_eq!(g.gradient(a), 2 * 3);
}

#[test]
fn relu_forward_is_max_with_zero() {
    let mut g = Graph::new();
    let p = g.leaf(5, "p".to_string());
    let q = g.leaf(-4, "q".to_string());
    let z = g.leaf(0, "z".to_string());
    let rp = g.relu(p);
    let rq = g.relu(q);
    let rz = g.relu(z);
    assert_eq!(g.value(rp), 5);
    assert_eq!(g.value(rq), 0);
    assert_eq!(g.value(rz), 0);
}

#[test]
fn relu_backward_positive_passes_seed() {
    let mut g = Graph::new();
    let p = g.leaf(5, "p".to_string());
    let r = g.relu(p);
    g.back_prop_gradient(r);
    assert_eq!(g.gradient(p), 1);
}

#[test]
fn relu_backward_negative_blocks() {
    let mut g = Graph::new();
    let q = g.leaf(-4, "q".to_string());
    let r = g.relu(q);
    g.back_prop_gradient(r);
    assert_eq!(g.gradient(q), 0);
}

// The boundary asymmetry: forward passes 0 through (the cutoff is strictly
// negative), while backward zeroes the gradient (the pass-through side is
// strictly positive).
#[test]
fn relu_boundary_zero_is_asymmetric() {
    let mut g = Graph::new();
    let z = g.leaf(0, "z".to_string());
    let r = g.relu(z);
    assert_eq!(g.value(r), 0);
    g.back_prop_gradient(r);
    assert_eq!(g.gradient(r), 1);
    assert_eq!(g.gradient(z), 0);
}

#[test]
fn pow_backward_updates_base_only() {
    let mut g = Graph::new();
    let a = g.leaf(2, "a".to_string());
    let b = g.leaf(10, "b".to_string());
    let p = g.pow(a, b);
    g.back_prop_gradient(p);
    // b * a^(b-1) = 10 * 2^9
    assert_eq!(g.gradient(a), 5120);
    assert_eq!(g.gradient(b), 0);
}

#[test]
fn pow_zero_exponent_gives_zero_gradient() {
    let mut g = Graph::new();
    let a = g.leaf(5, "a".to_string());
    let b = g.leaf(0, "b".to_string());
    let p = g.pow(a, b);
    assert_eq!(g.value(p), 1);
    g.back_prop_gradient(p);
    assert_eq!(g.gradient(a), 0);
}

#[test]
fn neg_backward_gives_minus_one() {
    let mut g = Graph::new();
    let a = g.leaf(4, "a".to_string());
    let n = g.neg(a);
    g.back_prop_gradient(n);
    assert_eq!(g.gradient(a), -1);
}

#[test]
fn canonical_worked_example() {
    let mut g = Graph::new();
    let a = g.leaf(2, "a".to_string());
    let b = g.leaf(-3, "b".to_string());
    let c = g.leaf(10, "c".to_string());

    let e = g.mul(a, b);
    g.with_label(e, "e".to_string());
    assert_eq!(g.value(e), -6);

    let d = g.add(e, c);
    g.with_label(d, "d".to_string());
    assert_eq!(g.value(d), 4);

    let f = g.leaf(-2, "f".to_string());

    let l = g.mul(d, f);
    g.with_label(l, "L".to_string());
    assert_eq!(g.value(l), -8);

    g.back_prop_gradient(l);
    assert_eq!(g.gradient(f), 4);
    assert_eq!(g.gradient(d), -2);
    assert_eq!(g.gradient(c), -2);
    assert_eq!(g.gradient(e), -2);
    assert_eq!(g.gradient(a), 6);
    assert_eq!(g.gradient(b), -4);
}

// Zeroing every gradient and repeating the backward pass with the same
// terminal reproduces identical gradients: no state leaks between passes.
#[test]
fn repeated_backward_reproduces_gradients() {
    let mut g = Graph::new();
    let a = g.leaf(2, "a".to_string());
    let b = g.leaf(-3, "b".to_string());
    let c = g.leaf(10, "c".to_string());
    let e = g.mul(a, b);
    let d = g.add(e, c);
    let f = g.leaf(-2, "f".to_string());
    let l = g.mul(d, f);

    g.back_prop_gradient(l);
    let mut first: Vec<i64> = Vec::new();
    let n = g.len();
    for i in 0..n {
        first.push(g.gradient(i));
    }

    for i in 0..n {
        g.reset_gradient(i);
        assert_eq!(g.gradient(i), 0);
    }
    g.back_prop_gradient(l);
    for i in 0..n {
        assert_eq!(g.gradient(i), first[i]);
    }

    g.zero_gradients();
    g.back_prop_gradient(l);
    for i in 0..n {
        assert_eq!(g.gradient(i), first[i]);
    }
}

// A node the terminal does not depend on keeps gradient zero.
#[test]
fn unrelated_node_keeps_zero_gradient() {
    let mut g = Graph::new();
    let a = g.leaf(5, "a".to_string());
    let b = g.leaf(6, "b".to_string());
    let s = g.add(a, b);
    let stray = g.leaf(9, "stray".to_string());
    g.back_prop_gradient(s);
    assert_eq!(g.gradient(stray), 0);
}

// Diamond reuse: one node consumed by two different operations that merge
// again; contributions along both paths are summed before propagating on.
#[test]
fn diamond_reuse_sums_paths() {
    let mut g = Graph::new();
    let x = g.leaf(3, "x".to_string());
    let p = g.add(x, x);
    let q = g.mul(p, x);
    g.back_prop_gradient(q);
    // q = (x + x) * x = 2x^2, dq/dx = 4x = 12
    assert_eq!(g.gradient(q), 1);
    assert_eq!(g.gradient(p), 3);
    assert_eq!(g.gradient(x), 12);
}
