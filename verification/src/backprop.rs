//! The backward pass: seeds the terminal node's gradient with 1 and
//! propagates gradients towards the leaves in reverse topological order.
//!
//! Parents always have smaller arena indices than their children, so
//! sweeping the arena from the terminal index downward visits every node
//! only after all of its consumers: each node's gradient is complete before
//! it is propagated, which is exactly what diamond-shaped reuse requires.

use crate::node::{node_wf, nodes_wf, val, Node, Op};
use crate::power::{abs_i, lemma_abs_le_scaled, lemma_abs_mul, pow_i64, pow_int};
use vstd::pervasive::VecAdditionalExecFns;
use vstd::prelude::*;

verus! {

/// The derivative of `a ^ e` with respect to the base `a`, for nonnegative
/// exponents: `e * a^(e-1)`, and 0 for the constant `a ^ 0`.  The
/// derivative with respect to the exponent is never propagated.
pub open spec fn pow_deriv(a: int, e: int) -> int {
    if e <= 0 {
        0
    } else {
        e * pow_int(a, e - 1)
    }
}

/// The local derivative of node `c` with respect to its parent slot
/// `slot`: the factor by which the gradient of `c` reaches that operand.
pub open spec fn local_deriv(s: Seq<Node>, c: int, slot: int) -> int {
    match s[c].op {
        Op::Leaf => 0,
        Op::Add => 1,
        Op::Mul => if slot == 0 {
            val(s, s[c].parents@[1] as int)
        } else {
            val(s, s[c].parents@[0] as int)
        },
        Op::Pow => if slot == 0 {
            pow_deriv(val(s, s[c].parents@[0] as int), val(s, s[c].parents@[1] as int))
        } else {
            0
        },
        Op::Relu => if val(s, s[c].parents@[0] as int) > 0 {
            1
        } else {
            0
        },
    }
}

/// The total factor by which the gradient of child `c` flows into node
/// `i`: the sum of the local derivatives over the parent slots of `c` that
/// point at `i`.  A node used as both operands of one operation therefore
/// receives both slots' contributions.
pub open spec fn contribution(s: Seq<Node>, c: int, i: int) -> int {
    (if s[c].parents@.len() >= 1 && s[c].parents@[0] as int == i {
        local_deriv(s, c, 0)
    } else {
        0
    }) + (if s[c].parents@.len() >= 2 && s[c].parents@[1] as int == i {
        local_deriv(s, c, 1)
    } else {
        0
    })
}

/// The gradient of node `i` once terminal node `t` has been seeded with 1:
/// 1 at the terminal itself, and otherwise the chain-rule sum, over every
/// child of `i`, of the child's gradient weighted by the local derivative
/// of the child with respect to `i`.  Nodes that cannot reach `t` get the
/// empty sum 0.
pub open spec fn gradient_of(s: Seq<Node>, t: int, i: int) -> int
    decreases t - i, 1int,
{
    if i == t {
        1
    } else if i < t {
        pending(s, t, i + 1, i)
    } else {
        0
    }
}

/// The partial chain-rule sum into node `i` counting only the children
/// `k..=t`.  The backward sweep processes children from `t` downward, so
/// after it has processed down to child `k`, the accumulator of a node
/// `i < k` holds exactly this sum.
pub open spec fn pending(s: Seq<Node>, t: int, k: int, i: int) -> int
    decreases t - k + 1, 0int,
{
    if k > t {
        0
    } else {
        contribution(s, k, i) * gradient_of(s, t, k) + pending(s, t, k + 1, i)
    }
}

/// Whether `x` fits the range of an `i64`.
pub open spec fn in_i64(x: int) -> bool {
    i64::MIN <= x <= i64::MAX
}

/// Absence of overflow in the backward sweep: every partial gradient sum
/// fits an `i64`, and so does the base-derivative factor of every power
/// node at or below the terminal.
pub open spec fn backward_fits(s: Seq<Node>, t: int) -> bool {
    &&& forall|k: int, i: int| 0 <= i < k <= t + 1 ==> in_i64(pending(s, t, k, i))
    &&& forall|c: int|
        0 <= c <= t && c < s.len() && s[c].op == Op::Pow ==> in_i64(
            pow_deriv(val(s, s[c].parents@[0] as int), val(s, s[c].parents@[1] as int)),
        )
}

/// The accumulator entry for node `i` when the children `k..=t` have been
/// processed: the finished gradient for processed nodes, the seed plus the
/// pending partial sum for the rest, and 0 above the terminal.
pub open spec fn sweep_state(s: Seq<Node>, t: int, k: int, i: int) -> int {
    if i > t {
        0
    } else if i >= k {
        gradient_of(s, t, i)
    } else {
        (if i == t {
            1int
        } else {
            0int
        }) + pending(s, t, k, i)
    }
}

/// Multiplication distributes over addition.
proof fn lemma_mul_distrib(a: int, b: int, c: int)
    ensures
        (a + b) * c == a * c + b * c,
{
    assert((a + b) * c == a * c + b * c) by (nonlinear_arith);
}

/// A product of two factors of magnitude at most 2^63 fits comfortably
/// within an `i128`.
proof fn lemma_term_bound(x: int, y: int)
    requires
        abs_i(x) <= 0x8000_0000_0000_0000,
        abs_i(y) <= 0x8000_0000_0000_0000,
    ensures
        abs_i(x * y) <= 0x4000_0000_0000_0000_0000_0000_0000_0000,
{
    lemma_abs_mul(x, y);
    assert(abs_i(x) * abs_i(y) <= 0x4000_0000_0000_0000_0000_0000_0000_0000)
        by (nonlinear_arith)
        requires
            0 <= abs_i(x) <= 0x8000_0000_0000_0000,
            0 <= abs_i(y) <= 0x8000_0000_0000_0000,
    ;
}

/// If `e * p` fits an `i64` for a scaling factor `e >= 1`, then so does
/// `p` itself.
proof fn lemma_scaled_in_i64(p: int, e: int)
    requires
        e >= 1,
        in_i64(e * p),
    ensures
        in_i64(p),
{
    lemma_abs_le_scaled(p, e);
    if p > i64::MAX {
        assert(e * p >= p) by (nonlinear_arith)
            requires
                e >= 1,
                p >= 0,
        ;
    }
}

/// Computes the gradient of every node with respect to terminal node `t`,
/// by one sweep over the arena from `t` downward.  Accumulation runs in
/// 128-bit arithmetic; the `backward_fits` precondition bounds every
/// partial sum.
#[verifier::rlimit(80)]
pub(crate) fn compute_gradients(nodes: &Vec<Node>, t: usize) -> (r: Vec<i64>)
    requires
        nodes_wf(nodes@),
        (t as int) < nodes@.len(),
        backward_fits(nodes@, t as int),
    ensures
        r@.len() == nodes@.len(),
        forall|i: int| 0 <= i < r@.len() ==> r@[i] as int == gradient_of(nodes@, t as int, i),
{
    let ghost s = nodes@;
    let ghost ti = t as int;
    let n = nodes.len();
    let mut acc: Vec<i128> = Vec::new();
    let mut z: usize = 0;
    while z < n
        invariant
            z <= n,
            acc@.len() == z as int,
            forall|i: int| 0 <= i < z ==> acc@[i] == 0i128,
        decreases n - z,
    {
        acc.push(0);
        z = z + 1;
    }
    acc.set(t, 1);
    proof {
        assert forall|i: int| 0 <= i < n implies acc@[i] as int == sweep_state(s, ti, ti + 1, i) by {
            assert(pending(s, ti, ti + 1, i) == 0);
        }
    }
    let mut k: usize = t + 1;
    while k > 0
        invariant
            k <= t + 1,
            t as int == ti,
            ti < n,
            n == s.len(),
            nodes@ == s,
            acc@.len() == n as int,
            nodes_wf(s),
            backward_fits(s, ti),
            forall|i: int| 0 <= i < n ==> acc@[i] as int == sweep_state(s, ti, k as int, i),
        decreases k,
    {
        k = k - 1;
        let ghost kk = k as int;
        proof {
            assert(node_wf(s, kk));
            if kk == ti {
                assert(pending(s, ti, ti + 1, ti) == 0);
            }
            assert(acc@[kk] as int == sweep_state(s, ti, kk + 1, kk));
            assert(acc@[kk] as int == gradient_of(s, ti, kk));
            if kk < ti {
                assert(in_i64(pending(s, ti, kk + 1, kk)));
            }
            assert(in_i64(gradient_of(s, ti, kk)));
        }
        let gc: i128 = acc[k];
        let ghost acc0 = acc@;
        let op = nodes[k].op;
        match op {
            Op::Leaf => {
                proof {
                    assert forall|i: int| 0 <= i < n implies acc@[i] as int == sweep_state(
                        s,
                        ti,
                        kk,
                        i,
                    ) by {
                        if i < kk {
                            assert(pending(s, ti, kk, i) == contribution(s, kk, i) * gradient_of(
                                s,
                                ti,
                                kk,
                            ) + pending(s, ti, kk + 1, i));
                            assert(contribution(s, kk, i) == 0);
                        }
                    }
                }
            },
            Op::Add => {
                let p0 = nodes[k].parents[0];
                let p1 = nodes[k].parents[1];
                proof {
                    assert((p0 as int) < kk && (p1 as int) < kk);
                    assert(in_i64(pending(s, ti, kk + 1, p0 as int)));
                    assert(in_i64(pending(s, ti, kk + 1, p1 as int)));
                }
                let c0 = acc[p0];
                acc.set(p0, c0 + gc);
                let c1 = acc[p1];
                acc.set(p1, c1 + gc);
                proof {
                    assert forall|i: int| 0 <= i < n implies acc@[i] as int == sweep_state(
                        s,
                        ti,
                        kk,
                        i,
                    ) by {
                        if i < kk {
                            assert(pending(s, ti, kk, i) == contribution(s, kk, i) * gradient_of(
                                s,
                                ti,
                                kk,
                            ) + pending(s, ti, kk + 1, i));
                            lemma_mul_distrib(1, 1, gradient_of(s, ti, kk));
                        }
                    }
                }
            },
            Op::Mul => {
                let p0 = nodes[k].parents[0];
                let p1 = nodes[k].parents[1];
                let v0 = nodes[p0].value;
                let v1 = nodes[p1].value;
                let ghost gci = gradient_of(s, ti, kk);
                proof {
                    assert((p0 as int) < kk && (p1 as int) < kk);
                    assert(in_i64(pending(s, ti, kk + 1, p0 as int)));
                    assert(in_i64(pending(s, ti, kk + 1, p1 as int)));
                    lemma_term_bound(v1 as int, gc as int);
                    lemma_term_bound(v0 as int, gc as int);
                }
                let t0 = (v1 as i128) * gc;
                let t1 = (v0 as i128) * gc;
                let c0 = acc[p0];
                acc.set(p0, c0 + t0);
                let c1 = acc[p1];
                proof {
                    // the second addition completes the contribution of
                    // child `kk` into `p1`, a partial sum bounded by the
                    // overflow precondition
                    assert(pending(s, ti, kk, p1 as int) == contribution(s, kk, p1 as int) * gci
                        + pending(s, ti, kk + 1, p1 as int));
                    lemma_mul_distrib(v1 as int, v0 as int, gci);
                    assert(c1 as int + t1 as int == pending(s, ti, kk, p1 as int));
                    assert(in_i64(pending(s, ti, kk, p1 as int)));
                }
                acc.set(p1, c1 + t1);
                proof {
                    assert forall|i: int| 0 <= i < n implies acc@[i] as int == sweep_state(
                        s,
                        ti,
                        kk,
                        i,
                    ) by {
                        if i < kk {
                            assert(acc0[i] as int == sweep_state(s, ti, kk + 1, i));
                            assert(i != ti);
                            assert(pending(s, ti, kk, i) == contribution(s, kk, i) * gradient_of(
                                s,
                                ti,
                                kk,
                            ) + pending(s, ti, kk + 1, i));
                            assert(gc as int == gradient_of(s, ti, kk));
                            if i == p0 as int && i == p1 as int {
                                lemma_mul_distrib(v1 as int, v0 as int, gci);
                                assert(contribution(s, kk, i) == v1 as int + v0 as int);
                                assert(acc@[i] as int == acc0[i] as int + (v1 as int) * (gc as int)
                                    + (v0 as int) * (gc as int));
                                assert(acc@[i] as int == sweep_state(s, ti, kk, i));
                            } else if i == p0 as int {
                                assert(contribution(s, kk, i) == v1 as int);
                                assert(acc@[i] as int == acc0[i] as int + (v1 as int) * (
                                gc as int));
                                assert(acc@[i] as int == sweep_state(s, ti, kk, i));
                            } else if i == p1 as int {
                                assert(contribution(s, kk, i) == v0 as int);
                                assert(acc@[i] as int == acc0[i] as int + (v0 as int) * (
                                gc as int));
                                assert(acc@[i] as int == sweep_state(s, ti, kk, i));
                            } else {
                                assert(contribution(s, kk, i) == 0);
                                assert(acc@[i] == acc0[i]);
                                assert(acc@[i] as int == sweep_state(s, ti, kk, i));
                            }
                        } else {
                            assert(acc@[i] == acc0[i]);
                            assert(acc@[i] as int == sweep_state(s, ti, kk, i));
                        }
                    }
                }
            },
            Op::Relu => {
                let p0 = nodes[k].parents[0];
                let v0 = nodes[p0].value;
                proof {
                    assert((p0 as int) < kk);
                    assert(in_i64(pending(s, ti, kk + 1, p0 as int)));
                }
                if v0 > 0 {
                    let c0 = acc[p0];
                    acc.set(p0, c0 + gc);
                }
                proof {
                    assert forall|i: int| 0 <= i < n implies acc@[i] as int == sweep_state(
                        s,
                        ti,
                        kk,
                        i,
                    ) by {
                        if i < kk {
                            assert(acc0[i] as int == sweep_state(s, ti, kk + 1, i));
                            assert(i != ti);
                            assert(pending(s, ti, kk, i) == contribution(s, kk, i) * gradient_of(
                                s,
                                ti,
                                kk,
                            ) + pending(s, ti, kk + 1, i));
                            assert(gc as int == gradient_of(s, ti, kk));
                            if i == p0 as int {
                                assert(contribution(s, kk, i) == (if val(s, p0 as int) > 0 {
                                    1int
                                } else {
                                    0int
                                }));
                                assert(acc0[i] as int == pending(s, ti, kk + 1, i));
                                assert(sweep_state(s, ti, kk, i) == pending(s, ti, kk, i));
                                if v0 > 0 {
                                    assert(acc@[i] as int == acc0[i] as int + gc as int);
                                    assert(contribution(s, kk, i) * gradient_of(s, ti, kk)
                                        == gc as int);
                                } else {
                                    assert(acc@[i] == acc0[i]);
                                    assert(contribution(s, kk, i) * gradient_of(s, ti, kk) == 0);
                                }
                                assert(acc@[i] as int == sweep_state(s, ti, kk, i));
                            } else {
                                assert(contribution(s, kk, i) == 0);
                                assert(acc@[i] == acc0[i]);
                                assert(acc@[i] as int == sweep_state(s, ti, kk, i));
                            }
                        } else {
                            assert(acc@[i] == acc0[i]);
                            assert(acc@[i] as int == sweep_state(s, ti, kk, i));
                        }
                    }
                }
            },
            Op::Pow => {
                let p0 = nodes[k].parents[0];
                let p1 = nodes[k].parents[1];
                let e = nodes[p1].value;
                proof {
                    assert((p0 as int) < kk && (p1 as int) < kk);
                    assert(in_i64(pending(s, ti, kk + 1, p0 as int)));
                    assert(e as int == val(s, p1 as int) && e >= 0);
                    assert(in_i64(pow_deriv(val(s, p0 as int), val(s, p1 as int))));
                }
                if e >= 1 {
                    let basev = nodes[p0].value;
                    proof {
                        assert(pow_deriv(basev as int, e as int) == (e as int) * pow_int(
                            basev as int,
                            e as int - 1,
                        ));
                        lemma_scaled_in_i64(pow_int(basev as int, e as int - 1), e as int);
                    }
                    let pm = pow_i64(basev, e - 1);
                    let dv = (e as i128) * (pm as i128);
                    proof {
                        assert(dv as int == pow_deriv(val(s, p0 as int), val(s, p1 as int)));
                        lemma_term_bound(dv as int, gc as int);
                    }
                    let c0 = acc[p0];
                    acc.set(p0, c0 + dv * gc);
                }
                proof {
                    assert forall|i: int| 0 <= i < n implies acc@[i] as int == sweep_state(
                        s,
                        ti,
                        kk,
                        i,
                    ) by {
                        if i < kk {
                            assert(acc0[i] as int == sweep_state(s, ti, kk + 1, i));
                            assert(i != ti);
                            assert(pending(s, ti, kk, i) == contribution(s, kk, i) * gradient_of(
                                s,
                                ti,
                                kk,
                            ) + pending(s, ti, kk + 1, i));
                            assert(gc as int == gradient_of(s, ti, kk));
                            if i == p0 as int {
                                assert(contribution(s, kk, i) == pow_deriv(
                                    val(s, p0 as int),
                                    val(s, p1 as int),
                                ));
                                if val(s, p1 as int) >= 1 {
                                    assert(acc@[i] as int == acc0[i] as int + pow_deriv(
                                        val(s, p0 as int),
                                        val(s, p1 as int),
                                    ) * (gc as int));
                                } else {
                                    assert(pow_deriv(val(s, p0 as int), val(s, p1 as int)) == 0);
                                    assert(acc@[i] == acc0[i]);
                                }
                                assert(acc@[i] as int == sweep_state(s, ti, kk, i));
                            } else {
                                assert(contribution(s, kk, i) == 0);
                                assert(acc@[i] == acc0[i]);
                                assert(acc@[i] as int == sweep_state(s, ti, kk, i));
                            }
                        } else {
                            assert(acc@[i] == acc0[i]);
                            assert(acc@[i] as int == sweep_state(s, ti, kk, i));
                        }
                    }
                }
            },
        }
    }
    let mut out: Vec<i64> = Vec::new();
    let mut w: usize = 0;
    while w < n
        invariant
            w <= n,
            out@.len() == w as int,
            acc@.len() == n as int,
            n == s.len(),
            nodes@ == s,
            ti < n,
            t as int == ti,
            backward_fits(s, ti),
            forall|i: int| 0 <= i < n ==> acc@[i] as int == sweep_state(s, ti, 0, i),
            forall|i: int| 0 <= i < w ==> out@[i] as int == gradient_of(s, ti, i),
        decreases n - w,
    {
        proof {
            assert(acc@[w as int] as int == sweep_state(s, ti, 0, w as int));
            if (w as int) < ti {
                assert(in_i64(pending(s, ti, w as int + 1, w as int)));
            }
            assert(in_i64(gradient_of(s, ti, w as int)));
        }
        let g = acc[w];
        out.push(g as i64);
        w = w + 1;
    }
    out
}

} // verus!
