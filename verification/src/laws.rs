//! Laws of the backward pass, stated over the chain-rule gradient
//! specification `gradient_of` that `Graph::back_prop_gradient` is proved
//! to compute.

use crate::backprop::{contribution, gradient_of, pending, pow_deriv};
use crate::graph::Graph;
use crate::node::{Node, Op};
use vstd::prelude::*;

verus! {

/// Sum rule: for any two distinct leaves combined by an addition, the
/// backward pass from the sum gives each leaf gradient 1, whatever the
/// leaf values are.
pub proof fn lemma_backward_add(s: Seq<Node>)
    requires
        s.len() == 3,
        s[0].op == Op::Leaf,
        s[1].op == Op::Leaf,
        s[2].op == Op::Add,
        s[2].parents@.len() == 2,
        s[2].parents@[0] as int == 0,
        s[2].parents@[1] as int == 1,
    ensures
        gradient_of(s, 2, 2) == 1,
        gradient_of(s, 2, 0) == 1,
        gradient_of(s, 2, 1) == 1,
{
    reveal_with_fuel(gradient_of, 4);
    reveal_with_fuel(pending, 5);
    assert(contribution(s, 2, 0) == 1);
    assert(contribution(s, 2, 1) == 1);
    assert(contribution(s, 1, 0) == 0);
}

/// Product rule: for any two distinct leaves combined by a multiplication,
/// the backward pass from the product gives each leaf the other leaf's
/// value as its gradient.
pub proof fn lemma_backward_mul(s: Seq<Node>)
    requires
        s.len() == 3,
        s[0].op == Op::Leaf,
        s[1].op == Op::Leaf,
        s[2].op == Op::Mul,
        s[2].parents@.len() == 2,
        s[2].parents@[0] as int == 0,
        s[2].parents@[1] as int == 1,
    ensures
        gradient_of(s, 2, 2) == 1,
        gradient_of(s, 2, 0) == s[1].value as int,
        gradient_of(s, 2, 1) == s[0].value as int,
{
    reveal_with_fuel(gradient_of, 4);
    reveal_with_fuel(pending, 5);
    assert(contribution(s, 2, 0) == s[1].value as int);
    assert(contribution(s, 2, 1) == s[0].value as int);
    assert(contribution(s, 1, 0) == 0);
}

/// Shared-parent addition: when one leaf is used as both operands of an
/// addition, both slots contribute and its gradient is 2.
pub proof fn lemma_backward_add_same(s: Seq<Node>)
    requires
        s.len() == 2,
        s[0].op == Op::Leaf,
        s[1].op == Op::Add,
        s[1].parents@.len() == 2,
        s[1].parents@[0] as int == 0,
        s[1].parents@[1] as int == 0,
    ensures
        gradient_of(s, 1, 1) == 1,
        gradient_of(s, 1, 0) == 2,
{
    reveal_with_fuel(gradient_of, 3);
    reveal_with_fuel(pending, 4);
    assert(contribution(s, 1, 0) == 2);
}

/// Shared-parent multiplication: when one leaf of value `v` is used as
/// both operands of a multiplication, its gradient is `2 * v`.
pub proof fn lemma_backward_mul_same(s: Seq<Node>)
    requires
        s.len() == 2,
        s[0].op == Op::Leaf,
        s[1].op == Op::Mul,
        s[1].parents@.len() == 2,
        s[1].parents@[0] as int == 0,
        s[1].parents@[1] as int == 0,
    ensures
        gradient_of(s, 1, 1) == 1,
        gradient_of(s, 1, 0) == 2 * (s[0].value as int),
{
    reveal_with_fuel(gradient_of, 3);
    reveal_with_fuel(pending, 4);
    assert(contribution(s, 1, 0) == 2 * (s[0].value as int));
}

/// Backward rule of the rectified linear unit: the parent receives the
/// seed gradient 1 exactly when its value is strictly positive, and 0
/// otherwise — in particular 0 at the boundary value 0, even though the
/// forward direction passes 0 through.
pub proof fn lemma_backward_relu(s: Seq<Node>)
    requires
        s.len() == 2,
        s[0].op == Op::Leaf,
        s[1].op == Op::Relu,
        s[1].parents@.len() == 1,
        s[1].parents@[0] as int == 0,
    ensures
        gradient_of(s, 1, 1) == 1,
        gradient_of(s, 1, 0) == (if s[0].value > 0 {
            1int
        } else {
            0int
        }),
{
    reveal_with_fuel(gradient_of, 3);
    reveal_with_fuel(pending, 4);
}

/// Backward rule of the power operation: the base receives
/// `e * a^(e-1)` — the seed gradient times the derivative with respect to
/// the base — while the exponent's gradient stays 0: only the
/// base-derivative branch of the power rule exists.
pub proof fn lemma_backward_pow(s: Seq<Node>)
    requires
        s.len() == 3,
        s[0].op == Op::Leaf,
        s[1].op == Op::Leaf,
        s[1].value >= 0,
        s[2].op == Op::Pow,
        s[2].parents@.len() == 2,
        s[2].parents@[0] as int == 0,
        s[2].parents@[1] as int == 1,
    ensures
        gradient_of(s, 2, 2) == 1,
        gradient_of(s, 2, 0) == pow_deriv(s[0].value as int, s[1].value as int),
        gradient_of(s, 2, 1) == 0,
{
    reveal_with_fuel(gradient_of, 4);
    reveal_with_fuel(pending, 5);
    assert(contribution(s, 2, 0) == pow_deriv(s[0].value as int, s[1].value as int));
    assert(contribution(s, 2, 1) == 0);
    assert(contribution(s, 1, 0) == 0);
}

/// Reproducibility of the backward pass: its result is a function of the
/// values, operations and parent links alone — gradient and label state
/// play no part.  So after resetting every gradient to zero, as
/// `back_prop_gradient` demands, a repeated pass over the same graph with
/// the same terminal reproduces identical gradients: no state leaks from
/// one pass into the next.
pub proof fn lemma_backward_reproducible(first: Graph, second: Graph, t: int, i: int)
    requires
        first.nodes_seq() == second.nodes_seq(),
    ensures
        gradient_of(first.nodes_seq(), t, i) == gradient_of(second.nodes_seq(), t, i),
{
}

} // verus!
