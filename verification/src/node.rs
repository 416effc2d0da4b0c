//! The node record of the computation graph and its well-formedness.

use crate::power::pow_int;
use vstd::prelude::*;

verus! {

/// Which operation produced a node; `Leaf` marks an input with no parents.
/// Negation has no variant of its own: it is built as multiplication by a
/// constant leaf of value -1.
#[derive(Clone, Copy, PartialEq, Eq, Structural, Debug)]
pub enum Op {
    Leaf,
    Add,
    Mul,
    Pow,
    Relu,
}

/// One node of the computation graph: the scalar computed at the node, the
/// operation that produced it, and the arena indices of its operands, in
/// operand order.  Operands are always created before the nodes that use
/// them, so parent indices are strictly smaller than the node's own index.
pub struct Node {
    pub value: i64,
    pub op: Op,
    pub parents: Vec<usize>,
}

/// The value of node `i` as a mathematical integer.
pub open spec fn val(s: Seq<Node>, i: int) -> int {
    s[i].value as int
}

/// Rectified linear unit on integers: negative inputs clamp to zero, and
/// the boundary value zero passes through.
pub open spec fn relu_int(x: int) -> int {
    if x < 0 {
        0
    } else {
        x
    }
}

/// Well-formedness of node `c` within the arena: its arity matches its
/// operation, its parents come strictly before it, and its value is the
/// operation applied to the parent values.  Power nodes additionally carry
/// a nonnegative exponent.
pub open spec fn node_wf(s: Seq<Node>, c: int) -> bool {
    match s[c].op {
        Op::Leaf => s[c].parents@.len() == 0,
        Op::Add => s[c].parents@.len() == 2 && (s[c].parents@[0] as int) < c && (s[c].parents@[1]
            as int) < c && (s[c].value as int) == val(s, s[c].parents@[0] as int) + val(
            s,
            s[c].parents@[1] as int,
        ),
        Op::Mul => s[c].parents@.len() == 2 && (s[c].parents@[0] as int) < c && (s[c].parents@[1]
            as int) < c && (s[c].value as int) == val(s, s[c].parents@[0] as int) * val(
            s,
            s[c].parents@[1] as int,
        ),
        Op::Pow => s[c].parents@.len() == 2 && (s[c].parents@[0] as int) < c && (s[c].parents@[1]
            as int) < c && val(s, s[c].parents@[1] as int) >= 0 && (s[c].value as int) == pow_int(
            val(s, s[c].parents@[0] as int),
            val(s, s[c].parents@[1] as int),
        ),
        Op::Relu => s[c].parents@.len() == 1 && (s[c].parents@[0] as int) < c && (s[c].value
            as int) == relu_int(val(s, s[c].parents@[0] as int)),
    }
}

/// Well-formedness of the whole arena.
pub open spec fn nodes_wf(s: Seq<Node>) -> bool {
    forall|c: int| 0 <= c < s.len() ==> node_wf(s, c)
}

/// Appending a node leaves the well-formedness of the existing nodes
/// untouched, since a node only ever looks at strictly earlier indices.
pub proof fn lemma_node_wf_push(s: Seq<Node>, nd: Node, c: int)
    requires
        0 <= c < s.len(),
        node_wf(s, c),
    ensures
        node_wf(s.push(nd), c),
{
}

/// An arena stays well-formed when a node that is well-formed at the new
/// index is appended.
pub proof fn lemma_nodes_wf_push(s: Seq<Node>, nd: Node)
    requires
        nodes_wf(s),
        node_wf(s.push(nd), s.len() as int),
    ensures
        nodes_wf(s.push(nd)),
{
    assert forall|c: int| 0 <= c < s.push(nd).len() implies node_wf(s.push(nd), c) by {
        if c < s.len() {
            lemma_node_wf_push(s, nd, c);
        }
    }
}

} // verus!
