//! The computation graph: an append-only arena of nodes.
//!
//! Nodes are addressed by their index of creation.  An operator records its
//! operands as parent indices, which are always strictly smaller than the
//! index of the new node, so the graph is acyclic by construction and the
//! arena order is a topological order.

use crate::backprop::{backward_fits, compute_gradients, gradient_of};
use crate::node::{lemma_nodes_wf_push, node_wf, nodes_wf, relu_int, val, Node, Op};
use crate::power::{pow_i64, pow_int};
use vstd::pervasive::VecAdditionalExecFns;
use vstd::prelude::*;

verus! {

/// The arena.  Values, operations and parent links are fixed at creation;
/// only gradients and labels are ever updated afterwards.
pub struct Graph {
    pub(crate) nodes: Vec<Node>,
    pub(crate) grads: Vec<i64>,
    pub(crate) labels: Vec<Option<String>>,
}

impl Graph {
    /// The nodes of the arena, in creation order.
    pub closed spec fn nodes_seq(&self) -> Seq<Node> {
        self.nodes@
    }

    /// The accumulated gradient of each node.
    pub closed spec fn grads_seq(&self) -> Seq<i64> {
        self.grads@
    }

    /// The optional label of each node.
    pub closed spec fn labels_seq(&self) -> Seq<Option<String>> {
        self.labels@
    }

    /// Number of nodes.
    pub open spec fn n(&self) -> int {
        self.nodes_seq().len() as int
    }

    /// Value of node `i` as a mathematical integer.
    pub open spec fn val_at(&self, i: int) -> int {
        val(self.nodes_seq(), i)
    }

    /// Gradient of node `i` as a mathematical integer.
    pub open spec fn grad_at(&self, i: int) -> int {
        self.grads_seq()[i] as int
    }

    /// Operation that produced node `i`.
    pub open spec fn op_at(&self, i: int) -> Op {
        self.nodes_seq()[i].op
    }

    /// Parent indices of node `i`, in operand order.
    pub open spec fn parents_at(&self, i: int) -> Seq<usize> {
        self.nodes_seq()[i].parents@
    }

    /// Label of node `i`.
    pub open spec fn label_at(&self, i: int) -> Option<String> {
        self.labels_seq()[i]
    }

    /// The arena invariant: one gradient and one label per node, and every
    /// node well-formed.
    pub open spec fn wf(&self) -> bool {
        &&& self.grads_seq().len() == self.nodes_seq().len()
        &&& self.labels_seq().len() == self.nodes_seq().len()
        &&& nodes_wf(self.nodes_seq())
    }

    /// The graph extends `prev`: every node of `prev` is still present,
    /// unchanged in value, operation, parents, gradient and label.
    pub open spec fn extends(self, prev: Graph) -> bool {
        &&& prev.n() <= self.n()
        &&& forall|i: int| 0 <= i < prev.n() ==> self.nodes_seq()[i] == prev.nodes_seq()[i]
        &&& forall|i: int| 0 <= i < prev.n() ==> self.grad_at(i) == prev.grad_at(i)
        &&& forall|i: int| 0 <= i < prev.n() ==> self.label_at(i) == prev.label_at(i)
    }

    /// An empty graph.
    pub fn new() -> (g: Graph)
        ensures
            g.wf(),
            g.n() == 0,
    {
        Graph { nodes: Vec::new(), grads: Vec::new(), labels: Vec::new() }
    }

    /// Appends a node with gradient zero; the node must be well-formed at
    /// the index it receives.
    fn push_node(&mut self, nd: Node, label: Option<String>) -> (r: usize)
        requires
            old(self).wf(),
            node_wf(old(self).nodes_seq().push(nd), old(self).n()),
        ensures
            final(self).wf(),
            r as int == old(self).n(),
            final(self).n() == old(self).n() + 1,
            final(self).extends(*old(self)),
            final(self).nodes_seq() == old(self).nodes_seq().push(nd),
            final(self).grad_at(r as int) == 0,
            final(self).label_at(r as int) == label,
    {
        let r = self.nodes.len();
        proof {
            lemma_nodes_wf_push(self.nodes@, nd);
        }
        self.nodes.push(nd);
        self.grads.push(0);
        self.labels.push(label);
        r
    }

    /// A new leaf node holding an input `value` under the given label, with
    /// gradient zero and no parents.  Every call allocates a fresh node:
    /// leaves with equal values remain distinct nodes.
    pub fn leaf(&mut self, value: i64, label: String) -> (r: usize)
        requires
            old(self).wf(),
        ensures
            final(self).wf(),
            final(self).extends(*old(self)),
            r as int == old(self).n(),
            final(self).n() == old(self).n() + 1,
            final(self).op_at(r as int) == Op::Leaf,
            final(self).val_at(r as int) == value as int,
            final(self).parents_at(r as int).len() == 0,
            final(self).grad_at(r as int) == 0,
            final(self).label_at(r as int) == Some(label),
    {
        self.push_node(Node { value: value, op: Op::Leaf, parents: Vec::new() }, Some(label))
    }

    /// A new unlabeled leaf node, used for constants.
    pub fn constant(&mut self, value: i64) -> (r: usize)
        requires
            old(self).wf(),
        ensures
            final(self).wf(),
            final(self).extends(*old(self)),
            r as int == old(self).n(),
            final(self).n() == old(self).n() + 1,
            final(self).op_at(r as int) == Op::Leaf,
            final(self).val_at(r as int) == value as int,
            final(self).parents_at(r as int).len() == 0,
            final(self).grad_at(r as int) == 0,
            final(self).label_at(r as int) is None,
    {
        self.push_node(Node { value: value, op: Op::Leaf, parents: Vec::new() }, None)
    }

    /// The sum node of two existing nodes, recording them as parents in
    /// operand order.
    pub fn add(&mut self, a: usize, b: usize) -> (r: usize)
        requires
            old(self).wf(),
            (a as int) < old(self).n(),
            (b as int) < old(self).n(),
            i64::MIN <= old(self).val_at(a as int) + old(self).val_at(b as int) <= i64::MAX,
        ensures
            final(self).wf(),
            final(self).extends(*old(self)),
            r as int == old(self).n(),
            final(self).n() == old(self).n() + 1,
            final(self).op_at(r as int) == Op::Add,
            final(self).val_at(r as int) == old(self).val_at(a as int) + old(self).val_at(b as int),
            final(self).parents_at(r as int) == seq![a, b],
            final(self).grad_at(r as int) == 0,
            final(self).label_at(r as int) is None,
    {
        let va = self.nodes[a].value;
        let vb = self.nodes[b].value;
        let mut ps: Vec<usize> = Vec::new();
        ps.push(a);
        ps.push(b);
        let nd = Node { value: va + vb, op: Op::Add, parents: ps };
        proof {
            assert(nd.parents@ =~= seq![a, b]);
            assert(node_wf(self.nodes@.push(nd), self.nodes@.len() as int));
        }
        self.push_node(nd, None)
    }

    /// The product node of two existing nodes.
    pub fn mul(&mut self, a: usize, b: usize) -> (r: usize)
        requires
            old(self).wf(),
            (a as int) < old(self).n(),
            (b as int) < old(self).n(),
            i64::MIN <= old(self).val_at(a as int) * old(self).val_at(b as int) <= i64::MAX,
        ensures
            final(self).wf(),
            final(self).extends(*old(self)),
            r as int == old(self).n(),
            final(self).n() == old(self).n() + 1,
            final(self).op_at(r as int) == Op::Mul,
            final(self).val_at(r as int) == old(self).val_at(a as int) * old(self).val_at(b as int),
            final(self).parents_at(r as int) == seq![a, b],
            final(self).grad_at(r as int) == 0,
            final(self).label_at(r as int) is None,
    {
        let va = self.nodes[a].value;
        let vb = self.nodes[b].value;
        let mut ps: Vec<usize> = Vec::new();
        ps.push(a);
        ps.push(b);
        let nd = Node { value: va * vb, op: Op::Mul, parents: ps };
        proof {
            assert(nd.parents@ =~= seq![a, b]);
            assert(node_wf(self.nodes@.push(nd), self.nodes@.len() as int));
        }
        self.push_node(nd, None)
    }

    /// The power node `a ^ b` for a nonnegative exponent node `b`.  Only
    /// the derivative with respect to the base is ever propagated; see the
    /// backward pass.
    pub fn pow(&mut self, a: usize, b: usize) -> (r: usize)
        requires
            old(self).wf(),
            (a as int) < old(self).n(),
            (b as int) < old(self).n(),
            old(self).val_at(b as int) >= 0,
            i64::MIN <= pow_int(old(self).val_at(a as int), old(self).val_at(b as int))
                <= i64::MAX,
        ensures
            final(self).wf(),
            final(self).extends(*old(self)),
            r as int == old(self).n(),
            final(self).n() == old(self).n() + 1,
            final(self).op_at(r as int) == Op::Pow,
            final(self).val_at(r as int) == pow_int(
                old(self).val_at(a as int),
                old(self).val_at(b as int),
            ),
            final(self).parents_at(r as int) == seq![a, b],
            final(self).grad_at(r as int) == 0,
            final(self).label_at(r as int) is None,
    {
        let base = self.nodes[a].value;
        let e = self.nodes[b].value;
        let v = pow_i64(base, e);
        let mut ps: Vec<usize> = Vec::new();
        ps.push(a);
        ps.push(b);
        let nd = Node { value: v, op: Op::Pow, parents: ps };
        proof {
            assert(nd.parents@ =~= seq![a, b]);
            assert(node_wf(self.nodes@.push(nd), self.nodes@.len() as int));
        }
        self.push_node(nd, None)
    }

    /// The rectified linear unit of an existing node: a negative value is
    /// reset to zero, any other value (zero included) passes through.
    pub fn relu(&mut self, a: usize) -> (r: usize)
        requires
            old(self).wf(),
            (a as int) < old(self).n(),
        ensures
            final(self).wf(),
            final(self).extends(*old(self)),
            r as int == old(self).n(),
            final(self).n() == old(self).n() + 1,
            final(self).op_at(r as int) == Op::Relu,
            final(self).val_at(r as int) == relu_int(old(self).val_at(a as int)),
            final(self).parents_at(r as int) == seq![a],
            final(self).grad_at(r as int) == 0,
            final(self).label_at(r as int) is None,
    {
        let va = self.nodes[a].value;
        let v = if va < 0 {
            0
        } else {
            va
        };
        let mut ps: Vec<usize> = Vec::new();
        ps.push(a);
        let nd = Node { value: v, op: Op::Relu, parents: ps };
        proof {
            assert(nd.parents@ =~= seq![a]);
            assert(node_wf(self.nodes@.push(nd), self.nodes@.len() as int));
        }
        self.push_node(nd, None)
    }

    /// Negation, built exactly as a constant leaf of value -1 multiplied by
    /// the node: it has no derivative rule of its own.
    pub fn neg(&mut self, a: usize) -> (r: usize)
        requires
            old(self).wf(),
            (a as int) < old(self).n(),
            old(self).val_at(a as int) > i64::MIN,
        ensures
            final(self).wf(),
            final(self).extends(*old(self)),
            r as int == old(self).n() + 1,
            final(self).n() == old(self).n() + 2,
            final(self).op_at(old(self).n()) == Op::Leaf,
            final(self).val_at(old(self).n()) == -1,
            final(self).op_at(r as int) == Op::Mul,
            final(self).val_at(r as int) == -old(self).val_at(a as int),
            final(self).parents_at(r as int) == seq![((old(self).n()) as usize), a],
            final(self).grad_at(r as int) == 0,
    {
        let c = self.constant(-1);
        self.mul(c, a)
    }

    /// Overwrites the label of node `i`.
    pub fn with_label(&mut self, i: usize, label: String)
        requires
            old(self).wf(),
            (i as int) < old(self).n(),
        ensures
            final(self).wf(),
            final(self).nodes_seq() == old(self).nodes_seq(),
            final(self).grads_seq() == old(self).grads_seq(),
            final(self).labels_seq() == old(self).labels_seq().update(i as int, Some(label)),
    {
        self.labels.set(i, Some(label));
    }

    /// Resets the gradient of node `i` to zero.
    pub fn reset_gradient(&mut self, i: usize)
        requires
            old(self).wf(),
            (i as int) < old(self).n(),
        ensures
            final(self).wf(),
            final(self).nodes_seq() == old(self).nodes_seq(),
            final(self).labels_seq() == old(self).labels_seq(),
            final(self).grads_seq() == old(self).grads_seq().update(i as int, 0i64),
    {
        self.grads.set(i, 0);
    }

    /// Resets every gradient to zero, as done before reusing a graph for a
    /// new backward pass.
    pub fn zero_gradients(&mut self)
        requires
            old(self).wf(),
        ensures
            final(self).wf(),
            final(self).nodes_seq() == old(self).nodes_seq(),
            final(self).labels_seq() == old(self).labels_seq(),
            final(self).n() == old(self).n(),
            forall|i: int| 0 <= i < final(self).n() ==> final(self).grad_at(i) == 0,
    {
        let n = self.grads.len();
        let mut i: usize = 0;
        while i < n
            invariant
                i <= n,
                self.nodes@ == old(self).nodes@,
                self.labels@ == old(self).labels@,
                self.grads@.len() == n,
                old(self).grads@.len() == n,
                forall|j: int| 0 <= j < i ==> self.grads@[j] == 0i64,
            decreases n - i,
        {
            self.grads.set(i, 0);
            i = i + 1;
        }
    }

    /// The backward pass.  Seeds the gradient of terminal node `t` with 1
    /// and propagates every node's finished gradient into its parents,
    /// each node exactly once, in reverse topological (descending arena)
    /// order.  Afterwards every gradient equals the chain-rule sum over
    /// all paths from that node to the terminal; nodes the terminal does
    /// not depend on get gradient 0.  Gradients must have been reset
    /// beforehand, as by `zero_gradients` or at construction.
    pub fn back_prop_gradient(&mut self, t: usize)
        requires
            old(self).wf(),
            (t as int) < old(self).n(),
            forall|i: int| 0 <= i < old(self).n() ==> old(self).grad_at(i) == 0,
            backward_fits(old(self).nodes_seq(), t as int),
        ensures
            final(self).wf(),
            final(self).nodes_seq() == old(self).nodes_seq(),
            final(self).labels_seq() == old(self).labels_seq(),
            final(self).n() == old(self).n(),
            forall|i: int|
                0 <= i < final(self).n() ==> final(self).grad_at(i) == gradient_of(
                    old(self).nodes_seq(),
                    t as int,
                    i,
                ),
    {
        let r = compute_gradients(&self.nodes, t);
        self.grads = r;
    }

    /// Number of nodes in the graph.
    pub fn len(&self) -> (r: usize)
        ensures
            r as int == self.n(),
    {
        self.nodes.len()
    }

    /// Read access to the value of node `i`.
    pub fn value(&self, i: usize) -> (r: i64)
        requires
            (i as int) < self.n(),
        ensures
            r as int == self.val_at(i as int),
    {
        self.nodes[i].value
    }

    /// Read access to the accumulated gradient of node `i`.
    pub fn gradient(&self, i: usize) -> (r: i64)
        requires
            self.wf(),
            (i as int) < self.n(),
        ensures
            r as int == self.grad_at(i as int),
    {
        self.grads[i]
    }

    /// Read access to the operation that produced node `i`.
    pub fn operation(&self, i: usize) -> (r: Op)
        requires
            (i as int) < self.n(),
        ensures
            r == self.op_at(i as int),
    {
        self.nodes[i].op
    }

    /// Read access to the label of node `i`.
    pub fn label(&self, i: usize) -> (r: &Option<String>)
        requires
            self.wf(),
            (i as int) < self.n(),
        ensures
            *r == self.label_at(i as int),
    {
        &self.labels[i]
    }

    /// How many parents node `i` has: 0 for a leaf, 1 for relu, 2 for the
    /// binary operations.
    pub fn parent_count(&self, i: usize) -> (r: usize)
        requires
            (i as int) < self.n(),
        ensures
            r as int == self.parents_at(i as int).len(),
    {
        self.nodes[i].parents.len()
    }

    /// The `j`-th parent of node `i`, in operand order.
    pub fn parent(&self, i: usize, j: usize) -> (r: usize)
        requires
            (i as int) < self.n(),
            (j as int) < self.parents_at(i as int).len(),
        ensures
            r == self.parents_at(i as int)[j as int],
    {
        self.nodes[i].parents[j]
    }
}

/// Extension of graphs is transitive.
pub proof fn lemma_extends_trans(c: Graph, b: Graph, a: Graph)
    requires
        c.extends(b),
        b.extends(a),
    ensures
        c.extends(a),
{
    assert forall|i: int| 0 <= i < a.n() implies c.nodes_seq()[i] == a.nodes_seq()[i]
        && c.grad_at(i) == a.grad_at(i) && c.label_at(i) == a.label_at(i) by {
        assert(b.nodes_seq()[i] == a.nodes_seq()[i]);
        assert(c.nodes_seq()[i] == b.nodes_seq()[i]);
    }
}

/// The parent-to-child edges contributed by node `c`.
pub open spec fn node_edges(s: Seq<Node>, c: int) -> Seq<(usize, usize)> {
    s[c].parents@.map(|k: int, p: usize| (p, c as usize))
}

/// The first `j` of the parent-to-child edges contributed by node `c`.
pub open spec fn node_edges_prefix(s: Seq<Node>, c: int, j: int) -> Seq<(usize, usize)> {
    s[c].parents@.take(j).map(|k: int, p: usize| (p, c as usize))
}

/// All parent-to-child edges of the first `c` nodes, in arena order.
pub open spec fn edge_seq(s: Seq<Node>, c: int) -> Seq<(usize, usize)>
    decreases c,
{
    if c <= 0 {
        Seq::empty()
    } else {
        edge_seq(s, c - 1) + node_edges(s, c - 1)
    }
}

impl Graph {
    /// Every parent-to-child edge of the graph, for read-only traversal and
    /// rendering by consumers.
    pub fn edges(&self) -> (r: Vec<(usize, usize)>)
        requires
            self.wf(),
        ensures
            r@ == edge_seq(self.nodes_seq(), self.n()),
    {
        let mut r: Vec<(usize, usize)> = Vec::new();
        let n = self.nodes.len();
        let mut c: usize = 0;
        while c < n
            invariant
                c <= n,
                n == self.nodes@.len(),
                r@ == edge_seq(self.nodes@, c as int),
            decreases n - c,
        {
            let m = self.nodes[c].parents.len();
            let mut j: usize = 0;
            proof {
                assert(node_edges_prefix(self.nodes@, c as int, 0) =~= Seq::empty());
            }
            while j < m
                invariant
                    j <= m,
                    c < n,
                    n == self.nodes@.len(),
                    m == self.nodes@[c as int].parents@.len(),
                    r@ == edge_seq(self.nodes@, c as int) + node_edges_prefix(
                        self.nodes@,
                        c as int,
                        j as int,
                    ),
                decreases m - j,
            {
                let p = self.nodes[c].parents[j];
                r.push((p, c));
                proof {
                    assert(node_edges_prefix(self.nodes@, c as int, j as int + 1)
                        =~= node_edges_prefix(self.nodes@, c as int, j as int).push((p, c)));
                    assert(r@ =~= edge_seq(self.nodes@, c as int) + node_edges_prefix(
                        self.nodes@,
                        c as int,
                        j as int + 1,
                    ));
                }
                j = j + 1;
            }
            proof {
                assert(node_edges_prefix(self.nodes@, c as int, m as int) =~= node_edges(
                    self.nodes@,
                    c as int,
                ));
                assert(edge_seq(self.nodes@, c as int + 1) == edge_seq(self.nodes@, c as int)
                    + node_edges(self.nodes@, c as int));
            }
            c = c + 1;
        }
        r
    }
}

} // verus!
