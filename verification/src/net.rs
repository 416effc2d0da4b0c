//! A feed-forward network built on top of the graph: a thin consumer of
//! the leaf constructor and the operator layer.  Weights and biases are
//! supplied as plain values; callers that want random initialization draw
//! the numbers themselves and pass them in.

use crate::backprop::in_i64;
use crate::graph::{lemma_extends_trans, Graph};
use crate::node::{relu_int, Op};
use vstd::prelude::*;

verus! {

/// The values of the listed graph nodes.
pub open spec fn vals_of(g: Graph, ids: Seq<usize>) -> Seq<int> {
    ids.map(|j: int, w: usize| g.val_at(w as int))
}

/// The dot product of the first `k` coordinates.
pub open spec fn dot_prefix(xs: Seq<int>, ws: Seq<int>, k: int) -> int
    decreases k,
{
    if k <= 0 {
        0
    } else {
        dot_prefix(xs, ws, k - 1) + xs[k - 1] * ws[k - 1]
    }
}

/// The value a neuron computes from inputs `xs`: the rectified weighted
/// sum `relu(bias + xs . ws)`.
pub open spec fn neuron_out(bias: int, xs: Seq<int>, ws: Seq<int>) -> int {
    relu_int(bias + dot_prefix(xs, ws, xs.len() as int))
}

/// Absence of i64 overflow while a neuron accumulates its weighted sum,
/// product by product.
pub open spec fn forward_fits(bias: int, xs: Seq<int>, ws: Seq<int>) -> bool {
    &&& forall|j: int| 0 <= j < xs.len() ==> in_i64(xs[j] * ws[j])
    &&& forall|k: int| 0 <= k <= xs.len() ==> in_i64(bias + dot_prefix(xs, ws, k))
}

/// One neuron: the arena indices of its weight leaves and its bias leaf.
pub struct Neuron {
    pub weights: Vec<usize>,
    pub bias: usize,
}

/// Values of nodes already present in a graph are untouched by later
/// growth of the graph.
pub proof fn lemma_vals_stable(g2: Graph, g1: Graph, ids: Seq<usize>)
    requires
        g2.extends(g1),
        forall|j: int| 0 <= j < ids.len() ==> (ids[j] as int) < g1.n(),
    ensures
        vals_of(g2, ids) == vals_of(g1, ids),
{
    assert(vals_of(g2, ids) =~= vals_of(g1, ids));
}

impl Neuron {
    /// All node indices of the neuron are present in `g`.
    pub open spec fn wf(self, g: Graph) -> bool {
        &&& forall|j: int| 0 <= j < self.weights@.len() ==> (self.weights@[j] as int) < g.n()
        &&& (self.bias as int) < g.n()
    }

    /// The values of the weight leaves.
    pub open spec fn weight_vals(self, g: Graph) -> Seq<int> {
        vals_of(g, self.weights@)
    }

    /// The value of the bias leaf.
    pub open spec fn bias_val(self, g: Graph) -> int {
        g.val_at(self.bias as int)
    }

    /// Creates one unlabeled leaf per weight and a bias leaf labeled
    /// `"b"`, holding exactly the supplied values.
    pub fn new(g: &mut Graph, weights: &Vec<i64>, bias: i64) -> (nr: Neuron)
        requires
            old(g).wf(),
        ensures
            final(g).wf(),
            final(g).extends(*old(g)),
            final(g).n() == old(g).n() + weights@.len() + 1,
            nr.wf(*final(g)),
            nr.weights@.len() == weights@.len(),
            forall|j: int|
                0 <= j < weights@.len() ==> final(g).val_at(nr.weights@[j] as int) == weights@[j]
                    as int,
            nr.bias_val(*final(g)) == bias as int,
    {
        let mut ids: Vec<usize> = Vec::new();
        let mut j: usize = 0;
        while j < weights.len()
            invariant
                j <= weights@.len(),
                g.wf(),
                g.extends(*old(g)),
                g.n() == old(g).n() + j,
                ids@.len() == j as int,
                forall|q: int| #![trigger ids@[q]]
                    0 <= q < j ==> (ids@[q] as int) < g.n() && g.val_at(ids@[q] as int)
                        == weights@[q] as int,
            decreases weights@.len() - j,
        {
            let ghost gpre = *g;
            let ghost ids0 = ids@;
            let w = weights[j];
            let id = g.constant(w);
            ids.push(id);
            proof {
                lemma_extends_trans(*g, gpre, *old(g));
                assert forall|q: int| 0 <= q < j as int + 1 implies (ids@[q] as int) < g.n()
                    && g.val_at(ids@[q] as int) == weights@[q] as int by {
                    if q < j as int {
                        assert(ids@[q] == ids0[q]);
                        assert((ids0[q] as int) < gpre.n() && gpre.val_at(ids0[q] as int)
                            == weights@[q] as int);
                        assert(g.nodes_seq()[ids0[q] as int] == gpre.nodes_seq()[ids0[q] as int]);
                        assert(gpre.n() <= g.n());
                    } else {
                        assert(ids@[q] == id);
                        assert(g.val_at(id as int) == w as int);
                    }
                }
            }
            j = j + 1;
        }
        let ghost gpre = *g;
        let b = g.constant(bias);
        proof {
            lemma_extends_trans(*g, gpre, *old(g));
        }
        let ghost gpre2 = *g;
        g.with_label(b, "b".to_owned());
        proof {
            assert forall|i: int| 0 <= i < old(g).n() implies g.nodes_seq()[i]
                == old(g).nodes_seq()[i] && g.grad_at(i) == old(g).grad_at(i) && g.label_at(i)
                == old(g).label_at(i) by {
                assert(gpre2.nodes_seq()[i] == old(g).nodes_seq()[i]);
                assert(gpre2.label_at(i) == old(g).label_at(i));
                assert(g.labels_seq()[i] == gpre2.labels_seq()[i]);
            }
            assert(g.extends(*old(g)));
            assert forall|q: int| 0 <= q < ids@.len() implies g.val_at(ids@[q] as int)
                == gpre2.val_at(ids@[q] as int) by {
                assert(g.nodes_seq() == gpre2.nodes_seq());
            }
        }
        Neuron { weights: ids, bias: b }
    }

    /// Builds the forward computation of the neuron over the given input
    /// nodes: each input is multiplied by its weight, the products are
    /// accumulated onto the bias in operand order, and the sum passes
    /// through relu.  The result node's value is exactly
    /// `relu(bias + inputs . weights)`.
    pub fn forward(&self, g: &mut Graph, inputs: &Vec<usize>) -> (r: usize)
        requires
            old(g).wf(),
            self.wf(*old(g)),
            inputs@.len() == self.weights@.len(),
            forall|j: int| 0 <= j < inputs@.len() ==> (inputs@[j] as int) < old(g).n(),
            forward_fits(
                self.bias_val(*old(g)),
                vals_of(*old(g), inputs@),
                self.weight_vals(*old(g)),
            ),
        ensures
            final(g).wf(),
            final(g).extends(*old(g)),
            (r as int) < final(g).n(),
            final(g).op_at(r as int) == Op::Relu,
            final(g).val_at(r as int) == neuron_out(
                self.bias_val(*old(g)),
                vals_of(*old(g), inputs@),
                self.weight_vals(*old(g)),
            ),
    {
        let ghost xs = vals_of(*old(g), inputs@);
        let ghost ws = self.weight_vals(*old(g));
        let ghost b0 = self.bias_val(*old(g));
        let mut acc: usize = self.bias;
        let mut j: usize = 0;
        while j < inputs.len()
            invariant
                j <= inputs@.len(),
                inputs@.len() == self.weights@.len(),
                g.wf(),
                g.extends(*old(g)),
                self.wf(*old(g)),
                forall|q: int| 0 <= q < inputs@.len() ==> (inputs@[q] as int) < old(g).n(),
                xs == vals_of(*old(g), inputs@),
                ws == self.weight_vals(*old(g)),
                b0 == self.bias_val(*old(g)),
                forward_fits(b0, xs, ws),
                (acc as int) < g.n(),
                g.val_at(acc as int) == b0 + dot_prefix(xs, ws, j as int),
            decreases inputs@.len() - j,
        {
            let ghost gpre = *g;
            let x = inputs[j];
            let w = self.weights[j];
            proof {
                assert(g.val_at(x as int) == xs[j as int]);
                assert(g.val_at(w as int) == ws[j as int]);
                assert(in_i64(xs[j as int] * ws[j as int]));
            }
            let m = g.mul(x, w);
            proof {
                lemma_extends_trans(*g, gpre, *old(g));
                assert(g.val_at(acc as int) == b0 + dot_prefix(xs, ws, j as int));
                assert(g.val_at(m as int) == xs[j as int] * ws[j as int]);
                assert(dot_prefix(xs, ws, j as int + 1) == dot_prefix(xs, ws, j as int) + xs[j
                    as int] * ws[j as int]);
                assert(in_i64(b0 + dot_prefix(xs, ws, j as int + 1)));
            }
            let ghost gpre2 = *g;
            acc = g.add(acc, m);
            proof {
                lemma_extends_trans(*g, gpre2, gpre);
                lemma_extends_trans(*g, gpre, *old(g));
            }
            j = j + 1;
        }
        let ghost gpre3 = *g;
        let r = g.relu(acc);
        proof {
            lemma_extends_trans(*g, gpre3, *old(g));
        }
        r
    }
}

/// A layer of neurons over a common input vector.
pub struct Layer {
    pub neurons: Vec<Neuron>,
}

impl Layer {
    /// All node indices of the layer are present in `g`.
    pub open spec fn wf(self, g: Graph) -> bool {
        forall|j: int| 0 <= j < self.neurons@.len() ==> self.neurons@[j].wf(g)
    }

    /// Every neuron of the layer takes `w` inputs.
    pub open spec fn takes(self, w: int) -> bool {
        forall|j: int| 0 <= j < self.neurons@.len() ==> self.neurons@[j].weights@.len() == w
    }

    /// The layer's output values on input values `xs`.
    pub open spec fn out_vals(self, g: Graph, xs: Seq<int>) -> Seq<int> {
        Seq::new(
            self.neurons@.len() as nat,
            |j: int| neuron_out(self.neurons@[j].bias_val(g), xs, self.neurons@[j].weight_vals(g)),
        )
    }

    /// Absence of overflow for every neuron of the layer on input values
    /// `xs`.
    pub open spec fn fits(self, g: Graph, xs: Seq<int>) -> bool {
        forall|j: int|
            0 <= j < self.neurons@.len() ==> forward_fits(
                self.neurons@[j].bias_val(g),
                xs,
                self.neurons@[j].weight_vals(g),
            )
    }

    /// Creates one neuron per row of `weights`, with the matching bias.
    pub fn new(g: &mut Graph, weights: &Vec<Vec<i64>>, biases: &Vec<i64>) -> (l: Layer)
        requires
            old(g).wf(),
            weights@.len() == biases@.len(),
        ensures
            final(g).wf(),
            final(g).extends(*old(g)),
            l.wf(*final(g)),
            l.neurons@.len() == weights@.len(),
            forall|j: int|
                0 <= j < weights@.len() ==> l.neurons@[j].weights@.len() == weights@[j]@.len(),
            forall|j: int|
                0 <= j < weights@.len() ==> l.neurons@[j].bias_val(*final(g)) == biases@[j] as int,
            forall|j: int, q: int|
                0 <= j < weights@.len() && 0 <= q < weights@[j]@.len() ==> final(g).val_at(
                    l.neurons@[j].weights@[q] as int,
                ) == weights@[j]@[q] as int,
    {
        let mut ns: Vec<Neuron> = Vec::new();
        let mut j: usize = 0;
        while j < weights.len()
            invariant
                j <= weights@.len(),
                weights@.len() == biases@.len(),
                g.wf(),
                g.extends(*old(g)),
                ns@.len() == j as int,
                forall|q: int| #![trigger ns@[q]] 0 <= q < j ==> ns@[q].wf(*g),
                forall|q: int| #![trigger ns@[q]] 0 <= q < j ==> ns@[q].weights@.len() == weights@[q]@.len(),
                forall|q: int| #![trigger ns@[q]] 0 <= q < j ==> ns@[q].bias_val(*g) == biases@[q] as int,
                forall|q: int, p: int| #![trigger ns@[q].weights@[p]]
                    0 <= q < j && 0 <= p < weights@[q]@.len() ==> g.val_at(
                        ns@[q].weights@[p] as int,
                    ) == weights@[q]@[p] as int,
            decreases weights@.len() - j,
        {
            let ghost gpre = *g;
            let ghost ns0 = ns@;
            let nr = Neuron::new(g, &weights[j], biases[j]);
            ns.push(nr);
            proof {
                lemma_extends_trans(*g, gpre, *old(g));
                assert forall|q: int| 0 <= q < j as int + 1 implies ns@[q].wf(*g)
                    && ns@[q].weights@.len() == weights@[q]@.len() && ns@[q].bias_val(*g)
                    == biases@[q] as int by {
                    if q < j as int {
                        assert(ns@[q] == ns0[q]);
                        assert(ns0[q].wf(gpre) && ns0[q].bias_val(gpre) == biases@[q] as int);
                        assert(g.nodes_seq()[ns0[q].bias as int] == gpre.nodes_seq()[ns0[q].bias
                            as int]);
                        assert forall|p: int| 0 <= p < ns0[q].weights@.len() implies (
                        ns0[q].weights@[p] as int) < g.n() by {
                            assert((ns0[q].weights@[p] as int) < gpre.n());
                        }
                        assert(gpre.n() <= g.n());
                    } else {
                        assert(ns@[q] == nr);
                    }
                }
                assert forall|q: int, p: int|
                    0 <= q < j as int + 1 && 0 <= p < weights@[q]@.len() implies g.val_at(
                        ns@[q].weights@[p] as int,
                    ) == weights@[q]@[p] as int by {
                    if q < j as int {
                        assert(ns@[q] == ns0[q]);
                        assert((ns0[q].weights@[p] as int) < gpre.n() && gpre.val_at(
                            ns0[q].weights@[p] as int,
                        ) == weights@[q]@[p] as int);
                        assert(g.nodes_seq()[ns0[q].weights@[p] as int]
                            == gpre.nodes_seq()[ns0[q].weights@[p] as int]);
                    } else {
                        assert(ns@[q] == nr);
                        assert(g.val_at(nr.weights@[p] as int) == weights@[q]@[p] as int);
                    }
                }
            }
            j = j + 1;
        }
        Layer { neurons: ns }
    }

    /// Builds the forward computation of every neuron of the layer over
    /// the same input nodes, in order.  Output `j` holds the value of
    /// neuron `j` on the input values.
    pub fn forward(&self, g: &mut Graph, inputs: &Vec<usize>) -> (rs: Vec<usize>)
        requires
            old(g).wf(),
            self.wf(*old(g)),
            self.takes(inputs@.len() as int),
            forall|j: int| 0 <= j < inputs@.len() ==> (inputs@[j] as int) < old(g).n(),
            self.fits(*old(g), vals_of(*old(g), inputs@)),
        ensures
            final(g).wf(),
            final(g).extends(*old(g)),
            rs@.len() == self.neurons@.len(),
            forall|j: int|
                0 <= j < rs@.len() ==> (rs@[j] as int) < final(g).n() && final(g).op_at(
                    rs@[j] as int,
                ) == Op::Relu && final(g).val_at(rs@[j] as int) == self.out_vals(
                    *old(g),
                    vals_of(*old(g), inputs@),
                )[j],
    {
        let ghost xs = vals_of(*old(g), inputs@);
        let mut rs: Vec<usize> = Vec::new();
        let mut j: usize = 0;
        while j < self.neurons.len()
            invariant
                j <= self.neurons@.len(),
                g.wf(),
                g.extends(*old(g)),
                self.wf(*old(g)),
                self.takes(inputs@.len() as int),
                forall|q: int| 0 <= q < inputs@.len() ==> (inputs@[q] as int) < old(g).n(),
                self.fits(*old(g), xs),
                xs == vals_of(*old(g), inputs@),
                rs@.len() == j as int,
                forall|q: int| #![trigger rs@[q]]
                    0 <= q < j ==> (rs@[q] as int) < g.n() && g.op_at(rs@[q] as int) == Op::Relu
                        && g.val_at(rs@[q] as int) == self.out_vals(*old(g), xs)[q],
            decreases self.neurons@.len() - j,
        {
            let ghost gpre = *g;
            let nr = &self.neurons[j];
            proof {
                lemma_vals_stable(*g, *old(g), inputs@);
                lemma_vals_stable(*g, *old(g), nr.weights@);
                assert(nr.bias_val(*g) == nr.bias_val(*old(g)));
                assert(forward_fits(nr.bias_val(*g), vals_of(*g, inputs@), nr.weight_vals(*g)));
            }
            let ghost rs0 = rs@;
            let r = nr.forward(g, inputs);
            rs.push(r);
            proof {
                lemma_extends_trans(*g, gpre, *old(g));
                lemma_vals_stable(gpre, *old(g), inputs@);
                lemma_vals_stable(gpre, *old(g), nr.weights@);
                assert(g.val_at(r as int) == neuron_out(
                    nr.bias_val(*old(g)),
                    xs,
                    nr.weight_vals(*old(g)),
                ));
                assert(g.val_at(r as int) == self.out_vals(*old(g), xs)[j as int]);
                assert forall|q: int| 0 <= q < j as int + 1 implies (rs@[q] as int) < g.n()
                    && g.op_at(rs@[q] as int) == Op::Relu && g.val_at(rs@[q] as int)
                    == self.out_vals(*old(g), xs)[q] by {
                    if q < j as int {
                        assert(rs@[q] == rs0[q]);
                        assert((rs0[q] as int) < gpre.n() && gpre.op_at(rs0[q] as int) == Op::Relu
                            && gpre.val_at(rs0[q] as int) == self.out_vals(*old(g), xs)[q]);
                        assert(g.nodes_seq()[rs0[q] as int] == gpre.nodes_seq()[rs0[q] as int]);
                        assert(gpre.n() <= g.n());
                    } else {
                        assert(rs@[q] == r);
                    }
                }
            }
            j = j + 1;
        }
        rs
    }
}

/// The mathematical-integer values of a vector of machine integers.
pub open spec fn int_vals(xs: Seq<i64>) -> Seq<int> {
    xs.map(|j: int, v: i64| v as int)
}

/// A neuron's indices stay present as the graph grows.
pub proof fn lemma_neuron_wf_monotone(nr: Neuron, g1: Graph, g2: Graph)
    requires
        nr.wf(g1),
        g2.extends(g1),
    ensures
        nr.wf(g2),
{
    assert forall|j: int| 0 <= j < nr.weights@.len() implies (nr.weights@[j] as int) < g2.n() by {
        assert((nr.weights@[j] as int) < g1.n());
    }
}

/// A layer's indices stay present as the graph grows.
pub proof fn lemma_layer_wf_monotone(l: Layer, g1: Graph, g2: Graph)
    requires
        l.wf(g1),
        g2.extends(g1),
    ensures
        l.wf(g2),
{
    assert forall|j: int| 0 <= j < l.neurons@.len() implies l.neurons@[j].wf(g2) by {
        lemma_neuron_wf_monotone(l.neurons@[j], g1, g2);
    }
}

/// A layer's output values on fixed input values are untouched by later
/// growth of the graph, since its weight and bias values are.
pub proof fn lemma_layer_out_stable(l: Layer, g1: Graph, g2: Graph, xs: Seq<int>)
    requires
        l.wf(g1),
        g2.extends(g1),
    ensures
        l.out_vals(g2, xs) == l.out_vals(g1, xs),
        l.fits(g1, xs) == l.fits(g2, xs),
{
    assert forall|j: int| 0 <= j < l.neurons@.len() implies l.neurons@[j].bias_val(g2)
        == l.neurons@[j].bias_val(g1) && l.neurons@[j].weight_vals(g2)
        == l.neurons@[j].weight_vals(g1) by {
        let nr = l.neurons@[j];
        lemma_vals_stable(g2, g1, nr.weights@);
        assert(g2.nodes_seq()[nr.bias as int] == g1.nodes_seq()[nr.bias as int]);
    }
    assert(l.out_vals(g2, xs) =~= l.out_vals(g1, xs));
}

/// A multilayer perceptron: layers applied in order, the outputs of each
/// serving as the inputs of the next.
pub struct Mlp {
    pub layers: Vec<Layer>,
}

impl Mlp {
    /// All node indices of every layer are present in `g`.
    pub open spec fn wf(self, g: Graph) -> bool {
        forall|j: int| 0 <= j < self.layers@.len() ==> self.layers@[j].wf(g)
    }

    /// The layer widths chain: the first layer takes the raw inputs, each
    /// later layer takes the previous layer's outputs.
    pub open spec fn takes(self, n_in: int) -> bool {
        forall|j: int| #![trigger self.layers@[j]]
            0 <= j < self.layers@.len() ==> self.layers@[j].takes(
                if j == 0 {
                    n_in
                } else {
                    self.layers@[j - 1].neurons@.len() as int
                },
            )
    }

    /// The values after the first `k` layers have been applied to input
    /// values `xs`.
    pub open spec fn stage_vals(self, g: Graph, xs: Seq<int>, k: int) -> Seq<int>
        decreases k,
    {
        if k <= 0 {
            xs
        } else {
            self.layers@[k - 1].out_vals(g, self.stage_vals(g, xs, k - 1))
        }
    }

    /// Absence of overflow at every one of the first `k` layers.
    pub open spec fn fits(self, g: Graph, xs: Seq<int>, k: int) -> bool
        decreases k,
    {
        if k <= 0 {
            true
        } else {
            self.fits(g, xs, k - 1) && self.layers@[k - 1].fits(g, self.stage_vals(g, xs, k - 1))
        }
    }

    /// Assembles a network from already-built layers.
    pub fn new(layers: Vec<Layer>) -> (m: Mlp)
        ensures
            m.layers@ == layers@,
    {
        Mlp { layers }
    }

    /// Builds the whole forward computation: turns the raw inputs into
    /// leaves, then feeds each layer's outputs into the next.  Output `q`
    /// holds the value of the network's `q`-th final neuron on the inputs.
    pub fn forward(&self, g: &mut Graph, xs: &Vec<i64>) -> (rs: Vec<usize>)
        requires
            old(g).wf(),
            self.wf(*old(g)),
            self.takes(xs@.len() as int),
            self.fits(*old(g), int_vals(xs@), self.layers@.len() as int),
        ensures
            final(g).wf(),
            final(g).extends(*old(g)),
            rs@.len() == self.stage_vals(
                *old(g),
                int_vals(xs@),
                self.layers@.len() as int,
            ).len(),
            forall|q: int|
                0 <= q < rs@.len() ==> (rs@[q] as int) < final(g).n() && final(g).val_at(
                    rs@[q] as int,
                ) == self.stage_vals(*old(g), int_vals(xs@), self.layers@.len() as int)[q],
    {
        let ghost xv = int_vals(xs@);
        let mut cur: Vec<usize> = Vec::new();
        let mut j: usize = 0;
        while j < xs.len()
            invariant
                j <= xs@.len(),
                g.wf(),
                g.extends(*old(g)),
                xv == int_vals(xs@),
                cur@.len() == j as int,
                forall|q: int| #![trigger cur@[q]]
                    0 <= q < j ==> (cur@[q] as int) < g.n() && g.val_at(cur@[q] as int) == xv[q],
            decreases xs@.len() - j,
        {
            let ghost gpre = *g;
            let ghost cur0 = cur@;
            let x = xs[j];
            let id = g.constant(x);
            cur.push(id);
            proof {
                lemma_extends_trans(*g, gpre, *old(g));
                assert forall|q: int| 0 <= q < j as int + 1 implies (cur@[q] as int) < g.n()
                    && g.val_at(cur@[q] as int) == xv[q] by {
                    if q < j as int {
                        assert(cur@[q] == cur0[q]);
                        assert((cur0[q] as int) < gpre.n() && gpre.val_at(cur0[q] as int)
                            == xv[q]);
                        assert(g.nodes_seq()[cur0[q] as int] == gpre.nodes_seq()[cur0[q] as int]);
                        assert(gpre.n() <= g.n());
                    } else {
                        assert(cur@[q] == id);
                    }
                }
            }
            j = j + 1;
        }
        let mut li: usize = 0;
        while li < self.layers.len()
            invariant
                li <= self.layers@.len(),
                g.wf(),
                g.extends(*old(g)),
                self.wf(*old(g)),
                self.takes(xs@.len() as int),
                self.fits(*old(g), xv, self.layers@.len() as int),
                xv == int_vals(xs@),
                cur@.len() == self.stage_vals(*old(g), xv, li as int).len(),
                forall|q: int| #![trigger cur@[q]]
                    0 <= q < cur@.len() ==> (cur@[q] as int) < g.n() && g.val_at(cur@[q] as int)
                        == self.stage_vals(*old(g), xv, li as int)[q],
            decreases self.layers@.len() - li,
        {
            let ghost gpre = *g;
            let ghost stage = self.stage_vals(*old(g), xv, li as int);
            let l = &self.layers[li];
            proof {
                assert(self.layers@[li as int].wf(*old(g)));
                lemma_layer_wf_monotone(*l, *old(g), *g);
                assert(vals_of(*g, cur@) =~= stage);
                lemma_layer_out_stable(*l, *old(g), *g, stage);
                lemma_fits_prefix(*self, *old(g), xv, li as int + 1, self.layers@.len() as int);
                assert(self.fits(*old(g), xv, li as int + 1));
                assert(l.fits(*old(g), stage));
                assert(l.fits(*g, vals_of(*g, cur@)));
                if li == 0 {
                    assert(l.takes(cur@.len() as int));
                } else {
                    assert(self.stage_vals(*old(g), xv, li as int)
                        == self.layers@[li as int - 1].out_vals(
                        *old(g),
                        self.stage_vals(*old(g), xv, li as int - 1),
                    ));
                    assert(stage.len() == self.layers@[li as int - 1].neurons@.len());
                    assert(l.takes(cur@.len() as int));
                }
            }
            let nxt = l.forward(g, &cur);
            proof {
                lemma_extends_trans(*g, gpre, *old(g));
                lemma_layer_out_stable(*l, *old(g), gpre, stage);
                assert(vals_of(gpre, cur@) =~= stage);
                assert forall|q: int| 0 <= q < nxt@.len() implies (nxt@[q] as int) < g.n()
                    && g.val_at(nxt@[q] as int) == self.stage_vals(*old(g), xv, li as int + 1)[q]
                    by {
                    assert(g.val_at(nxt@[q] as int) == l.out_vals(gpre, vals_of(gpre, cur@))[q]);
                    assert(l.out_vals(gpre, stage) == l.out_vals(*old(g), stage));
                    assert(self.stage_vals(*old(g), xv, li as int + 1) == l.out_vals(
                        *old(g),
                        stage,
                    ));
                }
            }
            cur = nxt;
            li = li + 1;
        }
        cur
    }
}

/// Overflow-freedom of the first `k2` layers covers the first `k1`.
pub proof fn lemma_fits_prefix(m: Mlp, g: Graph, xs: Seq<int>, k1: int, k2: int)
    requires
        m.fits(g, xs, k2),
        k1 <= k2,
    ensures
        m.fits(g, xs, k1),
    decreases k2 - k1,
{
    if k1 < k2 {
        lemma_fits_prefix(m, g, xs, k1, k2 - 1);
    }
}

} // verus!
