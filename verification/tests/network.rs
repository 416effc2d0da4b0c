use neuron::graph::Graph;
use neuron::net::{Layer, Mlp, Neuron};

#[test]
fn neuron_forward_rectifies_weighted_sum() {
    let mut g = Graph::new();
    let nr = Neuron::new(&mut g, &vec![2, 3], 1);
    let x0 = g.leaf(4, "x0".to_string());
    let x1 = g.leaf(5, "x1".to_string());
    let out = nr.forward(&mut g, &vec![x0, x1]);
    // relu(1 + 4*2 + 5*3) = 24
    assert_eq!(g.value(out), 24);
}

#[test]
fn neuron_forward_clamps_negative_sum() {
    let mut g = Graph::new();
    let nr = Neuron::new(&mut g, &vec![1], -100);
    let x0 = g.leaf(4, "x0".to_string());
    let out = nr.forward(&mut g, &vec![x0]);
    // relu(-100 + 4) = 0
    assert_eq!(g.value(out), 0);
}

#[test]
fn layer_forward_runs_every_neuron() {
    let mut g = Graph::new();
    let l = Layer::new(&mut g, &vec![vec![1, 1], vec![2, -1]], &vec![0, 5]);
    let x0 = g.leaf(3, "x0".to_string());
    let x1 = g.leaf(4, "x1".to_string());
    let outs = l.forward(&mut g, &vec![x0, x1]);
    assert_eq!(outs.len(), 2);
    // relu(0 + 3 + 4) = 7, relu(5 + 6 - 4) = 7
    assert_eq!(g.value(outs[0]), 7);
    assert_eq!(g.value(outs[1]), 7);
}

#[test]
fn test_mlp() {
    let mut g = Graph::new();
    let l1 = Layer::new(
        &mut g,
        &vec![vec![1, 1, 1], vec![1, 1, 1], vec![1, 1, 1], vec![1, 1, 1]],
        &vec![0, 0, 0, 0],
    );
    let l2 = Layer::new(
        &mut g,
        &vec![vec![1, 1, 1, 1], vec![1, 1, 1, 1], vec![1, 1, 1, 1], vec![1, 1, 1, 1]],
        &vec![0, 0, 0, 0],
    );
    let l3 = Layer::new(&mut g, &vec![vec![1, 1, 1, 1]], &vec![0]);
    let mlp = Mlp::new(vec![l1, l2, l3]);

    let x = vec![2, 3, -1];
    let output = mlp.forward(&mut g, &x);
    println!("{:?}", output);
    assert_eq!(output.len(), 1);
    // each first-layer neuron: relu(2 + 3 - 1) = 4; each second-layer
    // neuron: relu(16) = 16; the final neuron: relu(64) = 64
    assert_eq!(g.value(output[0]), 64);
}

#[test]
fn mlp_backward_through_network() {
    let mut g = Graph::new();
    let l1 = Layer::new(&mut g, &vec![vec![2]], &vec![0]);
    let mlp = Mlp::new(vec![l1]);
    let output = mlp.forward(&mut g, &vec![3]);
    assert_eq!(g.value(output[0]), 6);
    g.back_prop_gradient(output[0]);
    // relu passes (6 > 0); the input leaf created by forward sits right
    // after the weight and bias leaves
    assert_eq!(g.gradient(0), 3);
}
