use backprop_rs::graph::{Graph, Variable};
use backprop_rs::init::{random_words, scale_for, weight_from_word};
use backprop_rs::nn;
use backprop_rs::nn_raw;
use backprop_rs::optim::stochastic_gradiant_descent;
use backprop_rs::scalar::Scalar;

/// Double-precision floating point as the graph's number type.
#[derive(Clone, Copy, Debug, PartialEq)]
struct F(f64);

impl Scalar for F {
    fn from_int(n: i64) -> Self {
        F(n as f64)
    }

    fn neg_infinity() -> Self {
        F(f64::NEG_INFINITY)
    }

    fn plus(self, rhs: Self) -> Self {
        F(self.0 + rhs.0)
    }

    fn minus(self, rhs: Self) -> Self {
        F(self.0 - rhs.0)
    }

    fn times(self, rhs: Self) -> Self {
        F(self.0 * rhs.0)
    }

    fn over(self, rhs: Self) -> Self {
        F(self.0 / rhs.0)
    }

    fn powf(self, exponent: Self) -> Self {
        F(self.0.powf(exponent.0))
    }

    fn exp(self) -> Self {
        F(self.0.exp())
    }

    fn ln(self) -> Self {
        F(self.0.ln())
    }

    fn sqrt(self) -> Self {
        F(self.0.sqrt())
    }

    fn max(self, rhs: Self) -> Self {
        F(self.0.max(rhs.0))
    }

    fn is_positive(self) -> bool {
        self.0 > 0.0
    }
}

const HALF: u64 = 1 << 63;

#[test]
fn test_weight_from_word() {
    assert_eq!(weight_from_word::<F>(0).0, -1.0);
    assert_eq!(weight_from_word::<F>(HALF).0, 0.0);
    assert_eq!(weight_from_word::<F>(HALF + (HALF >> 1)).0, 0.5);
    assert_eq!(weight_from_word::<F>(u64::MAX).0, 1.0 - 2.0f64.powi(-52));
    // the lower eleven bits of a word do not count
    assert_eq!(weight_from_word::<F>(2047).0, -1.0);
    assert_eq!(weight_from_word::<F>(2048).0, -1.0 + 2.0f64.powi(-52));
}

#[test]
fn test_scale_for() {
    assert_eq!(scale_for::<F>(2).0, 1.0);
    assert_eq!(scale_for::<F>(8).0, 0.5);
    assert_eq!(scale_for::<F>(3).0, (2.0f64 / 3.0).sqrt());
}

#[test]
fn test_random_words() {
    assert_eq!(random_words(0).len(), 0);
    let a = random_words(16);
    let b = random_words(16);
    assert_eq!(a.len(), 16);
    assert_ne!(a, b);
}

#[test]
fn test_neuron_from_words() {
    let mut g = Graph::<F>::new();
    g.variable(F(9.0));
    let neuron = nn::Neuron::from_words(&mut g, &[0, HALF, u64::MAX], true);

    assert_eq!(g.len(), 5);
    assert_eq!(neuron.parameters(), vec![1, 2, 3, 4]);
    assert_eq!(g.data(1).0, -1.0);
    assert_eq!(g.data(2).0, 0.0);
    assert_eq!(g.data(3).0, 1.0 - 2.0f64.powi(-52));
    assert_eq!(g.data(4).0, 0.0);
    assert!(g.grad(1).is_none());
}

#[test]
fn test_scaled_neuron_from_words() {
    let mut g = Graph::<F>::new();
    let neuron = nn_raw::Neuron::from_words(&mut g, 8, &[0, HALF], false);

    assert_eq!(neuron.parameters(), vec![0, 1, 2]);
    assert_eq!(g.data(0).0, -0.5);
    assert_eq!(g.data(1).0, 0.0);
    assert_eq!(g.data(2).0, 0.0);
}

#[test]
fn test_neuron_forward() {
    let mut g = Graph::<F>::new();
    let neuron = nn::Neuron::from_words(&mut g, &[0, HALF + (HALF >> 1)], false);
    let x = [g.variable(F(3.0)).idx, g.variable(F(5.0)).idx];
    let before = g.len();

    // bias 0, weights -1 and 0.5
    let out = neuron.forward(&mut g, &x);
    assert_eq!(g.len(), before + 4);
    assert_eq!(out, before + 3);
    assert_eq!(g.data(out).0, -0.5);

    Variable::new(out).backward(&mut g);
    assert_eq!(g.grad(0).unwrap().0, 3.0);
    assert_eq!(g.grad(1).unwrap().0, 5.0);
    assert_eq!(g.grad(2).unwrap().0, 1.0);
    assert_eq!(g.grad(x[0]).unwrap().0, -1.0);
    assert_eq!(g.grad(x[1]).unwrap().0, 0.5);
}

#[test]
fn test_neuron_forward_with_rectifier() {
    let mut g = Graph::<F>::new();
    let neuron = nn::Neuron::from_words(&mut g, &[0, HALF + (HALF >> 1)], true);
    let x = [g.variable(F(3.0)).idx, g.variable(F(5.0)).idx];
    let before = g.len();

    let out = neuron.forward(&mut g, &x);
    assert_eq!(g.len(), before + 5);
    assert_eq!(out, before + 4);
    assert_eq!(g.data(out - 1).0, -0.5);
    assert_eq!(g.data(out).0, 0.0);
}

#[test]
fn test_neuron_forward_leaves_out_surplus() {
    let mut g = Graph::<F>::new();
    let neuron = nn::Neuron::from_words(&mut g, &[0, 0, 0], false);
    let x = [g.variable(F(4.0)).idx];
    let before = g.len();

    let out = neuron.forward(&mut g, &x);
    assert_eq!(g.len(), before + 2);
    assert_eq!(g.data(out).0, -4.0);

    let bare = nn::Neuron::from_words(&mut g, &[], false);
    let len = g.len();
    let same = bare.forward(&mut g, &x);
    assert_eq!(g.len(), len);
    assert_eq!(same, len - 1);
}

#[test]
fn test_neuron_new() {
    let mut g = Graph::<F>::new();
    let neuron = nn::Neuron::new(&mut g, 8, true);
    assert_eq!(g.len(), 9);
    assert_eq!(neuron.parameters(), (0..9).collect::<Vec<usize>>());
    for i in 0..8 {
        let w = g.data(i).0;
        assert!(-1.0 <= w && w < 1.0);
    }
    assert_eq!(g.data(8).0, 0.0);

    let other = nn::Neuron::new(&mut g, 8, true);
    assert_eq!(other.parameters(), (9..18).collect::<Vec<usize>>());
    let first: Vec<f64> = (0..8).map(|i| g.data(i).0).collect();
    let second: Vec<f64> = (9..17).map(|i| g.data(i).0).collect();
    assert_ne!(first, second);
}

#[test]
fn test_neuron_new_without_inputs() {
    let mut g = Graph::<F>::new();
    let neuron = nn::Neuron::new(&mut g, -3, false);
    assert_eq!(g.len(), 1);
    assert_eq!(neuron.parameters(), vec![0]);
    let scaled = nn_raw::Neuron::new(&mut g, 0, false);
    assert_eq!(g.len(), 2);
    assert_eq!(scaled.parameters(), vec![1]);
}

#[test]
fn test_scaled_neuron_new() {
    let mut g = Graph::<F>::new();
    let neuron = nn_raw::Neuron::new(&mut g, 8, false);
    assert_eq!(neuron.parameters().len(), 9);
    for i in 0..8 {
        let w = g.data(i).0;
        assert!(-0.5 <= w && w < 0.5);
    }
    assert_eq!(g.data(8).0, 0.0);
}

#[test]
fn test_layer() {
    let mut g = Graph::<F>::new();
    g.variable(F(1.0));
    let layer = nn_raw::Layer::new(&mut g, 3, 4, true);
    assert_eq!(g.len(), 1 + 4 * 4);
    assert_eq!(layer.parameters(), (1..17).collect::<Vec<usize>>());
    for k in 0..4 {
        assert_eq!(g.data(1 + 4 * k + 3).0, 0.0);
    }

    let x = [g.variable(F(1.0)).idx, g.variable(F(-2.0)).idx, g.variable(F(0.5)).idx];
    let before = g.len();
    let out = layer.forward(&mut g, &x);
    assert_eq!(out.len(), 4);
    assert_eq!(g.len(), before + 4 * 7);
    for k in 0..4 {
        assert_eq!(out[k], before + 7 * k + 6);
        let w: Vec<f64> = (0..3).map(|j| g.data(1 + 4 * k + j).0).collect();
        let sum = ((0.0 + w[0] * 1.0) + w[1] * -2.0) + w[2] * 0.5;
        let expected = if sum > 0.0 { sum } else { 0.0 };
        assert_eq!(g.data(out[k]).0, expected);
    }
}

#[test]
fn test_empty_layer() {
    let mut g = Graph::<F>::new();
    let layer = nn::Layer::new(&mut g, 3, -1, true);
    assert_eq!(g.len(), 0);
    assert!(layer.parameters().is_empty());
    assert!(layer.forward(&mut g, &[]).is_empty());
}

#[test]
fn test_mlp() {
    let mut g = Graph::<F>::new();
    let mlp = nn::MLP::new(&mut g, 2, vec![3, 1]);
    assert_eq!(g.len(), 3 * 3 + 4);
    let params = mlp.parameters();
    assert_eq!(params, (0..13).collect::<Vec<usize>>());

    let x = [g.variable(F(0.5)).idx, g.variable(F(-1.0)).idx];
    let before = g.len();
    let out = mlp.forward(&mut g, &x);
    assert_eq!(out.len(), 1);
    assert_eq!(g.len(), before + 3 * 5 + 6);

    let p: Vec<f64> = params.iter().map(|&i| g.data(i).0).collect();
    let mut hidden = Vec::new();
    for k in 0..3 {
        let sum = (p[3 * k + 2] + p[3 * k] * 0.5) + p[3 * k + 1] * -1.0;
        hidden.push(if sum > 0.0 { sum } else { 0.0 });
    }
    let expected = ((p[12] + p[9] * hidden[0]) + p[10] * hidden[1]) + p[11] * hidden[2];
    assert_eq!(g.data(out[0]).0, expected);
}

#[test]
fn test_raw_mlp_with_one_layer_has_no_rectifier() {
    let mut g = Graph::<F>::new();
    let mlp = nn_raw::MLP::new(&mut g, 1, vec![2]);
    assert_eq!(mlp.parameters(), vec![0, 1, 2, 3]);
    let x = [g.variable(F(1.0)).idx];
    let before = g.len();
    let out = mlp.forward(&mut g, &x);
    assert_eq!(out, vec![before + 1, before + 3]);
    assert_eq!(g.len(), before + 4);
}

#[test]
fn test_graph_makes_networks() {
    let mut g = Graph::<F>::new();
    let neuron = g.neuron(2, true);
    assert_eq!(neuron.parameters(), vec![0, 1, 2]);
    let layer = g.layer(2, 2, false);
    assert_eq!(layer.parameters(), vec![3, 4, 5, 6, 7, 8]);
    let mlp = g.mlp(2, vec![2, 2]);
    assert_eq!(mlp.parameters().len(), 12);
    assert_eq!(g.len(), 21);
}

#[test]
fn test_training_step_reduces_the_loss() {
    let mut g = Graph::<F>::new();
    let neuron = nn_raw::Neuron::new(&mut g, 1, false);
    let params: Vec<Variable> = neuron.parameters().into_iter().map(Variable::new).collect();
    let checkpoint = g.len();

    let mut losses = Vec::new();
    for _ in 0..3 {
        let x = [g.variable(F(1.0)).idx];
        let target = g.variable(F(10.0));
        let pred = Variable::new(neuron.forward(&mut g, &x));
        let loss = pred.sub(target, &mut g).pow(F(2.0), &mut g);
        losses.push(loss.data(&g).0);

        loss.backward(&mut g);
        stochastic_gradiant_descent(&mut g, &params, F(0.1));
        g.zero_grad();
        g.truncate(checkpoint);
        assert_eq!(g.len(), checkpoint);
    }
    assert!(losses[1] < losses[0]);
    assert!(losses[2] < losses[1]);
}

#[test]
fn test_scaled_neuron_forward() {
    let mut g = Graph::<F>::new();
    let neuron = nn_raw::Neuron::from_words(&mut g, 8, &[0, HALF + (HALF >> 1)], false);
    let x = [g.variable(F(3.0)).idx, g.variable(F(5.0)).idx];
    let before = g.len();

    // bias 0, weights -0.5 and 0.25
    let out = neuron.forward(&mut g, &x);
    assert_eq!(g.len(), before + 4);
    assert_eq!(g.data(out).0, -0.25);
}

#[test]
fn test_plain_weights_fill_the_whole_range() {
    // with 128 inputs a scaled weight stays below 0.125
    let mut g = Graph::<F>::new();
    let neuron = nn::Neuron::new(&mut g, 128, false);
    let weights: Vec<f64> = neuron.parameters()[..128].iter().map(|&i| g.data(i).0).collect();
    assert!(weights.iter().all(|w| -1.0 <= *w && *w < 1.0));
    assert!(weights.iter().any(|w| w.abs() > 0.2));

    let layer = nn::Layer::new(&mut g, 128, 1, false);
    assert!(layer.parameters()[..128].iter().any(|&i| g.data(i).0.abs() > 0.2));
    let mlp = nn::MLP::new(&mut g, 128, vec![1]);
    assert!(mlp.parameters()[..128].iter().any(|&i| g.data(i).0.abs() > 0.2));
}

#[test]
fn test_scaled_weights_stay_within_the_scale() {
    let mut g = Graph::<F>::new();
    let neuron = nn_raw::Neuron::new(&mut g, 128, false);
    let weights: Vec<f64> = neuron.parameters()[..128].iter().map(|&i| g.data(i).0).collect();
    assert!(weights.iter().all(|w| -0.125 <= *w && *w < 0.125));

    let layer = nn_raw::Layer::new(&mut g, 128, 1, false);
    assert!(layer.parameters()[..128].iter().all(|&i| g.data(i).0.abs() <= 0.125));
    // the second layer has 32 inputs, and so the scale 0.25
    let mlp = nn_raw::MLP::new(&mut g, 128, vec![32, 1]);
    let p = mlp.parameters();
    assert_eq!(p.len(), 32 * 129 + 33);
    assert!(p[..128].iter().all(|&i| g.data(i).0.abs() <= 0.125));
    assert!(p[32 * 129..32 * 129 + 32].iter().all(|&i| g.data(i).0.abs() <= 0.25));
    assert!(p[32 * 129..32 * 129 + 32].iter().any(|&i| g.data(i).0.abs() > 0.125));
}

#[test]
fn test_graph_networks_are_not_scaled() {
    let mut g = Graph::<F>::new();
    let neuron = g.neuron(128, true);
    assert!(neuron.parameters()[..128].iter().any(|&i| g.data(i).0.abs() > 0.2));
    let layer = g.layer(128, 1, true);
    assert!(layer.parameters()[..128].iter().any(|&i| g.data(i).0.abs() > 0.2));
    let mlp = g.mlp(128, vec![1]);
    assert!(mlp.parameters()[..128].iter().any(|&i| g.data(i).0.abs() > 0.2));
}
