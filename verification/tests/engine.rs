use backprop_rs::graph::{Graph, Variable};
use backprop_rs::op::Op;
use backprop_rs::optim::stochastic_gradiant_descent;
use backprop_rs::scalar::{Scalar, Trivial};
use backprop_rs::syntax::{Var, VarFactory};

/// Double-precision floating point as the graph's number type.
#[derive(Clone, Copy, Debug, PartialEq)]
struct F(f64);

impl Scalar for F {
    fn from_int(n: i64) -> Self {
        F(n as f64)
    }

    fn neg_infinity() -> Self {
        F(f64::NEG_INFINITY)
    }

    fn plus(self, rhs: Self) -> Self {
        F(self.0 + rhs.0)
    }

    fn minus(self, rhs: Self) -> Self {
        F(self.0 - rhs.0)
    }

    fn times(self, rhs: Self) -> Self {
        F(self.0 * rhs.0)
    }

    fn over(self, rhs: Self) -> Self {
        F(self.0 / rhs.0)
    }

    fn powf(self, exponent: Self) -> Self {
        F(self.0.powf(exponent.0))
    }

    fn exp(self) -> Self {
        F(self.0.exp())
    }

    fn ln(self) -> Self {
        F(self.0.ln())
    }

    fn sqrt(self) -> Self {
        F(self.0.sqrt())
    }

    fn max(self, rhs: Self) -> Self {
        F(self.0.max(rhs.0))
    }

    fn is_positive(self) -> bool {
        self.0 > 0.0
    }
}

fn close(a: f64, b: f64) -> bool {
    (a - b).abs() < 1e-12
}

#[test]
fn test_add() {
    let mut g = Graph::<F>::new();
    let a = g.variable(F(2.0));
    let b = g.variable(F(3.0));
    let c = a.add(b, &mut g);

    assert_eq!(c.data(&g).0, 5.0);

    c.backward(&mut g);
    assert_eq!(a.grad(&g).unwrap().0, 1.0);
    assert_eq!(b.grad(&g).unwrap().0, 1.0);
}

#[test]
fn test_mul() {
    let mut g = Graph::<F>::new();
    let a = g.variable(F(2.0));
    let b = g.variable(F(3.0));
    let c = a.mul(b, &mut g);

    assert_eq!(c.data(&g).0, 6.0);

    c.backward(&mut g);
    assert_eq!(a.grad(&g).unwrap().0, 3.0);
    assert_eq!(b.grad(&g).unwrap().0, 2.0);
}

#[test]
fn test_pow() {
    let mut g = Graph::<F>::new();
    let a = g.variable(F(2.0));
    let b = a.pow(F(3.0), &mut g);

    assert_eq!(b.data(&g).0, 8.0);

    b.backward(&mut g);
    assert_eq!(a.grad(&g).unwrap().0, 12.0);
}

#[test]
fn test_relu_positive() {
    let mut g = Graph::<F>::new();
    let a = g.variable(F(2.0));
    let b = a.relu(&mut g);

    assert_eq!(b.data(&g).0, 2.0);

    b.backward(&mut g);
    assert_eq!(a.grad(&g).unwrap().0, 1.0);
}

#[test]
fn test_relu_negative() {
    let mut g = Graph::<F>::new();
    let a = g.variable(F(-2.0));
    let b = a.relu(&mut g);

    assert_eq!(b.data(&g).0, 0.0);

    b.backward(&mut g);
    assert_eq!(a.grad(&g).unwrap().0, 0.0);
}

#[test]
fn test_sub() {
    let mut g = Graph::<F>::new();
    let a = g.variable(F(5.0));
    let b = g.variable(F(3.0));
    let c = a.sub(b, &mut g);

    assert_eq!(c.data(&g).0, 2.0);

    c.backward(&mut g);
    assert_eq!(a.grad(&g).unwrap().0, 1.0);
    assert_eq!(b.grad(&g).unwrap().0, -1.0);
}

#[test]
fn test_div() {
    let mut g = Graph::<F>::new();
    let a = g.variable(F(6.0));
    let b = g.variable(F(2.0));
    let c = a.div(b, &mut g);

    assert_eq!(c.data(&g).0, 3.0);

    c.backward(&mut g);
    assert_eq!(a.grad(&g).unwrap().0, 0.5);
    assert_eq!(b.grad(&g).unwrap().0, -1.5);
}

#[test]
fn test_variable_reuse() {
    let mut g = Graph::<F>::new();
    let a = g.variable(F(3.0));
    let a_sq = a.mul(a, &mut g);
    let b = a_sq.add(a, &mut g);

    assert_eq!(b.data(&g).0, 12.0);

    b.backward(&mut g);
    assert_eq!(a.grad(&g).unwrap().0, 7.0);
}

#[test]
fn test_chain() {
    let mut g = Graph::<F>::new();
    let a = g.variable(F(1.0));
    let b = g.variable(F(2.0));
    let c = g.variable(F(3.0));
    let ab = a.add(b, &mut g);
    let d = ab.mul(c, &mut g);

    assert_eq!(d.data(&g).0, 9.0);

    d.backward(&mut g);
    assert_eq!(a.grad(&g).unwrap().0, 3.0);
    assert_eq!(b.grad(&g).unwrap().0, 3.0);
    assert_eq!(c.grad(&g).unwrap().0, 3.0);
}

#[test]
fn test_neg_forward_and_backward() {
    let mut g = Graph::<F>::new();
    let a = g.variable(F(4.0));
    let n = a.neg(&mut g);

    assert_eq!(n.idx, 2);
    assert_eq!(g.len(), 3);
    assert_eq!(g.data(1).0, -1.0);
    assert_eq!(n.data(&g).0, -4.0);

    n.backward(&mut g);
    assert_eq!(a.grad(&g).unwrap().0, -1.0);
    assert_eq!(g.grad(1).unwrap().0, 4.0);
}

#[test]
fn test_exp_and_log() {
    let mut g = Graph::<F>::new();
    let a = g.variable(F(0.0));
    let e = a.exp(&mut g);
    assert_eq!(e.data(&g).0, 1.0);
    e.backward(&mut g);
    assert_eq!(a.grad(&g).unwrap().0, 1.0);

    let b = g.variable(F(4.0));
    let l = b.log(&mut g);
    assert!(close(l.data(&g).0, 4.0f64.ln()));
    l.backward(&mut g);
    assert_eq!(b.grad(&g).unwrap().0, 0.25);
}

#[test]
fn test_operation_catalog_directly() {
    let xs = [F(2.0), F(3.0)];
    assert_eq!(Op::<F>::Add.forward(&xs).0, 5.0);
    assert_eq!(Op::<F>::Mul.forward(&xs).0, 6.0);
    assert_eq!(Op::Pow(F(3.0)).forward(&xs[..1]).0, 8.0);
    assert_eq!(Op::<F>::ReLU.forward(&[F(-2.0)]).0, 0.0);
    assert_eq!(Op::<F>::ReLU.forward(&[F(2.0)]).0, 2.0);

    let g = F(10.0);
    assert_eq!(Op::<F>::Add.backward(&xs, F(5.0), g), vec![F(10.0), F(10.0)]);
    assert_eq!(Op::<F>::Mul.backward(&xs, F(6.0), g), vec![F(30.0), F(20.0)]);
    assert_eq!(Op::Pow(F(3.0)).backward(&xs[..1], F(8.0), g), vec![F(120.0)]);
    assert_eq!(Op::<F>::ReLU.backward(&[F(2.0)], F(2.0), g), vec![F(10.0)]);
    assert_eq!(Op::<F>::ReLU.backward(&[F(-2.0)], F(0.0), g), vec![F(0.0)]);
    assert_eq!(Op::<F>::Exp.backward(&[F(0.0)], F(1.0), g), vec![F(10.0)]);
    assert_eq!(Op::<F>::Log.backward(&[F(4.0)], F(4.0f64.ln()), g), vec![F(2.5)]);
    assert_eq!(Op::<F>::Value.backward(&[], F(1.0), g), Vec::<F>::new());
}

#[test]
fn test_gradient_is_absent_until_reached() {
    let mut g = Graph::<F>::new();
    let a = g.variable(F(1.0));
    let b = g.variable(F(2.0));
    let other = g.variable(F(7.0));
    let c = a.mul(b, &mut g);

    assert!(a.grad(&g).is_none());
    assert!(c.grad(&g).is_none());

    c.backward(&mut g);
    assert_eq!(c.grad(&g).unwrap().0, 1.0);
    assert!(a.grad(&g).is_some());
    assert!(other.grad(&g).is_none());
}

#[test]
fn test_zero_grad_and_repeat() {
    let mut g = Graph::<F>::new();
    let a = g.variable(F(3.0));
    let b = g.variable(F(-1.5));
    let ab = a.mul(b, &mut g);
    let s = ab.add(a, &mut g);
    let r = s.relu(&mut g);
    let root = r.add(ab, &mut g);

    root.backward(&mut g);
    let first: Vec<Option<F>> = (0..g.len()).map(|i| g.grad(i)).collect();

    g.zero_grad();
    for i in 0..g.len() {
        assert!(g.grad(i).is_none());
    }

    root.backward(&mut g);
    let second: Vec<Option<F>> = (0..g.len()).map(|i| g.grad(i)).collect();
    assert_eq!(first, second);
    assert_eq!(a.grad(&g).unwrap().0, -1.5);
    assert_eq!(b.grad(&g).unwrap().0, 3.0);
}

#[test]
fn test_backward_without_clearing_adds_up() {
    let mut g = Graph::<F>::new();
    let a = g.variable(F(2.0));
    let b = g.variable(F(3.0));
    let c = a.mul(b, &mut g);

    c.backward(&mut g);
    c.backward(&mut g);
    assert_eq!(a.grad(&g).unwrap().0, 6.0);
    assert_eq!(b.grad(&g).unwrap().0, 4.0);
    assert_eq!(c.grad(&g).unwrap().0, 1.0);
}

#[test]
fn test_zero_grad_single() {
    let mut g = Graph::<F>::new();
    let a = g.variable(F(2.0));
    let b = g.variable(F(3.0));
    let c = a.mul(b, &mut g);
    c.backward(&mut g);

    a.zero_grad(&mut g);
    assert!(a.grad(&g).is_none());
    assert_eq!(b.grad(&g).unwrap().0, 2.0);
}

#[test]
fn test_set_data_keeps_computed_values() {
    let mut g = Graph::<F>::new();
    let a = g.variable(F(2.0));
    let b = g.variable(F(3.0));
    let c = a.mul(b, &mut g);

    a.set_data(&mut g, F(10.0));
    assert_eq!(a.data(&g).0, 10.0);
    assert_eq!(c.data(&g).0, 6.0);

    let d = a.mul(b, &mut g);
    assert_eq!(d.data(&g).0, 30.0);
}

#[test]
fn test_truncate_to_checkpoint() {
    let mut g = Graph::<F>::new();
    let a = g.variable(F(2.0));
    let b = g.variable(F(3.0));
    let checkpoint = g.len();
    assert_eq!(checkpoint, 2);

    let c = a.sub(b, &mut g);
    assert_eq!(g.len(), 5);
    assert_eq!(c.idx, 4);

    g.truncate(checkpoint);
    assert_eq!(g.len(), checkpoint);
    assert_eq!(a.data(&g).0, 2.0);
    assert_eq!(b.data(&g).0, 3.0);

    let d = a.add(b, &mut g);
    assert_eq!(d.idx, checkpoint);
    assert_eq!(d.data(&g).0, 5.0);

    g.truncate(100);
    assert_eq!(g.len(), 3);
    g.truncate(0);
    assert!(g.is_empty());
}

#[test]
fn test_new_graph_is_empty() {
    let g = Graph::<F>::new();
    assert!(g.is_empty());
    assert_eq!(g.len(), 0);
    let d = Graph::<F>::default();
    assert_eq!(d.len(), 0);
}

#[test]
fn test_deep_shared_graph() {
    // f = (a * b + a) * (a * b), with a = 2, b = 3
    let mut g = Graph::<F>::new();
    let a = g.variable(F(2.0));
    let b = g.variable(F(3.0));
    let ab = a.mul(b, &mut g);
    let s = ab.add(a, &mut g);
    let f = s.mul(ab, &mut g);

    assert_eq!(f.data(&g).0, 48.0);
    f.backward(&mut g);
    // df/da = (b + 1) * ab + (ab + a) * b = 4 * 6 + 8 * 3 = 48
    assert_eq!(a.grad(&g).unwrap().0, 48.0);
    // df/db = a * ab + (ab + a) * a = 12 + 16 = 28
    assert_eq!(b.grad(&g).unwrap().0, 28.0);
    assert_eq!(ab.grad(&g).unwrap().0, 14.0);
}

#[test]
fn test_softmax_sums_to_one() {
    let mut g = Graph::<F>::new();
    let logits = [g.variable(F(1.0)), g.variable(F(2.0)), g.variable(F(3.0))];
    let before = g.len();
    let probs = g.softmax(&logits);

    assert_eq!(probs.len(), 3);
    assert_eq!(g.len(), before + 7 * 3);
    assert_eq!(g.data(before).0, 3.0);

    let total: f64 = probs.iter().map(|p| p.data(&g).0).sum();
    assert!(close(total, 1.0));

    let denominator = (-2.0f64).exp() + (-1.0f64).exp() + 1.0;
    assert!(close(probs[0].data(&g).0, (-2.0f64).exp() / denominator));
    assert!(close(probs[2].data(&g).0, 1.0 / denominator));
}

#[test]
fn test_softmax_ignores_a_common_shift() {
    let mut g = Graph::<F>::new();
    let logits = [g.variable(F(0.5)), g.variable(F(-1.0)), g.variable(F(2.0))];
    let shifted = [g.variable(F(100.5)), g.variable(F(99.0)), g.variable(F(102.0))];
    let p = g.softmax(&logits);
    let q = g.softmax(&shifted);
    for i in 0..3 {
        assert!(close(p[i].data(&g).0, q[i].data(&g).0));
    }
}

#[test]
fn test_softmax_of_large_logits_is_finite() {
    let mut g = Graph::<F>::new();
    let logits = [g.variable(F(1000.0)), g.variable(F(1000.0))];
    let p = g.softmax(&logits);
    assert_eq!(p[0].data(&g).0, 0.5);
    assert_eq!(p[1].data(&g).0, 0.5);
}

#[test]
fn test_cross_entropy() {
    let mut g = Graph::<F>::new();
    let probs = [g.variable(F(0.25)), g.variable(F(0.75))];
    let before = g.len();
    let loss = g.cross_entropy(&probs, 0);

    assert_eq!(loss.idx, before + 2);
    assert!(close(loss.data(&g).0, -(0.25f64.ln())));

    loss.backward(&mut g);
    assert!(close(probs[0].grad(&g).unwrap().0, -4.0));
    assert!(probs[1].grad(&g).is_none());
}

#[test]
fn test_softmax_cross_entropy_gradient() {
    let mut g = Graph::<F>::new();
    let logits = [g.variable(F(1.0)), g.variable(F(2.0)), g.variable(F(0.5))];
    let probs = g.softmax(&logits);
    let loss = g.cross_entropy(&probs, 1);
    let p: Vec<f64> = probs.iter().map(|v| v.data(&g).0).collect();

    loss.backward(&mut g);
    // d loss / d logit_i = p_i - [i == target]
    assert!((logits[0].grad(&g).unwrap().0 - p[0]).abs() < 1e-9);
    assert!((logits[1].grad(&g).unwrap().0 - (p[1] - 1.0)).abs() < 1e-9);
    assert!((logits[2].grad(&g).unwrap().0 - p[2]).abs() < 1e-9);
}

#[test]
fn test_gradient_descent_step() {
    let mut g = Graph::<F>::new();
    let a = g.variable(F(1.0));
    let b = g.variable(F(2.0));
    let d = a.sub(b, &mut g);
    let loss = d.pow(F(2.0), &mut g);
    loss.backward(&mut g);

    assert_eq!(a.grad(&g).unwrap().0, -2.0);
    assert_eq!(b.grad(&g).unwrap().0, 2.0);

    stochastic_gradiant_descent(&mut g, &[a, b], F(0.25));
    assert_eq!(a.data(&g).0, 1.5);
    assert_eq!(b.data(&g).0, 1.5);
    assert_eq!(loss.data(&g).0, 1.0);
}

#[test]
fn test_gradient_descent_without_gradient_and_twice() {
    let mut g = Graph::<F>::new();
    let a = g.variable(F(1.0));
    let b = g.variable(F(5.0));
    let c = a.mul(a, &mut g);
    c.backward(&mut g);
    assert_eq!(a.grad(&g).unwrap().0, 2.0);

    stochastic_gradiant_descent(&mut g, &[b, a, a], F(0.5));
    assert_eq!(b.data(&g).0, 5.0);
    assert_eq!(a.data(&g).0, -1.0);
}

#[test]
fn test_var_handles() {
    let mut g = Graph::<F>::new();
    let a = Var::new(&mut g, F(6.0));
    let b = g.var(F(2.0));
    let q = a.div(b, &mut g);
    let s = a.sub(b, &mut g);
    let m = q.mul(s, &mut g);
    let r = m.neg(&mut g).relu(&mut g);
    let t = a.add(b, &mut g).pow(F(2.0), &mut g);

    assert_eq!(q.data(&g).0, 3.0);
    assert_eq!(s.data(&g).0, 4.0);
    assert_eq!(m.data(&g).0, 12.0);
    assert_eq!(r.data(&g).0, 0.0);
    assert_eq!(t.data(&g).0, 64.0);

    t.backprop(&mut g);
    assert_eq!(a.grad(&g).unwrap().0, 16.0);
    assert_eq!(b.grad(&g).unwrap().0, 16.0);

    a.zero_grad(&mut g);
    assert!(a.grad(&g).is_none());
    a.set_data(&mut g, F(1.0));
    assert_eq!(a.data(&g).0, 1.0);
}

#[test]
fn test_variable_new_is_a_plain_handle() {
    let mut g = Graph::<F>::new();
    let a = g.variable(F(2.5));
    let again = Variable::new(a.idx);
    assert_eq!(again.data(&g).0, 2.5);
}

#[test]
fn test_trivial_scalar_walks_the_structure() {
    let mut g = Graph::<Trivial>::new();
    let a = g.variable(Trivial);
    let b = g.variable(Trivial);
    let unused = g.variable(Trivial);
    let c = a.mul(b, &mut g);
    let d = c.exp(&mut g);

    d.backward(&mut g);
    assert!(a.grad(&g).is_some());
    assert!(b.grad(&g).is_some());
    assert!(c.grad(&g).is_some());
    assert!(d.grad(&g).is_some());
    assert!(unused.grad(&g).is_none());
}

#[test]
fn test_accumulation_follows_the_order_of_the_pass() {
    // f = (x * -1e16 + x * 1e16) + x * 1: the three products hand their
    // gradients to x in the order 1, 1e16, -1e16, and rounding shows it
    let mut g = Graph::<F>::new();
    let x = g.variable(F(1.0));
    let by_low = g.variable(F(-1e16));
    let low = x.mul(by_low, &mut g);
    let by_high = g.variable(F(1e16));
    let high = x.mul(by_high, &mut g);
    let s = low.add(high, &mut g);
    let by_unit = g.variable(F(1.0));
    let unit = x.mul(by_unit, &mut g);
    let f = s.add(unit, &mut g);

    f.backward(&mut g);
    assert_eq!(((0.0f64 + 1.0) + 1e16) + -1e16, 0.0);
    assert_eq!(((0.0f64 + -1e16) + 1e16) + 1.0, 1.0);
    assert_eq!(x.grad(&g).unwrap().0, 0.0);
}

#[test]
fn test_softmax_shift_can_be_lost_in_rounding() {
    let mut g = Graph::<F>::new();
    let logits = [g.variable(F(0.0)), g.variable(F(1.0))];
    let shifted = [g.variable(F(0.0 + 1e20)), g.variable(F(1.0 + 1e20))];
    let p = g.softmax(&logits);
    let q = g.softmax(&shifted);
    assert!(close(p[1].data(&g).0, 1.0 / (1.0 + (-1.0f64).exp())));
    assert_eq!(q[0].data(&g).0, 0.5);
    assert_eq!(q[1].data(&g).0, 0.5);
}

#[test]
fn test_softmax_entries_lie_between_zero_and_one() {
    let mut g = Graph::<F>::new();
    let values = [-30.0, -1.5, 0.0, 0.25, 3.0, 12.0, 700.0];
    let logits: Vec<Variable> = values.iter().map(|&v| g.variable(F(v))).collect();
    let probs = g.softmax(&logits);

    let mut total = 0.0;
    for p in &probs {
        let v = p.data(&g).0;
        assert!(0.0 <= v && v <= 1.0);
        total += v;
    }
    assert!((total - 1.0).abs() < 1e-9);

    let one = [g.variable(F(-4.0))];
    let alone = g.softmax(&one);
    assert_eq!(alone[0].data(&g).0, 1.0);
}
