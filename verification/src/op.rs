//! The operation catalog: what each kind of node computes, and how a
//! gradient that arrives at a node is handed on to its operands.
use vstd::prelude::*;
use crate::scalar::{one, zero, Scalar};

verus! {

/// The kind of a node.
#[derive(Debug)]
pub enum Op<S> {
    /// A leaf: a value that was given, not computed.
    Value,
    /// The sum of two operands.
    Add,
    /// The product of two operands.
    Mul,
    /// One operand raised to a fixed power. The exponent belongs to the
    /// node and is no operand: nothing is differentiated with respect to it.
    Pow(S),
    /// The larger of zero and one operand.
    ReLU,
    /// `e` raised to one operand.
    Exp,
    /// The natural logarithm of one operand.
    Log,
}

impl<S: Copy> Clone for Op<S> {
    fn clone(&self) -> (r: Self)
        ensures
            r == *self,
    {
        *self
    }
}

impl<S: Copy> Copy for Op<S> {

}

impl<S: Scalar> Op<S> {
    /// The number of operands that a node of this kind has.
    pub open spec fn arity(self) -> nat {
        match self {
            Op::Value => 0,
            Op::Add | Op::Mul => 2,
            Op::Pow(_) | Op::ReLU | Op::Exp | Op::Log => 1,
        }
    }

    /// The value of a node of this kind whose operands have the values `xs`.
    pub open spec fn spec_forward(self, xs: Seq<S>) -> S
        recommends
            !(self is Value),
            xs.len() >= self.arity(),
    {
        match self {
            Op::Value => arbitrary(),
            Op::Add => xs[0].spec_plus(xs[1]),
            Op::Mul => xs[0].spec_times(xs[1]),
            Op::Pow(k) => xs[0].spec_powf(k),
            Op::ReLU => if xs[0].spec_is_positive() {
                xs[0]
            } else {
                zero()
            },
            Op::Exp => xs[0].spec_exp(),
            Op::Log => xs[0].spec_ln(),
        }
    }

    /// What a node of this kind adds to the gradient of each operand, in
    /// the order of the operands: its local derivative with respect to the
    /// operand, times `g`, the gradient that has reached the node itself.
    /// `xs` are the operands' values and `out` is the node's own value.
    pub open spec fn spec_backward(self, xs: Seq<S>, out: S, g: S) -> Seq<S>
        recommends
            xs.len() >= self.arity(),
    {
        match self {
            Op::Value => seq![],
            Op::Add => seq![g, g],
            Op::Mul => seq![xs[1].spec_times(g), xs[0].spec_times(g)],
            Op::Pow(k) => seq![k.spec_times(xs[0].spec_powf(k.spec_minus(one()))).spec_times(g)],
            Op::ReLU => seq![if out.spec_is_positive() {
                g
            } else {
                zero()
            }],
            Op::Exp => seq![out.spec_times(g)],
            Op::Log => seq![g.spec_over(xs[0])],
        }
    }

    /// Evaluates a node of this kind on the values of its operands.
    pub fn forward(&self, children_data: &[S]) -> (r: S)
        requires
            !(*self is Value),
            children_data@.len() >= self.arity(),
        ensures
            r == self.spec_forward(children_data@),
    {
        match self {
            Op::Add => children_data[0].plus(children_data[1]),
            Op::Mul => children_data[0].times(children_data[1]),
            Op::Pow(exp) => children_data[0].powf(*exp),
            Op::ReLU => {
                if children_data[0].is_positive() {
                    children_data[0]
                } else {
                    S::from_int(0)
                }
            },
            Op::Exp => children_data[0].exp(),
            Op::Log => children_data[0].ln(),
            Op::Value => vstd::pervasive::unreached(),
        }
    }

    /// Computes what a node of this kind adds to the gradient of each of
    /// its operands, given the operands' values, the node's value and the
    /// gradient that has reached the node.
    pub fn backward(&self, children_data: &[S], out_data: S, out_grad: S) -> (r: Vec<S>)
        requires
            children_data@.len() >= self.arity(),
        ensures
            r@ == self.spec_backward(children_data@, out_data, out_grad),
    {
        match self {
            Op::Add => vec![out_grad, out_grad],
            Op::Mul => vec![
                children_data[1].times(out_grad),
                children_data[0].times(out_grad),
            ],
            Op::Pow(exp) => vec![
                exp.times(children_data[0].powf(exp.minus(S::from_int(1)))).times(out_grad),
            ],
            Op::ReLU => vec![
                if out_data.is_positive() {
                    out_grad
                } else {
                    S::from_int(0)
                },
            ],
            Op::Exp => vec![out_data.times(out_grad)],
            Op::Log => vec![out_grad.over(children_data[0])],
            Op::Value => Vec::new(),
        }
    }
}

} // verus!
