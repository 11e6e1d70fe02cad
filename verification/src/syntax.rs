//! A second handle type, for code that names the graph its context.
use vstd::prelude::*;
use crate::graph::{
    push_div, push_leaf, push_neg, push_op, push_sub, same_but_grads, Graph, Node,
};
use crate::op::Op;
use crate::pass::backward_pass;
use crate::order::depends_on;
use crate::scalar::{minus_one, one, zero, Scalar};

verus! {

/// Something that holds a graph and can add leaves to it.
pub trait VarFactory<S: Scalar> {
    /// Whether the factory is in a state in which it can make a leaf.
    open spec fn ready(&self) -> bool {
        arbitrary()
    }

    /// The nodes of the graph that the factory holds.
    open spec fn nodes(&self) -> Seq<Node<S>> {
        arbitrary()
    }

    /// Adds a leaf with the value `data` and returns a handle to it.
    fn var(&mut self, data: S) -> (r: Var)
        requires
            old(self).ready(),
        ensures
            final(self).ready(),
            final(self).nodes() == push_leaf(old(self).nodes(), data),
            r.idx == old(self).nodes().len(),
    ;
}

impl<S: Scalar> VarFactory<S> for Graph<S> {
    open spec fn ready(&self) -> bool {
        self.wf()
    }

    open spec fn nodes(&self) -> Seq<Node<S>> {
        self@
    }

    fn var(&mut self, data: S) -> (r: Var) {
        Var::new(self, data)
    }
}

/// A handle to a node: its index, and nothing else.
#[derive(Clone, Copy, Debug)]
pub struct Var {
    pub idx: usize,
}

impl Var {
    /// Adds a leaf with the value `data` to `ctx` and returns a handle to
    /// it.
    pub fn new<S: Scalar>(ctx: &mut Graph<S>, data: S) -> (r: Self)
        requires
            old(ctx).wf(),
        ensures
            final(ctx)@ == push_leaf(old(ctx)@, data),
            r.idx == old(ctx)@.len(),
            final(ctx).wf(),
    {
        Var { idx: ctx.variable(data).idx }
    }

    /// Runs a backward pass from this node.
    pub fn backprop<S: Scalar>(self, ctx: &mut Graph<S>)
        requires
            old(ctx).wf(),
            self.idx < old(ctx)@.len(),
        ensures
            final(ctx)@ == backward_pass(old(ctx)@, self.idx),
            same_but_grads(old(ctx)@, final(ctx)@),
            final(ctx)@[self.idx as int].grad == Some(one::<S>()),
            forall|x: usize|
                x < old(ctx)@.len() ==> ((#[trigger] final(ctx)@[x as int]).grad is Some
                    <==> old(ctx)@[x as int].grad is Some || depends_on(old(ctx)@, self.idx, x)),
            forall|x: usize|
                x < old(ctx)@.len() && !depends_on(old(ctx)@, self.idx, x) ==> (
                #[trigger] final(ctx)@[x as int]) == old(ctx)@[x as int],
            final(ctx).wf(),
    {
        ctx.backward(self.idx);
    }

    /// The value of this node.
    pub fn data<S: Scalar>(self, ctx: &Graph<S>) -> (r: S)
        requires
            self.idx < ctx@.len(),
        ensures
            r == ctx@[self.idx as int].data,
    {
        ctx.data(self.idx)
    }

    /// The gradient of this node, or `None` if no backward pass has
    /// reached it since its gradient was last cleared.
    pub fn grad<S: Scalar>(self, ctx: &Graph<S>) -> (r: Option<S>)
        requires
            self.idx < ctx@.len(),
        ensures
            r == ctx@[self.idx as int].grad,
    {
        ctx.grad(self.idx)
    }

    /// Replaces the value of this node.
    pub fn set_data<S: Scalar>(self, ctx: &mut Graph<S>, data: S)
        requires
            self.idx < old(ctx)@.len(),
        ensures
            final(ctx)@ == old(ctx)@.update(
                self.idx as int,
                (Node { data, ..old(ctx)@[self.idx as int] }),
            ),
            old(ctx).wf() ==> final(ctx).wf(),
    {
        ctx.set_data(self.idx, data);
    }

    /// Clears the gradient of this node.
    pub fn zero_grad<S: Scalar>(self, ctx: &mut Graph<S>)
        requires
            self.idx < old(ctx)@.len(),
        ensures
            final(ctx)@ == old(ctx)@.update(
                self.idx as int,
                (Node { grad: None, ..old(ctx)@[self.idx as int] }),
            ),
            old(ctx).wf() ==> final(ctx).wf(),
    {
        ctx.zero_grad_single(self.idx);
    }

    /// Adds this node raised to the power `exp`.
    pub fn pow<S: Scalar>(self, exp: S, ctx: &mut Graph<S>) -> (r: Self)
        requires
            old(ctx).wf(),
            self.idx < old(ctx)@.len(),
        ensures
            final(ctx)@ == push_op(old(ctx)@, seq![self.idx], Op::Pow(exp)),
            final(ctx)@[r.idx as int].data == old(ctx)@[self.idx as int].data.spec_powf(exp),
            r.idx == old(ctx)@.len(),
            final(ctx).wf(),
    {
        Var { idx: ctx.pow_op(self.idx, exp) }
    }

    /// Adds the larger of zero and this node.
    pub fn relu<S: Scalar>(self, ctx: &mut Graph<S>) -> (r: Self)
        requires
            old(ctx).wf(),
            self.idx < old(ctx)@.len(),
        ensures
            final(ctx)@ == push_op(old(ctx)@, seq![self.idx], Op::ReLU),
            final(ctx)@[r.idx as int].data == (if old(ctx)@[self.idx as int].data.spec_is_positive() {
                old(ctx)@[self.idx as int].data
            } else {
                zero()
            }),
            r.idx == old(ctx)@.len(),
            final(ctx).wf(),
    {
        Var { idx: ctx.relu_op(self.idx) }
    }

    /// Adds the sum of this node and `rhs`.
    pub fn add<S: Scalar>(self, rhs: Self, ctx: &mut Graph<S>) -> (r: Self)
        requires
            old(ctx).wf(),
            self.idx < old(ctx)@.len(),
            rhs.idx < old(ctx)@.len(),
        ensures
            final(ctx)@ == push_op(old(ctx)@, seq![self.idx, rhs.idx], Op::Add),
            final(ctx)@[r.idx as int].data == old(ctx)@[self.idx as int].data.spec_plus(
                old(ctx)@[rhs.idx as int].data,
            ),
            r.idx == old(ctx)@.len(),
            final(ctx).wf(),
    {
        Var { idx: ctx.add_op(self.idx, rhs.idx) }
    }

    /// Adds the difference of this node and `rhs`.
    pub fn sub<S: Scalar>(self, rhs: Self, ctx: &mut Graph<S>) -> (r: Self)
        requires
            old(ctx).wf(),
            self.idx < old(ctx)@.len(),
            rhs.idx < old(ctx)@.len(),
        ensures
            final(ctx)@ == push_sub(old(ctx)@, self.idx, rhs.idx),
            final(ctx)@[r.idx as int].data == old(ctx)@[self.idx as int].data.spec_plus(
                old(ctx)@[rhs.idx as int].data.spec_times(minus_one()),
            ),
            r.idx == old(ctx)@.len() + 2,
            final(ctx).wf(),
    {
        Var { idx: ctx.sub_op(self.idx, rhs.idx) }
    }

    /// Adds the product of this node and `rhs`.
    pub fn mul<S: Scalar>(self, rhs: Self, ctx: &mut Graph<S>) -> (r: Self)
        requires
            old(ctx).wf(),
            self.idx < old(ctx)@.len(),
            rhs.idx < old(ctx)@.len(),
        ensures
            final(ctx)@ == push_op(old(ctx)@, seq![self.idx, rhs.idx], Op::Mul),
            final(ctx)@[r.idx as int].data == old(ctx)@[self.idx as int].data.spec_times(
                old(ctx)@[rhs.idx as int].data,
            ),
            r.idx == old(ctx)@.len(),
            final(ctx).wf(),
    {
        Var { idx: ctx.mul_op(self.idx, rhs.idx) }
    }

    /// Adds the quotient of this node and `rhs`.
    pub fn div<S: Scalar>(self, rhs: Self, ctx: &mut Graph<S>) -> (r: Self)
        requires
            old(ctx).wf(),
            self.idx < old(ctx)@.len(),
            rhs.idx < old(ctx)@.len(),
        ensures
            final(ctx)@ == push_div(old(ctx)@, self.idx, rhs.idx),
            final(ctx)@[r.idx as int].data == old(ctx)@[self.idx as int].data.spec_times(
                old(ctx)@[rhs.idx as int].data.spec_powf(minus_one()),
            ),
            r.idx == old(ctx)@.len() + 1,
            final(ctx).wf(),
    {
        Var { idx: ctx.div_op(self.idx, rhs.idx) }
    }

    /// Adds the negation of this node.
    pub fn neg<S: Scalar>(self, ctx: &mut Graph<S>) -> (r: Self)
        requires
            old(ctx).wf(),
            self.idx < old(ctx)@.len(),
        ensures
            final(ctx)@ == push_neg(old(ctx)@, self.idx),
            final(ctx)@[r.idx as int].data == old(ctx)@[self.idx as int].data.spec_times(minus_one()),
            r.idx == old(ctx)@.len() + 1,
            final(ctx).wf(),
    {
        Var { idx: ctx.neg_op(self.idx) }
    }
}

} // verus!
