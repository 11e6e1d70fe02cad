//! The node store: an arena of computation nodes addressed by index.
use std::collections::HashSet;
use vstd::prelude::*;
use crate::model::{
    count, fresh_layer, fresh_mlp, layer_in, mlp_in, mlp_size, neuron_at, neuron_base, neuron_in,
    with_neuron,
};
use crate::op::Op;
use crate::chain::lemma_backward_pass_reach;
use crate::order::{
    depends_on, lemma_visit, lemma_visit_operands, topo_order, visit, visit_operands,
};
use crate::pass::{
    accumulated, backward_pass, distributed, lemma_backward_len, local_gradients, propagated,
    propagated_node, seeded,
};
use crate::scalar::{minus_one, one, zero, Scalar};

verus! {

/// The index of a node in its graph.
pub type VariableDataIdx = usize;

/// A node as the graph stores it.
#[derive(Debug)]
pub struct VariableData<S> {
    pub data: S,
    pub grad: Option<S>,
    pub children: Vec<VariableDataIdx>,
    pub op: Op<S>,
}

/// A node as the contracts speak of it.
pub ghost struct Node<S> {
    /// The value, computed once when the node was made.
    pub data: S,
    /// The gradient; `None` until a backward pass reaches the node.
    pub grad: Option<S>,
    /// The operands, by index.
    pub children: Seq<usize>,
    /// The kind of node.
    pub op: Op<S>,
}

impl<S> View for VariableData<S> {
    type V = Node<S>;

    open spec fn view(&self) -> Node<S> {
        Node { data: self.data, grad: self.grad, children: self.children@, op: self.op }
    }
}

impl<S> VariableData<S> {
    /// A leaf with the value `data`: no gradient, no operands.
    pub fn new(data: S) -> (r: Self)
        ensures
            r@ == leaf(data),
    {
        Self { data, grad: None, children: Vec::new(), op: Op::Value }
    }
}

/// A leaf with the value `data`.
pub open spec fn leaf<S>(data: S) -> Node<S> {
    Node { data, grad: None, children: seq![], op: Op::Value }
}

/// The values of the nodes that `children` names.
pub open spec fn operand_values<S>(nodes: Seq<Node<S>>, children: Seq<usize>) -> Seq<S> {
    Seq::new(children.len(), |j: int| nodes[children[j] as int].data)
}

/// The node that applying `op` to `children` makes, in a graph that holds
/// `nodes`: its value is computed from the values the operands have now.
pub open spec fn op_node<S: Scalar>(nodes: Seq<Node<S>>, children: Seq<usize>, op: Op<S>) -> Node<
    S,
> {
    Node { data: op.spec_forward(operand_values(nodes, children)), grad: None, children, op }
}

/// Whether every node has as many operands as its kind asks for, each of
/// them a node that was made before it. This makes the graph acyclic.
pub open spec fn well_formed<S: Scalar>(nodes: Seq<Node<S>>) -> bool {
    forall|i: int|
        0 <= i < nodes.len() ==> {
            &&& (#[trigger] nodes[i]).children.len() == nodes[i].op.arity()
            &&& forall|j: int|
                0 <= j < nodes[i].children.len() ==> (#[trigger] nodes[i].children[j]) < i
        }
}

/// `nodes` with a new leaf of value `data` at the end.
pub open spec fn push_leaf<S>(nodes: Seq<Node<S>>, data: S) -> Seq<Node<S>> {
    nodes.push(leaf(data))
}

/// `nodes` with, at the end, the node that applies `op` to `children`.
pub open spec fn push_op<S: Scalar>(nodes: Seq<Node<S>>, children: Seq<usize>, op: Op<S>) -> Seq<
    Node<S>,
> {
    nodes.push(op_node(nodes, children, op))
}

/// `nodes` with the two nodes that negate node `a`: a leaf with the value
/// minus one, then the product of `a` and that leaf.
pub open spec fn push_neg<S: Scalar>(nodes: Seq<Node<S>>, a: usize) -> Seq<Node<S>> {
    push_op(push_leaf(nodes, minus_one()), seq![a, nodes.len() as usize], Op::Mul)
}

/// `nodes` with the three nodes that subtract node `b` from node `a`: the
/// two that negate `b`, then the sum of `a` and the negation.
pub open spec fn push_sub<S: Scalar>(nodes: Seq<Node<S>>, a: usize, b: usize) -> Seq<Node<S>> {
    push_op(push_neg(nodes, b), seq![a, (nodes.len() + 1) as usize], Op::Add)
}

/// `nodes` with the two nodes that divide node `a` by node `b`: `b` raised
/// to the power minus one, then the product of `a` and that power.
pub open spec fn push_div<S: Scalar>(nodes: Seq<Node<S>>, a: usize, b: usize) -> Seq<Node<S>> {
    push_op(push_op(nodes, seq![b], Op::Pow(minus_one())), seq![a, nodes.len() as usize], Op::Mul)
}

/// The first `len` nodes of `nodes`; all of them, if there are no more.
pub open spec fn truncated<S>(nodes: Seq<Node<S>>, len: nat) -> Seq<Node<S>> {
    if len <= nodes.len() {
        nodes.subrange(0, len as int)
    } else {
        nodes
    }
}

/// Whether `b` is `a` with nodes added at the end: every node of `a` is
/// in `b`, at its index and unchanged.
pub open spec fn extends_graph<S>(a: Seq<Node<S>>, b: Seq<Node<S>>) -> bool {
    &&& a.len() <= b.len()
    &&& forall|i: int| 0 <= i < a.len() ==> #[trigger] b[i] == a[i]
}

/// `nodes` with every gradient cleared.
pub open spec fn cleared<S>(nodes: Seq<Node<S>>) -> Seq<Node<S>> {
    Seq::new(nodes.len(), |i: int| Node { grad: None, ..nodes[i] })
}

/// Whether `a` and `b` are the same graph up to gradients: as many nodes,
/// with the same values, operands and kinds.
pub open spec fn same_but_grads<S>(a: Seq<Node<S>>, b: Seq<Node<S>>) -> bool {
    &&& a.len() == b.len()
    &&& forall|i: int|
        0 <= i < a.len() ==> {
            &&& (#[trigger] a[i]).data == b[i].data
            &&& a[i].children == b[i].children
            &&& a[i].op == b[i].op
        }
}

/// Well-formedness speaks of operands and kinds only.
pub proof fn lemma_well_formed_shape<S: Scalar>(a: Seq<Node<S>>, b: Seq<Node<S>>)
    requires
        well_formed(a),
        a.len() == b.len(),
        forall|i: int|
            0 <= i < a.len() ==> (#[trigger] a[i]).children == b[i].children && a[i].op == b[i].op,
    ensures
        well_formed(b),
{
    assert forall|i: int| 0 <= i < b.len() implies {
        &&& (#[trigger] b[i]).children.len() == b[i].op.arity()
        &&& forall|j: int| 0 <= j < b[i].children.len() ==> (#[trigger] b[i].children[j]) < i
    } by {
        assert(a[i].children == b[i].children);
    }
}

/// A well-formed graph stays well formed when a node is added whose
/// operands are in the graph and as many as its kind asks for.
pub proof fn lemma_well_formed_push<S: Scalar>(nodes: Seq<Node<S>>, node: Node<S>)
    requires
        well_formed(nodes),
        node.children.len() == node.op.arity(),
        forall|j: int| 0 <= j < node.children.len() ==> (#[trigger] node.children[j]) < nodes.len(),
    ensures
        well_formed(nodes.push(node)),
{
    let b = nodes.push(node);
    assert forall|i: int| 0 <= i < b.len() implies {
        &&& (#[trigger] b[i]).children.len() == b[i].op.arity()
        &&& forall|j: int| 0 <= j < b[i].children.len() ==> (#[trigger] b[i].children[j]) < i
    } by {
        if i < nodes.len() {
            assert(b[i] == nodes[i]);
        }
    }
}

/// Every prefix of a well-formed graph is well formed.
pub proof fn lemma_well_formed_prefix<S: Scalar>(nodes: Seq<Node<S>>, len: int)
    requires
        well_formed(nodes),
        0 <= len <= nodes.len(),
    ensures
        well_formed(nodes.subrange(0, len)),
{
    let b = nodes.subrange(0, len);
    assert forall|i: int| 0 <= i < b.len() implies {
        &&& (#[trigger] b[i]).children.len() == b[i].op.arity()
        &&& forall|j: int| 0 <= j < b[i].children.len() ==> (#[trigger] b[i].children[j]) < i
    } by {
        assert(b[i] == nodes[i]);
    }
}

/// Cutting a graph back to `len` nodes leaves exactly `len` nodes, each
/// what it was. The next node made gets the index `len`, and its value is
/// computed from the values that the nodes it names had before the cut.
pub proof fn lemma_truncated_then_pushed<S: Scalar>(
    nodes: Seq<Node<S>>,
    len: nat,
    data: S,
    children: Seq<usize>,
    op: Op<S>,
)
    requires
        len <= nodes.len(),
        forall|j: int| 0 <= j < children.len() ==> (#[trigger] children[j]) < len,
    ensures
        truncated(nodes, len).len() == len,
        forall|i: int| 0 <= i < len ==> (#[trigger] truncated(nodes, len)[i]) == nodes[i],
        push_leaf(truncated(nodes, len), data).len() == len + 1,
        push_leaf(truncated(nodes, len), data)[len as int] == leaf(data),
        push_op(truncated(nodes, len), children, op).len() == len + 1,
        push_op(truncated(nodes, len), children, op)[len as int] == op_node(nodes, children, op),
{
    assert(operand_values(truncated(nodes, len), children) =~= operand_values(nodes, children));
}

/// Clearing the gradients leaves no gradient, and nothing else changes.
pub proof fn lemma_cleared<S>(nodes: Seq<Node<S>>)
    ensures
        cleared(nodes).len() == nodes.len(),
        forall|i: int| 0 <= i < nodes.len() ==> (#[trigger] cleared(nodes)[i]).grad is None,
        same_but_grads(nodes, cleared(nodes)),
{
}

/// An arena that holds every node of a computation.
#[derive(Debug)]
pub struct Graph<S> {
    vars: Vec<VariableData<S>>,
}

impl<S> View for Graph<S> {
    type V = Seq<Node<S>>;

    closed spec fn view(&self) -> Seq<Node<S>> {
        Seq::new(self.vars@.len(), |i: int| self.vars@[i]@)
    }
}

impl<S: Scalar> Graph<S> {
    /// Whether the graph is well formed. Every graph that this module
    /// hands out is, and every method keeps it so.
    pub open spec fn wf(&self) -> bool {
        &&& well_formed(self@)
        &&& self@.len() <= usize::MAX
    }

    /// An empty graph.
    pub fn new() -> (g: Self)
        ensures
            g@ == Seq::<Node<S>>::empty(),
            g.wf(),
    {
        Self { vars: Vec::new() }
    }

    /// Adds a leaf with the value `data` and returns a handle to it.
    pub fn variable(&mut self, data: S) -> (r: Variable)
        requires
            old(self).wf(),
        ensures
            final(self)@ == push_leaf(old(self)@, data),
            r.idx == old(self)@.len(),
            final(self).wf(),
    {
        self.vars.push(VariableData::new(data));
        proof {
            assert(self@ =~= push_leaf(old(self)@, data));
            lemma_well_formed_push(old(self)@, leaf(data));
        }
        Variable { idx: self.vars.len() - 1 }
    }

    /// Clears every gradient.
    pub fn zero_grad(&mut self)
        requires
            old(self).wf(),
        ensures
            final(self)@ == cleared(old(self)@),
            forall|i: int| 0 <= i < final(self)@.len() ==> (#[trigger] final(self)@[i]).grad is None,
            final(self).wf(),
    {
        let n: usize = self.vars.len();
        let mut i: usize = 0;
        while i < n
            invariant
                i <= n,
                n == self@.len(),
                self@.len() == old(self)@.len(),
                forall|k: int| 0 <= k < i ==> self@[k] == (Node { grad: None, ..old(self)@[k] }),
                forall|k: int| i <= k < n ==> self@[k] == old(self)@[k],
            decreases n - i,
        {
            let ghost before = self@;
            self.vars[i].grad = None;
            proof {
                assert forall|k: int| 0 <= k < i + 1 implies self@[k] == (Node {
                    grad: None,
                    ..old(self)@[k]
                }) by {
                    if k < i {
                        assert(self@[k] == before[k]);
                    } else {
                        assert(before[k] == old(self)@[k]);
                    }
                }
            }
            i += 1;
        }
        proof {
            assert(self@ =~= cleared(old(self)@));
            lemma_well_formed_shape(old(self)@, self@);
        }
    }

    /// Removes every node from index `len` on. Handles to removed nodes
    /// must not be used afterwards; the next node made gets index `len`.
    pub fn truncate(&mut self, len: usize)
        requires
            old(self).wf(),
        ensures
            final(self)@ == truncated(old(self)@, len as nat),
            final(self).wf(),
    {
        self.vars.truncate(len);
        proof {
            if len <= old(self)@.len() {
                assert(self@ =~= old(self)@.subrange(0, len as int));
                lemma_well_formed_prefix(old(self)@, len as int);
            } else {
                assert(self@ =~= old(self)@);
            }
        }
    }

    /// The values of the nodes that `children` names.
    fn children_data(&self, children: &Vec<VariableDataIdx>) -> (r: Vec<S>)
        requires
            forall|j: int| 0 <= j < children@.len() ==> children@[j] < self@.len(),
        ensures
            r@ == operand_values(self@, children@),
    {
        let mut r: Vec<S> = Vec::new();
        let mut j: usize = 0;
        while j < children.len()
            invariant
                j <= children@.len(),
                r@.len() == j,
                forall|k: int| 0 <= k < children@.len() ==> children@[k] < self@.len(),
                forall|k: int| 0 <= k < j ==> r@[k] == self@[children@[k] as int].data,
            decreases children@.len() - j,
        {
            r.push(self.vars[children[j]].data);
            j += 1;
        }
        r
    }

    /// Adds the node that applies `op` to `children`, evaluating it at
    /// once on the values its operands have now, and returns its index.
    pub fn push_var(&mut self, children: Vec<VariableDataIdx>, op: Op<S>) -> (r: VariableDataIdx)
        requires
            old(self).wf(),
            !(op is Value),
            children@.len() == op.arity(),
            forall|j: int| 0 <= j < children@.len() ==> children@[j] < old(self)@.len(),
        ensures
            final(self)@ == push_op(old(self)@, children@, op),
            r == old(self)@.len(),
            final(self).wf(),
    {
        let children_data = self.children_data(&children);
        let data = op.forward(children_data.as_slice());
        self.vars.push(VariableData { data, grad: None, children, op });
        proof {
            assert(self@ =~= push_op(old(self)@, children@, op));
            lemma_well_formed_push(old(self)@, op_node(old(self)@, children@, op));
        }
        self.vars.len() - 1
    }

    /// Adds the sum of nodes `a` and `b`.
    pub fn add_op(&mut self, a: VariableDataIdx, b: VariableDataIdx) -> (r: VariableDataIdx)
        requires
            old(self).wf(),
            a < old(self)@.len(),
            b < old(self)@.len(),
        ensures
            final(self)@ == push_op(old(self)@, seq![a, b], Op::Add),
            final(self)@[r as int].data == old(self)@[a as int].data.spec_plus(
                old(self)@[b as int].data,
            ),
            r == old(self)@.len(),
            final(self).wf(),
    {
        self.push_var(vec![a, b], Op::Add)
    }

    /// Adds the product of nodes `a` and `b`.
    pub fn mul_op(&mut self, a: VariableDataIdx, b: VariableDataIdx) -> (r: VariableDataIdx)
        requires
            old(self).wf(),
            a < old(self)@.len(),
            b < old(self)@.len(),
        ensures
            final(self)@ == push_op(old(self)@, seq![a, b], Op::Mul),
            final(self)@[r as int].data == old(self)@[a as int].data.spec_times(
                old(self)@[b as int].data,
            ),
            r == old(self)@.len(),
            final(self).wf(),
    {
        self.push_var(vec![a, b], Op::Mul)
    }

    /// Adds node `a` raised to the power `exp`.
    pub fn pow_op(&mut self, a: VariableDataIdx, exp: S) -> (r: VariableDataIdx)
        requires
            old(self).wf(),
            a < old(self)@.len(),
        ensures
            final(self)@ == push_op(old(self)@, seq![a], Op::Pow(exp)),
            final(self)@[r as int].data == old(self)@[a as int].data.spec_powf(exp),
            r == old(self)@.len(),
            final(self).wf(),
    {
        let children: Vec<VariableDataIdx> = vec![a];
        assert(children@ =~= seq![a]);
        self.push_var(children, Op::Pow(exp))
    }

    /// Adds the larger of zero and node `a`.
    pub fn relu_op(&mut self, a: VariableDataIdx) -> (r: VariableDataIdx)
        requires
            old(self).wf(),
            a < old(self)@.len(),
        ensures
            final(self)@ == push_op(old(self)@, seq![a], Op::ReLU),
            final(self)@[r as int].data == (if old(self)@[a as int].data.spec_is_positive() {
                old(self)@[a as int].data
            } else {
                zero()
            }),
            r == old(self)@.len(),
            final(self).wf(),
    {
        let children: Vec<VariableDataIdx> = vec![a];
        assert(children@ =~= seq![a]);
        self.push_var(children, Op::ReLU)
    }

    /// Adds `e` raised to node `a`.
    pub fn exp_op(&mut self, a: VariableDataIdx) -> (r: VariableDataIdx)
        requires
            old(self).wf(),
            a < old(self)@.len(),
        ensures
            final(self)@ == push_op(old(self)@, seq![a], Op::Exp),
            final(self)@[r as int].data == old(self)@[a as int].data.spec_exp(),
            r == old(self)@.len(),
            final(self).wf(),
    {
        let children: Vec<VariableDataIdx> = vec![a];
        assert(children@ =~= seq![a]);
        self.push_var(children, Op::Exp)
    }

    /// Adds the natural logarithm of node `a`.
    pub fn log_op(&mut self, a: VariableDataIdx) -> (r: VariableDataIdx)
        requires
            old(self).wf(),
            a < old(self)@.len(),
        ensures
            final(self)@ == push_op(old(self)@, seq![a], Op::Log),
            final(self)@[r as int].data == old(self)@[a as int].data.spec_ln(),
            r == old(self)@.len(),
            final(self).wf(),
    {
        let children: Vec<VariableDataIdx> = vec![a];
        assert(children@ =~= seq![a]);
        self.push_var(children, Op::Log)
    }

    /// Adds the negation of node `a`, as its product with a new leaf of
    /// value minus one. Returns the index of the product.
    pub fn neg_op(&mut self, a: VariableDataIdx) -> (r: VariableDataIdx)
        requires
            old(self).wf(),
            a < old(self)@.len(),
        ensures
            final(self)@ == push_neg(old(self)@, a),
            final(self)@[r as int].data == old(self)@[a as int].data.spec_times(minus_one()),
            r == old(self)@.len() + 1,
            final(self).wf(),
    {
        let minus_one = self.variable(S::from_int(-1)).idx;
        self.mul_op(a, minus_one)
    }

    /// Adds the difference of nodes `a` and `b`, as the sum of `a` and the
    /// negation of `b`. Returns the index of the sum.
    pub fn sub_op(&mut self, a: VariableDataIdx, b: VariableDataIdx) -> (r: VariableDataIdx)
        requires
            old(self).wf(),
            a < old(self)@.len(),
            b < old(self)@.len(),
        ensures
            final(self)@ == push_sub(old(self)@, a, b),
            final(self)@[r as int].data == old(self)@[a as int].data.spec_plus(
                old(self)@[b as int].data.spec_times(minus_one()),
            ),
            r == old(self)@.len() + 2,
            final(self).wf(),
    {
        let neg_b = self.neg_op(b);
        self.add_op(a, neg_b)
    }

    /// Adds the quotient of nodes `a` and `b`, as the product of `a` and
    /// `b` raised to the power minus one. Returns the index of the product.
    pub fn div_op(&mut self, a: VariableDataIdx, b: VariableDataIdx) -> (r: VariableDataIdx)
        requires
            old(self).wf(),
            a < old(self)@.len(),
            b < old(self)@.len(),
        ensures
            final(self)@ == push_div(old(self)@, a, b),
            final(self)@[r as int].data == old(self)@[a as int].data.spec_times(
                old(self)@[b as int].data.spec_powf(minus_one()),
            ),
            r == old(self)@.len() + 1,
            final(self).wf(),
    {
        let b_inv = self.pow_op(b, S::from_int(-1));
        self.mul_op(a, b_inv)
    }

    /// Adds the leaves of a new neuron with `nin` inputs.
    pub fn neuron(&mut self, nin: i16, nonlin: bool) -> (r: crate::nn::Neuron)
        requires
            old(self).wf(),
        ensures
            exists|words: Seq<u64>|
                words.len() == count(nin) && final(self)@ == #[trigger] with_neuron(
                    old(self)@,
                    words,
                    None,
                ),
            r@ == neuron_at(old(self)@.len(), count(nin), nonlin),
            neuron_in(r@, final(self)@.len()),
            final(self).wf(),
    {
        crate::nn::Neuron::new(self, nin, nonlin)
    }

    /// Adds the leaves of a new layer of `nout` neurons with `nin` inputs
    /// each.
    pub fn layer(&mut self, nin: i16, nout: i16, nonlin: bool) -> (r: crate::nn::Layer)
        requires
            old(self).wf(),
        ensures
            fresh_layer(final(self)@, r@, old(self)@.len(), count(nin), count(nout), nonlin, None),
            final(self)@.len() == neuron_base(old(self)@.len(), count(nin), count(nout)),
            extends_graph(old(self)@, final(self)@),
            layer_in(r@, final(self)@.len()),
            final(self).wf(),
    {
        crate::nn::Layer::new(self, nin, nout, nonlin)
    }

    /// Adds the leaves of a new network with `nin` inputs whose layers
    /// have `nouts` outputs.
    pub fn mlp(&mut self, nin: i16, nouts: Vec<i16>) -> (r: crate::nn::MLP)
        requires
            old(self).wf(),
            nouts@.len() > 0,
        ensures
            fresh_mlp(final(self)@, r@, old(self)@.len(), nin, nouts@, false),
            final(self)@.len() == old(self)@.len() + mlp_size(nin, nouts@, nouts@.len()),
            extends_graph(old(self)@, final(self)@),
            mlp_in(r@, final(self)@.len()),
            final(self).wf(),
    {
        crate::nn::MLP::new(self, nin, nouts)
    }

    /// Lets node `a` hand its gradient on: adds to the gradient of each
    /// operand the local derivative times the gradient of `a`, where an
    /// absent gradient counts as zero.
    pub fn backward_single(&mut self, a: VariableDataIdx)
        requires
            old(self).wf(),
            a < old(self)@.len(),
        ensures
            final(self)@ == propagated_node(old(self)@, a),
            same_but_grads(old(self)@, final(self)@),
            final(self).wf(),
    {
        let children_data = self.children_data(&self.vars[a].children);
        let out_grad = match self.vars[a].grad {
            Some(g) => g,
            None => S::from_int(0),
        };
        let op = self.vars[a].op;
        let grads = op.backward(children_data.as_slice(), self.vars[a].data, out_grad);
        let ghost children = old(self)@[a as int].children;
        proof {
            lemma_backward_len(
                op,
                operand_values(old(self)@, children),
                old(self)@[a as int].data,
                out_grad,
            );
            assert(grads@ == local_gradients(old(self)@, a));
        }
        let mut i: usize = 0;
        while i < grads.len()
            invariant
                i <= grads@.len(),
                a < self@.len(),
                grads@.len() == children.len(),
                forall|j: int| 0 <= j < children.len() ==> (#[trigger] children[j]) < self@.len(),
                same_but_grads(old(self)@, self@),
                self@[a as int].children == children,
                distributed(self@, children, grads@, i as nat) == distributed(
                    old(self)@,
                    children,
                    grads@,
                    0,
                ),
            decreases grads@.len() - i,
        {
            let child = self.vars[a].children[i];
            let cur = match self.vars[child].grad {
                Some(g) => g,
                None => S::from_int(0),
            };
            let ghost before = self@;
            self.vars[child].grad = Some(cur.plus(grads[i]));
            proof {
                assert(self@ =~= accumulated(before, child, grads@[i as int]));
            }
            i += 1;
        }
        proof {
            lemma_well_formed_shape(old(self)@, self@);
        }
    }

    /// Lists, after what `topo` holds, the nodes that `v` depends on and
    /// that are not listed yet, each after its operands, `v` last.
    /// `visited` holds the nodes that were reached: those in `topo`, and
    /// those whose operands are still being walked.
    fn build_topo(
        &self,
        v: VariableDataIdx,
        topo: &mut Vec<VariableDataIdx>,
        visited: &mut HashSet<VariableDataIdx>,
    )
        requires
            self.wf(),
            v < self@.len(),
            forall|x: usize| old(topo)@.contains(x) ==> old(visited)@.contains(x),
            forall|x: usize| x <= v && old(visited)@.contains(x) ==> old(topo)@.contains(x),
        ensures
            final(topo)@ == visit(self@, v, old(topo)@),
            forall|x: usize|
                final(visited)@.contains(x) <==> old(visited)@.contains(x) || final(topo)@.contains(
                    x,
                ),
        decreases v,
    {
        broadcast use vstd::std_specs::hash::group_hash_axioms;

        if !visited.contains(&v) {
            visited.insert(v);
            let n: usize = self.vars[v].children.len();
            let mut i: usize = 0;
            while i < n
                invariant
                    i <= n,
                    self.wf(),
                    v < self@.len(),
                    n == self@[v as int].children.len(),
                    visit_operands(self@, v, i as nat, topo@) == visit_operands(
                        self@,
                        v,
                        0,
                        old(topo)@,
                    ),
                    forall|x: usize| x < v && visited@.contains(x) ==> topo@.contains(x),
                    forall|x: usize|
                        visited@.contains(x) <==> old(visited)@.contains(x) || x == v
                            || topo@.contains(x),
                    forall|x: usize| old(topo)@.contains(x) ==> topo@.contains(x),
                decreases n - i,
            {
                let c = self.vars[v].children[i];
                proof {
                    assert(self@[v as int].children[i as int] == c);
                    lemma_visit(self@, c, topo@);
                }
                self.build_topo(c, topo, visited);
                i += 1;
            }
            proof {
                lemma_visit_operands(self@, v, 0, old(topo)@);
            }
            topo.push(v);
            proof {
                assert forall|x: usize|
                    visited@.contains(x) <==> old(visited)@.contains(x) || topo@.contains(
                        x,
                    ) by {
                    let m = visit_operands(self@, v, 0, old(topo)@);
                    assert(topo@ == m.push(v));
                    assert(topo@[m.len() as int] == v);
                    if m.contains(x) {
                        let k = choose|k: int| 0 <= k < m.len() && m[k] == x;
                        assert(topo@[k] == x);
                    }
                    if topo@.contains(x) && x != v {
                        let k = choose|k: int| 0 <= k < topo@.len() && topo@[k] == x;
                        assert(m[k] == x);
                    }
                }
            }
        }
    }

    /// Runs a backward pass from node `idx`: sets its gradient to one and
    /// lets every node it depends on hand its gradient on, in the reverse
    /// of the order in which a depth-first walk from `idx` lists them.
    /// Gradients that are present before the pass are added to.
    pub fn backward(&mut self, idx: VariableDataIdx)
        requires
            old(self).wf(),
            idx < old(self)@.len(),
        ensures
            final(self)@ == backward_pass(old(self)@, idx),
            same_but_grads(old(self)@, final(self)@),
            final(self)@[idx as int].grad == Some(one::<S>()),
            forall|x: usize|
                x < old(self)@.len() ==> ((#[trigger] final(self)@[x as int]).grad is Some
                    <==> old(self)@[x as int].grad is Some || depends_on(old(self)@, idx, x)),
            forall|x: usize|
                x < old(self)@.len() && !depends_on(old(self)@, idx, x) ==> (
                #[trigger] final(self)@[x as int]) == old(self)@[x as int],
            final(self).wf(),
    {
        proof {
            assert forall|x: usize| x < old(self)@.len() implies ((#[trigger] backward_pass(
                old(self)@,
                idx,
            )[x as int]).grad is Some <==> old(self)@[x as int].grad is Some || depends_on(
                old(self)@,
                idx,
                x,
            )) && (!depends_on(old(self)@, idx, x) ==> backward_pass(old(self)@, idx)[x as int]
                == old(self)@[x as int]) by {
                lemma_backward_pass_reach(old(self)@, idx, x);
            }
            lemma_backward_pass_reach(old(self)@, idx, idx);
        }
        let mut topo: Vec<VariableDataIdx> = Vec::new();
        let mut visited: HashSet<VariableDataIdx> = HashSet::new();
        self.build_topo(idx, &mut topo, &mut visited);
        proof {
            lemma_visit(old(self)@, idx, Seq::empty());
            assert(topo@ == topo_order(old(self)@, idx));
            assert forall|j: int| 0 <= j < topo@.len() implies (#[trigger] topo@[j])
                < old(self)@.len() by {
                assert(topo@.contains(topo@[j]));
            }
        }
        self.vars[idx].grad = Some(S::from_int(1));
        proof {
            assert(self@ =~= seeded(old(self)@, idx));
        }
        let mut k: usize = topo.len();
        while k > 0
            invariant
                k <= topo@.len(),
                self.wf(),
                same_but_grads(old(self)@, self@),
                forall|j: int| 0 <= j < topo@.len() ==> (#[trigger] topo@[j]) < self@.len(),
                propagated(self@, topo@, k as nat) == propagated(
                    seeded(old(self)@, idx),
                    topo@,
                    topo@.len(),
                ),
            decreases k,
        {
            k -= 1;
            self.backward_single(topo[k]);
        }
    }

    /// The number of nodes.
    pub fn len(&self) -> (n: usize)
        ensures
            n == self@.len(),
    {
        self.vars.len()
    }

    /// Whether the graph holds no node.
    pub fn is_empty(&self) -> (b: bool)
        ensures
            b == (self@.len() == 0),
    {
        self.vars.is_empty()
    }

    /// The value of node `idx`.
    pub fn data(&self, idx: VariableDataIdx) -> (r: S)
        requires
            idx < self@.len(),
        ensures
            r == self@[idx as int].data,
    {
        self.vars[idx].data
    }

    /// The gradient of node `idx`, or `None` if no backward pass has
    /// reached the node since its gradient was last cleared.
    pub fn grad(&self, idx: VariableDataIdx) -> (r: Option<S>)
        requires
            idx < self@.len(),
        ensures
            r == self@[idx as int].grad,
    {
        self.vars[idx].grad
    }

    /// Replaces the value of node `idx`. Nodes computed from it keep the
    /// values they have.
    pub fn set_data(&mut self, idx: VariableDataIdx, data: S)
        requires
            idx < old(self)@.len(),
        ensures
            final(self)@ == old(self)@.update(
                idx as int,
                (Node { data, ..old(self)@[idx as int] }),
            ),
            old(self).wf() ==> final(self).wf(),
    {
        self.vars[idx].data = data;
        proof {
            if old(self).wf() {
                lemma_well_formed_shape(old(self)@, self@);
            }
        }
    }

    /// Clears the gradient of node `idx`.
    pub fn zero_grad_single(&mut self, idx: VariableDataIdx)
        requires
            idx < old(self)@.len(),
        ensures
            final(self)@ == old(self)@.update(
                idx as int,
                (Node { grad: None, ..old(self)@[idx as int] }),
            ),
            old(self).wf() ==> final(self).wf(),
    {
        self.vars[idx].grad = None;
        proof {
            if old(self).wf() {
                lemma_well_formed_shape(old(self)@, self@);
            }
        }
    }
}

impl<S: Scalar> Default for Graph<S> {
    fn default() -> (g: Self)
        ensures
            g@ == Seq::<Node<S>>::empty(),
            g.wf(),
    {
        Self::new()
    }
}

/// A handle to a node: its index, and nothing else. It can be copied
/// freely, and means something only together with the graph it came from.
#[derive(Clone, Copy, Debug)]
pub struct Variable {
    pub idx: VariableDataIdx,
}

impl Variable {
    /// The handle to node `idx`.
    pub fn new(idx: VariableDataIdx) -> (r: Self)
        ensures
            r.idx == idx,
    {
        Variable { idx }
    }

    /// Runs a backward pass from this node.
    pub fn backward<S: Scalar>(self, graph: &mut Graph<S>)
        requires
            old(graph).wf(),
            self.idx < old(graph)@.len(),
        ensures
            final(graph)@ == backward_pass(old(graph)@, self.idx),
            same_but_grads(old(graph)@, final(graph)@),
            final(graph)@[self.idx as int].grad == Some(one::<S>()),
            forall|x: usize|
                x < old(graph)@.len() ==> ((#[trigger] final(graph)@[x as int]).grad is Some
                    <==> old(graph)@[x as int].grad is Some || depends_on(
                    old(graph)@,
                    self.idx,
                    x,
                )),
            forall|x: usize|
                x < old(graph)@.len() && !depends_on(old(graph)@, self.idx, x) ==> (
                #[trigger] final(graph)@[x as int]) == old(graph)@[x as int],
            final(graph).wf(),
    {
        graph.backward(self.idx);
    }

    /// The value of this node.
    pub fn data<S: Scalar>(self, graph: &Graph<S>) -> (r: S)
        requires
            self.idx < graph@.len(),
        ensures
            r == graph@[self.idx as int].data,
    {
        graph.data(self.idx)
    }

    /// The gradient of this node, or `None` if no backward pass has
    /// reached it since its gradient was last cleared.
    pub fn grad<S: Scalar>(self, graph: &Graph<S>) -> (r: Option<S>)
        requires
            self.idx < graph@.len(),
        ensures
            r == graph@[self.idx as int].grad,
    {
        graph.grad(self.idx)
    }

    /// Replaces the value of this node.
    pub fn set_data<S: Scalar>(self, graph: &mut Graph<S>, data: S)
        requires
            self.idx < old(graph)@.len(),
        ensures
            final(graph)@ == old(graph)@.update(
                self.idx as int,
                (Node { data, ..old(graph)@[self.idx as int] }),
            ),
            old(graph).wf() ==> final(graph).wf(),
    {
        graph.set_data(self.idx, data);
    }

    /// Clears the gradient of this node.
    pub fn zero_grad<S: Scalar>(self, graph: &mut Graph<S>)
        requires
            self.idx < old(graph)@.len(),
        ensures
            final(graph)@ == old(graph)@.update(
                self.idx as int,
                (Node { grad: None, ..old(graph)@[self.idx as int] }),
            ),
            old(graph).wf() ==> final(graph).wf(),
    {
        graph.zero_grad_single(self.idx);
    }

    /// Adds this node raised to the power `exp`.
    pub fn pow<S: Scalar>(self, exp: S, graph: &mut Graph<S>) -> (r: Self)
        requires
            old(graph).wf(),
            self.idx < old(graph)@.len(),
        ensures
            final(graph)@ == push_op(old(graph)@, seq![self.idx], Op::Pow(exp)),
            final(graph)@[r.idx as int].data == old(graph)@[self.idx as int].data.spec_powf(exp),
            r.idx == old(graph)@.len(),
            final(graph).wf(),
    {
        let idx = graph.pow_op(self.idx, exp);
        Variable::new(idx)
    }

    /// Adds the larger of zero and this node.
    pub fn relu<S: Scalar>(self, graph: &mut Graph<S>) -> (r: Self)
        requires
            old(graph).wf(),
            self.idx < old(graph)@.len(),
        ensures
            final(graph)@ == push_op(old(graph)@, seq![self.idx], Op::ReLU),
            final(graph)@[r.idx as int].data == (if old(graph)@[self.idx as int].data.spec_is_positive() {
                old(graph)@[self.idx as int].data
            } else {
                zero()
            }),
            r.idx == old(graph)@.len(),
            final(graph).wf(),
    {
        let idx = graph.relu_op(self.idx);
        Variable::new(idx)
    }

    /// Adds `e` raised to this node.
    pub fn exp<S: Scalar>(self, graph: &mut Graph<S>) -> (r: Self)
        requires
            old(graph).wf(),
            self.idx < old(graph)@.len(),
        ensures
            final(graph)@ == push_op(old(graph)@, seq![self.idx], Op::Exp),
            final(graph)@[r.idx as int].data == old(graph)@[self.idx as int].data.spec_exp(),
            r.idx == old(graph)@.len(),
            final(graph).wf(),
    {
        let idx = graph.exp_op(self.idx);
        Variable::new(idx)
    }

    /// Adds the natural logarithm of this node.
    pub fn log<S: Scalar>(self, graph: &mut Graph<S>) -> (r: Self)
        requires
            old(graph).wf(),
            self.idx < old(graph)@.len(),
        ensures
            final(graph)@ == push_op(old(graph)@, seq![self.idx], Op::Log),
            final(graph)@[r.idx as int].data == old(graph)@[self.idx as int].data.spec_ln(),
            r.idx == old(graph)@.len(),
            final(graph).wf(),
    {
        let idx = graph.log_op(self.idx);
        Variable::new(idx)
    }

    /// Adds the sum of this node and `rhs`.
    pub fn add<S: Scalar>(self, rhs: Self, graph: &mut Graph<S>) -> (r: Self)
        requires
            old(graph).wf(),
            self.idx < old(graph)@.len(),
            rhs.idx < old(graph)@.len(),
        ensures
            final(graph)@ == push_op(old(graph)@, seq![self.idx, rhs.idx], Op::Add),
            final(graph)@[r.idx as int].data == old(graph)@[self.idx as int].data.spec_plus(
                old(graph)@[rhs.idx as int].data,
            ),
            r.idx == old(graph)@.len(),
            final(graph).wf(),
    {
        let idx = graph.add_op(self.idx, rhs.idx);
        Variable::new(idx)
    }

    /// Adds the difference of this node and `rhs`.
    pub fn sub<S: Scalar>(self, rhs: Self, graph: &mut Graph<S>) -> (r: Self)
        requires
            old(graph).wf(),
            self.idx < old(graph)@.len(),
            rhs.idx < old(graph)@.len(),
        ensures
            final(graph)@ == push_sub(old(graph)@, self.idx, rhs.idx),
            final(graph)@[r.idx as int].data == old(graph)@[self.idx as int].data.spec_plus(
                old(graph)@[rhs.idx as int].data.spec_times(minus_one()),
            ),
            r.idx == old(graph)@.len() + 2,
            final(graph).wf(),
    {
        let idx = graph.sub_op(self.idx, rhs.idx);
        Variable::new(idx)
    }

    /// Adds the product of this node and `rhs`.
    pub fn mul<S: Scalar>(self, rhs: Self, graph: &mut Graph<S>) -> (r: Self)
        requires
            old(graph).wf(),
            self.idx < old(graph)@.len(),
            rhs.idx < old(graph)@.len(),
        ensures
            final(graph)@ == push_op(old(graph)@, seq![self.idx, rhs.idx], Op::Mul),
            final(graph)@[r.idx as int].data == old(graph)@[self.idx as int].data.spec_times(
                old(graph)@[rhs.idx as int].data,
            ),
            r.idx == old(graph)@.len(),
            final(graph).wf(),
    {
        let idx = graph.mul_op(self.idx, rhs.idx);
        Variable::new(idx)
    }

    /// Adds the quotient of this node and `rhs`.
    pub fn div<S: Scalar>(self, rhs: Self, graph: &mut Graph<S>) -> (r: Self)
        requires
            old(graph).wf(),
            self.idx < old(graph)@.len(),
            rhs.idx < old(graph)@.len(),
        ensures
            final(graph)@ == push_div(old(graph)@, self.idx, rhs.idx),
            final(graph)@[r.idx as int].data == old(graph)@[self.idx as int].data.spec_times(
                old(graph)@[rhs.idx as int].data.spec_powf(minus_one()),
            ),
            r.idx == old(graph)@.len() + 1,
            final(graph).wf(),
    {
        let idx = graph.div_op(self.idx, rhs.idx);
        Variable::new(idx)
    }

    /// Adds the negation of this node.
    pub fn neg<S: Scalar>(self, graph: &mut Graph<S>) -> (r: Self)
        requires
            old(graph).wf(),
            self.idx < old(graph)@.len(),
        ensures
            final(graph)@ == push_neg(old(graph)@, self.idx),
            final(graph)@[r.idx as int].data == old(graph)@[self.idx as int].data.spec_times(minus_one()),
            r.idx == old(graph)@.len() + 1,
            final(graph).wf(),
    {
        let idx = graph.neg_op(self.idx);
        Variable::new(idx)
    }
}

} // verus!
