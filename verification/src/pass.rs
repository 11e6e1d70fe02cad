//! What a backward pass does to the gradients of a graph.
use vstd::prelude::*;
use crate::graph::{cleared, operand_values, same_but_grads, well_formed, Node};
use crate::op::Op;
use crate::order::{lemma_visit, topo_order};
use crate::scalar::{one, zero, Scalar};

verus! {

/// The gradient of a node, with zero for a gradient that is absent.
pub open spec fn grad_or_zero<S: Scalar>(node: Node<S>) -> S {
    match node.grad {
        Some(g) => g,
        None => zero(),
    }
}

/// `nodes` with the gradient of `root` set to one.
pub open spec fn seeded<S: Scalar>(nodes: Seq<Node<S>>, root: usize) -> Seq<Node<S>> {
    nodes.update(root as int, Node { grad: Some(one()), ..nodes[root as int] })
}

/// `nodes` with `g` added to the gradient of node `c`. An absent gradient
/// counts as zero, and is present afterwards.
pub open spec fn accumulated<S: Scalar>(nodes: Seq<Node<S>>, c: usize, g: S) -> Seq<Node<S>> {
    nodes.update(
        c as int,
        Node { grad: Some(grad_or_zero(nodes[c as int]).spec_plus(g)), ..nodes[c as int] },
    )
}

/// What node `v` adds to the gradient of each of its operands, given the
/// gradient that `v` has now.
pub open spec fn local_gradients<S: Scalar>(nodes: Seq<Node<S>>, v: usize) -> Seq<S> {
    let node = nodes[v as int];
    node.op.spec_backward(operand_values(nodes, node.children), node.data, grad_or_zero(node))
}

/// `nodes` after `grads[i]`, `grads[i + 1]`, ... have been added, in this
/// order, to the gradients of `children[i]`, `children[i + 1]`, ...
pub open spec fn distributed<S: Scalar>(
    nodes: Seq<Node<S>>,
    children: Seq<usize>,
    grads: Seq<S>,
    i: nat,
) -> Seq<Node<S>>
    decreases grads.len() - i,
{
    if i < grads.len() {
        distributed(accumulated(nodes, children[i as int], grads[i as int]), children, grads, i + 1)
    } else {
        nodes
    }
}

/// `nodes` after node `v` has handed its gradient on to its operands.
pub open spec fn propagated_node<S: Scalar>(nodes: Seq<Node<S>>, v: usize) -> Seq<Node<S>> {
    distributed(nodes, nodes[v as int].children, local_gradients(nodes, v), 0)
}

/// `nodes` after the first `k` nodes of `order` have handed their
/// gradients on, the last of them first.
pub open spec fn propagated<S: Scalar>(nodes: Seq<Node<S>>, order: Seq<usize>, k: nat) -> Seq<
    Node<S>,
>
    decreases k,
{
    if k == 0 {
        nodes
    } else {
        propagated(propagated_node(nodes, order[k - 1]), order, (k - 1) as nat)
    }
}

/// `nodes` after a backward pass from `root`: the gradient of `root` is
/// set to one, and then every node that `root` depends on hands its
/// gradient on to its operands, `root` first, each node after all the
/// nodes that depend on it.
pub open spec fn backward_pass<S: Scalar>(nodes: Seq<Node<S>>, root: usize) -> Seq<Node<S>> {
    let order = topo_order(nodes, root);
    propagated(seeded(nodes, root), order, order.len())
}

/// A node of a kind hands on one gradient to each operand.
pub proof fn lemma_backward_len<S: Scalar>(op: Op<S>, xs: Seq<S>, out: S, g: S)
    ensures
        op.spec_backward(xs, out, g).len() == op.arity(),
{
}

/// Handing gradients to operands that are in the graph changes gradients
/// only.
pub proof fn lemma_distributed_shape<S: Scalar>(
    nodes: Seq<Node<S>>,
    children: Seq<usize>,
    grads: Seq<S>,
    i: nat,
)
    requires
        grads.len() <= children.len(),
        forall|j: int| 0 <= j < children.len() ==> (#[trigger] children[j]) < nodes.len(),
    ensures
        same_but_grads(nodes, distributed(nodes, children, grads, i)),
    decreases grads.len() - i,
{
    if i < grads.len() {
        let next = accumulated(nodes, children[i as int], grads[i as int]);
        lemma_distributed_shape(next, children, grads, i + 1);
        let last = distributed(next, children, grads, i + 1);
        assert forall|k: int| 0 <= k < nodes.len() implies {
            &&& (#[trigger] nodes[k]).data == last[k].data
            &&& nodes[k].children == last[k].children
            &&& nodes[k].op == last[k].op
        } by {
            assert(next[k].data == last[k].data);
        }
    }
}

/// A node that hands its gradient on changes gradients only.
pub proof fn lemma_propagated_node_shape<S: Scalar>(nodes: Seq<Node<S>>, v: usize)
    requires
        well_formed(nodes),
        v < nodes.len(),
    ensures
        same_but_grads(nodes, propagated_node(nodes, v)),
        well_formed(propagated_node(nodes, v)),
{
    let node = nodes[v as int];
    lemma_backward_len(
        node.op,
        operand_values(nodes, node.children),
        node.data,
        grad_or_zero(node),
    );
    assert forall|j: int| 0 <= j < node.children.len() implies (#[trigger] node.children[j])
        < nodes.len() by {}
    lemma_distributed_shape(nodes, node.children, local_gradients(nodes, v), 0);
    crate::graph::lemma_well_formed_shape(nodes, propagated_node(nodes, v));
}

/// Nodes of the graph that hand their gradients on, one after the other,
/// change gradients only.
pub proof fn lemma_propagated_shape<S: Scalar>(nodes: Seq<Node<S>>, order: Seq<usize>, k: nat)
    requires
        well_formed(nodes),
        k <= order.len(),
        forall|j: int| 0 <= j < order.len() ==> (#[trigger] order[j]) < nodes.len(),
    ensures
        same_but_grads(nodes, propagated(nodes, order, k)),
        well_formed(propagated(nodes, order, k)),
    decreases k,
{
    if k > 0 {
        let next = propagated_node(nodes, order[k - 1]);
        lemma_propagated_node_shape(nodes, order[k - 1]);
        lemma_propagated_shape(next, order, (k - 1) as nat);
        let last = propagated(next, order, (k - 1) as nat);
        assert forall|i: int| 0 <= i < nodes.len() implies {
            &&& (#[trigger] nodes[i]).data == last[i].data
            &&& nodes[i].children == last[i].children
            &&& nodes[i].op == last[i].op
        } by {
            assert(next[i].data == last[i].data);
        }
    }
}

/// A backward pass changes gradients only: every node keeps its value,
/// its operands and its kind, and the graph stays well formed.
pub proof fn lemma_backward_pass_shape<S: Scalar>(nodes: Seq<Node<S>>, root: usize)
    requires
        well_formed(nodes),
        root < nodes.len(),
    ensures
        same_but_grads(nodes, backward_pass(nodes, root)),
        well_formed(backward_pass(nodes, root)),
{
    let order = topo_order(nodes, root);
    let start = seeded(nodes, root);
    lemma_visit(nodes, root, Seq::empty());
    assert forall|j: int| 0 <= j < order.len() implies (#[trigger] order[j]) < nodes.len() by {
        assert(order.contains(order[j]));
    }
    crate::graph::lemma_well_formed_shape(nodes, start);
    lemma_propagated_shape(start, order, order.len());
    let last = backward_pass(nodes, root);
    assert forall|i: int| 0 <= i < nodes.len() implies {
        &&& (#[trigger] nodes[i]).data == last[i].data
        &&& nodes[i].children == last[i].children
        &&& nodes[i].op == last[i].op
    } by {
        assert(start[i].data == last[i].data);
    }
}

/// Two graphs that differ in gradients only are the same graph once
/// their gradients are cleared.
pub proof fn lemma_cleared_forgets_gradients<S>(a: Seq<Node<S>>, b: Seq<Node<S>>)
    requires
        same_but_grads(a, b),
    ensures
        cleared(a) == cleared(b),
{
    assert forall|i: int| 0 <= i < a.len() implies cleared(a)[i] == cleared(b)[i] by {
        assert(a[i].data == b[i].data);
    }
    assert(cleared(a) =~= cleared(b));
}

/// A backward pass can be run again: once the gradients are cleared, a
/// pass from the same root gives every node the gradient that it got the
/// first time. Nothing of an earlier pass is carried over.
pub proof fn lemma_backward_pass_repeatable<S: Scalar>(nodes: Seq<Node<S>>, root: usize)
    requires
        well_formed(nodes),
        root < nodes.len(),
    ensures
        backward_pass(cleared(backward_pass(cleared(nodes), root)), root) == backward_pass(
            cleared(nodes),
            root,
        ),
{
    let fresh = cleared(nodes);
    crate::graph::lemma_well_formed_shape(nodes, fresh);
    lemma_backward_pass_shape(fresh, root);
    lemma_cleared_forgets_gradients(fresh, backward_pass(fresh, root));
    assert(cleared(fresh) =~= fresh);
}

/// Gradients that a pass finds in the graph do not matter once they are
/// cleared: clearing after any number of passes gives the graph that
/// clearing at once gives, so the next pass computes the same gradients.
pub proof fn lemma_cleared_after_pass<S: Scalar>(nodes: Seq<Node<S>>, root: usize)
    requires
        well_formed(nodes),
        root < nodes.len(),
    ensures
        cleared(backward_pass(nodes, root)) == cleared(nodes),
{
    lemma_backward_pass_shape(nodes, root);
    lemma_cleared_forgets_gradients(nodes, backward_pass(nodes, root));
}

} // verus!
