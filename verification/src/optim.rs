//! Gradient descent on the values of chosen nodes.
use vstd::prelude::*;
use crate::graph::{Graph, Node, Variable};
use crate::pass::grad_or_zero;
use crate::scalar::Scalar;
use crate::softmax::handles_in;

verus! {

/// `nodes` after one step of descent on node `p`: its value less `lr`
/// times its gradient, where an absent gradient counts as zero.
pub open spec fn descended<S: Scalar>(nodes: Seq<Node<S>>, p: usize, lr: S) -> Seq<Node<S>> {
    let node = nodes[p as int];
    nodes.update(
        p as int,
        Node { data: node.data.spec_minus(lr.spec_times(grad_or_zero(node))), ..node },
    )
}

/// `nodes` after one step of descent on each of the parameters from the
/// `k`-th on, in order. A node that is listed twice takes two steps.
pub open spec fn descent_from<S: Scalar>(
    nodes: Seq<Node<S>>,
    parameters: Seq<Variable>,
    lr: S,
    k: nat,
) -> Seq<Node<S>>
    decreases parameters.len() - k,
{
    if k < parameters.len() {
        descent_from(descended(nodes, parameters[k as int].idx, lr), parameters, lr, k + 1)
    } else {
        nodes
    }
}

/// A descent changes the values of the parameters and nothing else: the
/// graph keeps its size, and every node its gradient, operands and kind;
/// a node that is no parameter keeps its value too.
pub proof fn lemma_descent_frame<S: Scalar>(
    nodes: Seq<Node<S>>,
    parameters: Seq<Variable>,
    lr: S,
    k: nat,
)
    requires
        handles_in(parameters, nodes.len()),
    ensures
        descent_from(nodes, parameters, lr, k).len() == nodes.len(),
        forall|i: int|
            0 <= i < nodes.len() ==> {
                let after = #[trigger] descent_from(nodes, parameters, lr, k)[i];
                &&& after.grad == nodes[i].grad
                &&& after.children == nodes[i].children
                &&& after.op == nodes[i].op
                &&& (forall|j: int| k <= j < parameters.len() ==> parameters[j].idx != i)
                    ==> after.data == nodes[i].data
            },
    decreases parameters.len() - k,
{
    if k < parameters.len() {
        let next = descended(nodes, parameters[k as int].idx, lr);
        lemma_descent_frame(next, parameters, lr, k + 1);
        assert forall|i: int| 0 <= i < nodes.len() implies {
            let after = #[trigger] descent_from(nodes, parameters, lr, k)[i];
            &&& after.grad == nodes[i].grad
            &&& after.children == nodes[i].children
            &&& after.op == nodes[i].op
            &&& (forall|j: int| k <= j < parameters.len() ==> parameters[j].idx != i)
                ==> after.data == nodes[i].data
        } by {
            let after = descent_from(next, parameters, lr, k + 1)[i];
            assert(after.grad == next[i].grad);
        }
    }
}

/// A parameter that is listed once takes one step: its value becomes the
/// old value less `lr` times its gradient.
pub proof fn lemma_descent_once<S: Scalar>(
    nodes: Seq<Node<S>>,
    parameters: Seq<Variable>,
    lr: S,
    j: int,
)
    requires
        handles_in(parameters, nodes.len()),
        0 <= j < parameters.len(),
        forall|i: int| 0 <= i < parameters.len() && i != j ==> parameters[i].idx != parameters[j].idx,
    ensures
        descent_from(nodes, parameters, lr, 0)[parameters[j].idx as int].data == nodes[parameters[j].idx as int].data.spec_minus(
            lr.spec_times(grad_or_zero(nodes[parameters[j].idx as int])),
        ),
{
    lemma_descent_once_from(nodes, parameters, lr, j, 0);
}

/// A parameter that is listed once from the `k`-th entry on takes one
/// step from there.
proof fn lemma_descent_once_from<S: Scalar>(
    nodes: Seq<Node<S>>,
    parameters: Seq<Variable>,
    lr: S,
    j: int,
    k: nat,
)
    requires
        handles_in(parameters, nodes.len()),
        k <= j < parameters.len(),
        forall|i: int| 0 <= i < parameters.len() && i != j ==> parameters[i].idx != parameters[j].idx,
    ensures
        descent_from(nodes, parameters, lr, k)[parameters[j].idx as int].data == nodes[parameters[j].idx as int].data.spec_minus(
            lr.spec_times(grad_or_zero(nodes[parameters[j].idx as int])),
        ),
    decreases parameters.len() - k,
{
    let p = parameters[j].idx;
    let next = descended(nodes, parameters[k as int].idx, lr);
    if k == j {
        lemma_descent_frame(next, parameters, lr, k + 1);
        let after = descent_from(next, parameters, lr, k + 1)[p as int];
        assert(after.data == next[p as int].data);
    } else {
        lemma_descent_once_from(next, parameters, lr, j, k + 1);
    }
}

/// Takes one step of descent on each of `parameters`, in order: the value
/// of each becomes its value less `lr` times its gradient.
pub fn stochastic_gradiant_descent<S: Scalar>(
    graph: &mut Graph<S>,
    parameters: &[Variable],
    lr: S,
)
    requires
        old(graph).wf(),
        handles_in(parameters@, old(graph)@.len()),
    ensures
        final(graph)@ == descent_from(old(graph)@, parameters@, lr, 0),
        final(graph)@.len() == old(graph)@.len(),
        forall|i: int|
            0 <= i < old(graph)@.len() ==> {
                let after = #[trigger] final(graph)@[i];
                &&& after.grad == old(graph)@[i].grad
                &&& after.children == old(graph)@[i].children
                &&& after.op == old(graph)@[i].op
                &&& (forall|j: int| 0 <= j < parameters@.len() ==> parameters@[j].idx != i)
                    ==> after.data == old(graph)@[i].data
            },
        final(graph).wf(),
{
    proof {
        lemma_descent_frame(old(graph)@, parameters@, lr, 0);
    }
    let mut k: usize = 0;
    while k < parameters.len()
        invariant
            k <= parameters@.len(),
            graph.wf(),
            graph@.len() == old(graph)@.len(),
            handles_in(parameters@, old(graph)@.len()),
            descent_from(graph@, parameters@, lr, k as nat) == descent_from(
                old(graph)@,
                parameters@,
                lr,
                0,
            ),
        decreases parameters@.len() - k,
    {
        let p = parameters[k];
        let grad = match p.grad(graph) {
            Some(g) => g,
            None => S::from_int(0),
        };
        let data = p.data(graph);
        p.set_data(graph, data.minus(lr.times(grad)));
        k += 1;
    }
}

} // verus!
