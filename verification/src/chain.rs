//! Why the order of a backward pass is the right one.
//!
//! A node may be an operand of several nodes, and its gradient is the sum
//! of what each of them hands to it. A pass is correct only if a node
//! hands its own gradient on after that sum is complete. The laws below
//! state this: which nodes a pass touches, which gradients are present
//! afterwards, and that every gradient a pass leaves is the sum, over the
//! edges into the node, of what the node at the other end hands on from
//! the gradient that it has at the end of the pass.
use vstd::prelude::*;
use crate::graph::{operand_values, same_but_grads, well_formed, Node};
use crate::order::{
    depends_on, lemma_topo_order, lemma_visit, listed_before, operands_first, topo_order,
};
use crate::pass::{
    accumulated, backward_pass, distributed, grad_or_zero, lemma_backward_len,
    lemma_propagated_node_shape, lemma_propagated_shape, local_gradients, propagated,
    propagated_node, seeded,
};
use crate::scalar::Scalar;

verus! {

/// Whether node `x` is an operand of one of the first `k` nodes of
/// `order`.
pub open spec fn fed_by<S>(nodes: Seq<Node<S>>, order: Seq<usize>, k: nat, x: usize) -> bool {
    exists|q: int, j: int|
        0 <= q < k && q < order.len() && 0 <= j < nodes[order[q] as int].children.len()
            && #[trigger] nodes[order[q] as int].children[j] == x
}

/// The gradient that a node has after the gradients `grads[j]`,
/// `grads[j + 1]`, ... were handed to the operands `children[j]`,
/// `children[j + 1]`, ..., if it had `acc` before: each gradient whose
/// operand is `x` is added, in order.
pub open spec fn collected<S: Scalar>(
    children: Seq<usize>,
    grads: Seq<S>,
    x: usize,
    j: nat,
    acc: Option<S>,
) -> Option<S>
    decreases grads.len() - j,
{
    if j < grads.len() {
        let next = if children[j as int] == x {
            Some(
                (match acc {
                    Some(g) => g,
                    None => crate::scalar::zero(),
                }).spec_plus(grads[j as int]),
            )
        } else {
            acc
        };
        collected(children, grads, x, j + 1, next)
    } else {
        acc
    }
}

/// The gradient that node `x` has after the first `k` nodes of `order`
/// handed on, the last of them first, what they hand on in the graph
/// `nodes`, if `x` had `acc` before.
pub open spec fn received<S: Scalar>(
    nodes: Seq<Node<S>>,
    order: Seq<usize>,
    x: usize,
    k: nat,
    acc: Option<S>,
) -> Option<S>
    decreases k,
{
    if k == 0 {
        acc
    } else {
        let p = order[k - 1];
        received(
            nodes,
            order,
            x,
            (k - 1) as nat,
            collected(nodes[p as int].children, local_gradients(nodes, p), x, 0, acc),
        )
    }
}

/// What handing gradients to operands does to one node: its gradient
/// collects what was handed to it, and nothing else about it changes.
pub proof fn lemma_distributed_node<S: Scalar>(
    nodes: Seq<Node<S>>,
    children: Seq<usize>,
    grads: Seq<S>,
    j: nat,
    x: usize,
)
    requires
        x < nodes.len(),
        grads.len() <= children.len(),
        forall|i: int| 0 <= i < children.len() ==> (#[trigger] children[i]) < nodes.len(),
    ensures
        distributed(nodes, children, grads, j).len() == nodes.len(),
        distributed(nodes, children, grads, j)[x as int].grad == collected(
            children,
            grads,
            x,
            j,
            nodes[x as int].grad,
        ),
    decreases grads.len() - j,
{
    if j < grads.len() {
        let next = accumulated(nodes, children[j as int], grads[j as int]);
        lemma_distributed_node(next, children, grads, j + 1, x);
    }
}

/// What was collected is what there was, unless something was handed to
/// the node; and it is present if it was present or something was handed
/// to the node.
pub proof fn lemma_collected<S: Scalar>(
    children: Seq<usize>,
    grads: Seq<S>,
    x: usize,
    j: nat,
    acc: Option<S>,
)
    requires
        grads.len() == children.len(),
    ensures
        (forall|i: int| j <= i < children.len() ==> children[i] != x) ==> collected(
            children,
            grads,
            x,
            j,
            acc,
        ) == acc,
        collected(children, grads, x, j, acc) is Some <==> acc is Some || exists|i: int|
            j <= i < children.len() && #[trigger] children[i] == x,
    decreases grads.len() - j,
{
    if j < grads.len() {
        let next = if children[j as int] == x {
            Some(
                (match acc {
                    Some(g) => g,
                    None => crate::scalar::zero(),
                }).spec_plus(grads[j as int]),
            )
        } else {
            acc
        };
        lemma_collected(children, grads, x, j + 1, next);
        if children[j as int] == x {
            assert(j <= j < children.len() && children[j as int] == x);
        }
    }
}

/// Two graphs that differ in gradients only feed the same nodes.
pub proof fn lemma_fed_by_shape<S>(
    a: Seq<Node<S>>,
    b: Seq<Node<S>>,
    order: Seq<usize>,
    k: nat,
    x: usize,
)
    requires
        same_but_grads(a, b),
        forall|q: int| 0 <= q < order.len() ==> (#[trigger] order[q]) < a.len(),
    ensures
        fed_by(a, order, k, x) == fed_by(b, order, k, x),
{
    if fed_by(a, order, k, x) {
        let (q, j) = choose|q: int, j: int|
            0 <= q < k && q < order.len() && 0 <= j < a[order[q] as int].children.len()
                && #[trigger] a[order[q] as int].children[j] == x;
        assert(a[order[q] as int].children == b[order[q] as int].children);
        assert(b[order[q] as int].children[j] == x);
    }
    if fed_by(b, order, k, x) {
        let (q, j) = choose|q: int, j: int|
            0 <= q < k && q < order.len() && 0 <= j < b[order[q] as int].children.len()
                && #[trigger] b[order[q] as int].children[j] == x;
        assert(a[order[q] as int].children == b[order[q] as int].children);
        assert(a[order[q] as int].children[j] == x);
    }
}

/// When the first `k` nodes of a list hand on, a node that is an operand
/// of none of them stays what it is, and a gradient is present afterwards
/// if and only if it was present or the node is an operand of one of them.
pub proof fn lemma_propagated_touches<S: Scalar>(
    nodes: Seq<Node<S>>,
    order: Seq<usize>,
    k: nat,
    x: usize,
)
    requires
        well_formed(nodes),
        k <= order.len(),
        forall|q: int| 0 <= q < order.len() ==> (#[trigger] order[q]) < nodes.len(),
        x < nodes.len(),
    ensures
        !fed_by(nodes, order, k, x) ==> propagated(nodes, order, k)[x as int] == nodes[x as int],
        propagated(nodes, order, k)[x as int].grad is Some <==> nodes[x as int].grad is Some
            || fed_by(nodes, order, k, x),
    decreases k,
{
    if k > 0 {
        let p = order[k - 1];
        let node = nodes[p as int];
        let grads = local_gradients(nodes, p);
        let next = propagated_node(nodes, p);
        lemma_backward_len(
            node.op,
            operand_values(nodes, node.children),
            node.data,
            grad_or_zero(node),
        );
        assert forall|i: int| 0 <= i < node.children.len() implies (#[trigger] node.children[i])
            < nodes.len() by {}
        lemma_distributed_node(nodes, node.children, grads, 0, x);
        lemma_collected(node.children, grads, x, 0, nodes[x as int].grad);
        lemma_propagated_node_shape(nodes, p);
        lemma_propagated_touches(next, order, (k - 1) as nat, x);
        lemma_fed_by_shape(nodes, next, order, (k - 1) as nat, x);

        let here = exists|i: int| 0 <= i < node.children.len() && #[trigger] node.children[i] == x;
        assert(fed_by(nodes, order, k, x) <==> fed_by(nodes, order, (k - 1) as nat, x) || here) by {
            if fed_by(nodes, order, k, x) {
                let (q, j) = choose|q: int, j: int|
                    0 <= q < k && q < order.len() && 0 <= j < nodes[order[q] as int].children.len()
                        && #[trigger] nodes[order[q] as int].children[j] == x;
                if q == k - 1 {
                    assert(node.children[j] == x);
                } else {
                    assert(0 <= q < k - 1 && nodes[order[q] as int].children[j] == x);
                }
            }
            if fed_by(nodes, order, (k - 1) as nat, x) {
                let (q, j) = choose|q: int, j: int|
                    0 <= q < k - 1 && q < order.len() && 0 <= j
                        < nodes[order[q] as int].children.len()
                        && #[trigger] nodes[order[q] as int].children[j] == x;
                assert(0 <= q < k && nodes[order[q] as int].children[j] == x);
            }
            if here {
                let i = choose|i: int|
                    0 <= i < node.children.len() && #[trigger] node.children[i] == x;
                assert(nodes[order[k - 1] as int].children[i] == x);
            }
        }
        if !fed_by(nodes, order, k, x) {
            assert(next[x as int].grad == nodes[x as int].grad);
            assert(next[x as int].data == nodes[x as int].data);
            assert(next[x as int].children == nodes[x as int].children);
            assert(next[x as int].op == nodes[x as int].op);
        }
    }
}

/// In a list in which every node comes once and after its operands, a
/// node is no operand of itself or of a node before it.
pub proof fn lemma_not_fed_by_earlier<S>(nodes: Seq<Node<S>>, order: Seq<usize>, k: nat)
    requires
        0 < k <= order.len(),
        order.no_duplicates(),
        operands_first(nodes, order),
    ensures
        !fed_by(nodes, order, k, order[k - 1]),
{
    if fed_by(nodes, order, k, order[k - 1]) {
        let (q, j) = choose|q: int, j: int|
            0 <= q < k && q < order.len() && 0 <= j < nodes[order[q] as int].children.len()
                && #[trigger] nodes[order[q] as int].children[j] == order[k - 1];
        assert(listed_before(order, q, nodes[order[q] as int].children[j]));
        let last = order[k - 1];
        let r = choose|r: int| 0 <= r < q && r < order.len() && #[trigger] order[r] == last;
        assert(r != k - 1);
    }
}

/// Two graphs that differ in gradients only keep every node after its
/// operands in the same lists.
pub proof fn lemma_operands_first_shape<S>(a: Seq<Node<S>>, b: Seq<Node<S>>, order: Seq<usize>)
    requires
        same_but_grads(a, b),
        operands_first(a, order),
        forall|q: int| 0 <= q < order.len() ==> (#[trigger] order[q]) < a.len(),
    ensures
        operands_first(b, order),
{
    assert forall|p: int, j: int|
        0 <= p < order.len() && 0 <= j < b[order[p] as int].children.len() implies listed_before(
        order,
        p,
        #[trigger] b[order[p] as int].children[j],
    ) by {
        assert(a[order[p] as int].children == b[order[p] as int].children);
        assert(listed_before(order, p, a[order[p] as int].children[j]));
    }
}

/// What a node hands on depends on its gradient and on values, operands
/// and kinds: two graphs that agree on these hand on the same.
pub proof fn lemma_local_gradients_shape<S: Scalar>(a: Seq<Node<S>>, b: Seq<Node<S>>, p: usize)
    requires
        well_formed(a),
        same_but_grads(a, b),
        p < a.len(),
        a[p as int].grad == b[p as int].grad,
    ensures
        local_gradients(a, p) == local_gradients(b, p),
{
    let node = a[p as int];
    assert(node.children == b[p as int].children);
    assert forall|j: int| 0 <= j < node.children.len() implies a[node.children[j] as int].data
        == b[node.children[j] as int].data by {
        assert(node.children[j] < p);
        let c = node.children[j] as int;
        assert(a[c].data == b[c].data);
    }
    assert(operand_values(a, node.children) =~= operand_values(b, node.children));
}

/// The gradients that a run of nodes leaves are sums over edges: when the
/// first `k` nodes of a list hand on, in a list in which every node comes
/// once and after its operands, every node ends with the gradient that it
/// had, plus what each edge into it carries; and what an edge carries is
/// computed from the gradient that the node at its other end has at the
/// end: that gradient was complete when the node handed on.
pub proof fn lemma_propagated_sums<S: Scalar>(
    nodes: Seq<Node<S>>,
    order: Seq<usize>,
    k: nat,
    x: usize,
)
    requires
        well_formed(nodes),
        k <= order.len(),
        order.no_duplicates(),
        operands_first(nodes, order),
        forall|q: int| 0 <= q < order.len() ==> (#[trigger] order[q]) < nodes.len(),
        x < nodes.len(),
    ensures
        propagated(nodes, order, k)[x as int].grad == received(
            propagated(nodes, order, k),
            order,
            x,
            k,
            nodes[x as int].grad,
        ),
    decreases k,
{
    if k > 0 {
        let p = order[k - 1];
        let node = nodes[p as int];
        let grads = local_gradients(nodes, p);
        let next = propagated_node(nodes, p);
        let last = propagated(nodes, order, k);
        assert(last == propagated(next, order, (k - 1) as nat));

        lemma_propagated_node_shape(nodes, p);
        lemma_operands_first_shape(nodes, next, order);
        lemma_propagated_sums(next, order, (k - 1) as nat, x);

        // the node that hands on is not touched by the rest of the run
        lemma_not_fed_by_earlier(nodes, order, k);
        lemma_propagated_touches(nodes, order, k, p);
        lemma_propagated_shape(nodes, order, k);
        lemma_local_gradients_shape(nodes, last, p);

        lemma_backward_len(
            node.op,
            operand_values(nodes, node.children),
            node.data,
            grad_or_zero(node),
        );
        assert forall|i: int| 0 <= i < node.children.len() implies (#[trigger] node.children[i])
            < nodes.len() by {}
        lemma_distributed_node(nodes, node.children, grads, 0, x);
        assert(last[p as int].children == node.children);
    }
}

/// A node that depends on another one, and is not that node, has a node
/// that it depends on and that has the other one as an operand.
pub proof fn lemma_depends_through_parent<S>(nodes: Seq<Node<S>>, a: usize, x: usize) -> (r: (
    usize,
    int,
))
    requires
        depends_on(nodes, a, x),
        a != x,
    ensures
        depends_on(nodes, a, r.0),
        r.0 < nodes.len(),
        0 <= r.1 < nodes[r.0 as int].children.len(),
        nodes[r.0 as int].children[r.1] == x,
        x < r.0,
    decreases a,
{
    let j = choose|j: int|
        0 <= j < nodes[a as int].children.len() && (#[trigger] nodes[a as int].children[j]) < a
            && depends_on(nodes, nodes[a as int].children[j], x);
    let c = nodes[a as int].children[j];
    if c == x {
        (a, j)
    } else {
        let r = lemma_depends_through_parent(nodes, c, x);
        lemma_depends_step(nodes, a, j, r.0);
        r
    }
}

/// A node depends on what its operands depend on.
pub proof fn lemma_depends_step<S>(nodes: Seq<Node<S>>, a: usize, j: int, b: usize)
    requires
        a < nodes.len(),
        0 <= j < nodes[a as int].children.len(),
        nodes[a as int].children[j] < a,
        depends_on(nodes, nodes[a as int].children[j], b),
    ensures
        depends_on(nodes, a, b),
{
    let c = nodes[a as int].children[j];
}

/// Dependence goes through: a node depends on what the nodes it depends
/// on depend on.
pub proof fn lemma_depends_transitive<S>(nodes: Seq<Node<S>>, a: usize, b: usize, c: usize)
    requires
        depends_on(nodes, a, b),
        depends_on(nodes, b, c),
    ensures
        depends_on(nodes, a, c),
    decreases a,
{
    if a != b {
        let j = choose|j: int|
            0 <= j < nodes[a as int].children.len() && (#[trigger] nodes[a as int].children[j]) < a
                && depends_on(nodes, nodes[a as int].children[j], b);
        lemma_depends_transitive(nodes, nodes[a as int].children[j], b, c);
        lemma_depends_step(nodes, a, j, c);
    }
}

/// A backward pass touches the nodes that the root depends on and no
/// others: every other node stays what it is, and afterwards a gradient
/// is present if and only if it was present before or the root depends
/// on the node.
pub proof fn lemma_backward_pass_reach<S: Scalar>(nodes: Seq<Node<S>>, root: usize, x: usize)
    requires
        well_formed(nodes),
        root < nodes.len(),
        x < nodes.len(),
    ensures
        !depends_on(nodes, root, x) ==> backward_pass(nodes, root)[x as int] == nodes[x as int],
        backward_pass(nodes, root)[x as int].grad is Some <==> nodes[x as int].grad is Some
            || depends_on(nodes, root, x),
        backward_pass(nodes, root)[root as int].grad == Some(crate::scalar::one::<S>()),
{
    let order = topo_order(nodes, root);
    let start = seeded(nodes, root);
    lemma_topo_order(nodes, root);
    lemma_visit(nodes, root, Seq::empty());
    assert forall|q: int| 0 <= q < order.len() implies (#[trigger] order[q]) < nodes.len() by {
        assert(order.contains(order[q]));
    }
    crate::graph::lemma_well_formed_shape(nodes, start);
    lemma_propagated_touches(start, order, order.len(), x);
    lemma_fed_by_shape(nodes, start, order, order.len(), x);
    lemma_operands_first_shape(nodes, start, order);

    // the root is an operand of no node that it depends on
    lemma_propagated_touches(start, order, order.len(), root);
    assert(order[order.len() - 1] == root);
    lemma_not_fed_by_earlier(start, order, order.len());

    if fed_by(nodes, order, order.len(), x) {
        let (q, j) = choose|q: int, j: int|
            0 <= q < order.len() && q < order.len() && 0 <= j
                < nodes[order[q] as int].children.len()
                && #[trigger] nodes[order[q] as int].children[j] == x;
        assert(order.contains(order[q]));
        assert(depends_on(nodes, root, order[q]));
        assert(nodes[order[q] as int].children[j] < order[q]);
        assert(depends_on(nodes, x, x));
        lemma_depends_step(nodes, order[q], j, x);
        lemma_depends_transitive(nodes, root, order[q], x);
    }
    if depends_on(nodes, root, x) && x != root {
        let r = lemma_depends_through_parent(nodes, root, x);
        assert(order.contains(r.0));
        let q = choose|q: int| 0 <= q < order.len() && order[q] == r.0;
        assert(nodes[order[q] as int].children[r.1] == x);
        assert(fed_by(nodes, order, order.len(), x));
    }
}

/// The gradients that a backward pass leaves are sums over edges. Every
/// node ends with the gradient that it had before the pass (one, for the
/// root), plus what each edge into it from a node that the root depends
/// on carries, the edges taken in the order of the pass; and what an edge
/// carries is the local derivative at its upper end times the gradient
/// that the upper end has at the end of the pass.
pub proof fn lemma_backward_pass_sums<S: Scalar>(nodes: Seq<Node<S>>, root: usize, x: usize)
    requires
        well_formed(nodes),
        root < nodes.len(),
        x < nodes.len(),
    ensures
        backward_pass(nodes, root)[x as int].grad == received(
            backward_pass(nodes, root),
            topo_order(nodes, root),
            x,
            topo_order(nodes, root).len(),
            seeded(nodes, root)[x as int].grad,
        ),
{
    let order = topo_order(nodes, root);
    let start = seeded(nodes, root);
    lemma_topo_order(nodes, root);
    lemma_visit(nodes, root, Seq::empty());
    assert forall|q: int| 0 <= q < order.len() implies (#[trigger] order[q]) < nodes.len() by {
        assert(order.contains(order[q]));
    }
    crate::graph::lemma_well_formed_shape(nodes, start);
    lemma_operands_first_shape(nodes, start, order);
    lemma_propagated_sums(start, order, order.len(), x);
}

} // verus!
