//! The order in which a backward pass walks a graph.
//!
//! From a root, the nodes it depends on are listed depth first: a node is
//! listed once, after all of its operands, and the operands are taken from
//! left to right. The backward pass then goes through the list from its
//! end, so that a node hands its gradient on only when everything that
//! contributes to that gradient has arrived.
use vstd::prelude::*;
use crate::graph::{well_formed, Node};
use crate::scalar::Scalar;

verus! {

/// The list `order` after a visit to node `v`. If `v` is listed already,
/// nothing changes. Otherwise the operands of `v` are visited from left to
/// right, and then `v` is put at the end.
pub open spec fn visit<S>(nodes: Seq<Node<S>>, v: usize, order: Seq<usize>) -> Seq<usize>
    decreases v, 1nat, 0nat,
{
    if order.contains(v) {
        order
    } else {
        visit_operands(nodes, v, 0, order).push(v)
    }
}

/// The list `order` after visits to the operands of node `v` from the
/// `i`-th on, from left to right.
pub open spec fn visit_operands<S>(nodes: Seq<Node<S>>, v: usize, i: nat, order: Seq<usize>) -> Seq<
    usize,
>
    decreases v, 0nat, nodes[v as int].children.len() - i,
{
    if v < nodes.len() && i < nodes[v as int].children.len() {
        let c = nodes[v as int].children[i as int];
        let next = if c < v {
            visit(nodes, c, order)
        } else {
            order
        };
        visit_operands(nodes, v, i + 1, next)
    } else {
        order
    }
}

/// The nodes that `root` depends on, `root` included, each after all of
/// its operands: the order of a depth-first walk from `root`.
pub open spec fn topo_order<S>(nodes: Seq<Node<S>>, root: usize) -> Seq<usize> {
    visit(nodes, root, Seq::empty())
}

/// Whether `b` begins with `a`.
pub open spec fn extends(a: Seq<usize>, b: Seq<usize>) -> bool {
    &&& a.len() <= b.len()
    &&& forall|i: int| 0 <= i < a.len() ==> #[trigger] b[i] == a[i]
}

/// A visit to `v` only adds to the end of the list; afterwards `v` is
/// listed, and what was added is `v` or has a smaller index.
pub proof fn lemma_visit<S>(nodes: Seq<Node<S>>, v: usize, order: Seq<usize>)
    ensures
        extends(order, visit(nodes, v, order)),
        visit(nodes, v, order).contains(v),
        forall|x: usize| #[trigger]
            visit(nodes, v, order).contains(x) ==> order.contains(x) || x <= v,
        forall|x: usize| order.contains(x) ==> #[trigger] visit(nodes, v, order).contains(x),
    decreases v, 1nat, 0nat,
{
    let r = visit(nodes, v, order);
    if !order.contains(v) {
        let mid = visit_operands(nodes, v, 0, order);
        lemma_visit_operands(nodes, v, 0, order);
        assert(r == mid.push(v));
        assert(r[mid.len() as int] == v);
        assert forall|x: usize| #[trigger] r.contains(x) implies order.contains(x) || x <= v by {
            let k = choose|k: int| 0 <= k < r.len() && r[k] == x;
            if k < mid.len() {
                assert(mid[k] == x);
                assert(mid.contains(x));
            }
        }
        assert forall|x: usize| order.contains(x) implies #[trigger] r.contains(x) by {
            let k = choose|k: int| 0 <= k < order.len() && order[k] == x;
            assert(mid[k] == x);
            assert(r[k] == x);
        }
    }
}

/// Visits to the operands of `v` only add to the end of the list, and what
/// they add has a smaller index than `v`.
pub proof fn lemma_visit_operands<S>(nodes: Seq<Node<S>>, v: usize, i: nat, order: Seq<usize>)
    ensures
        extends(order, visit_operands(nodes, v, i, order)),
        forall|x: usize| #[trigger]
            visit_operands(nodes, v, i, order).contains(x) ==> order.contains(x) || x < v,
        forall|x: usize|
            order.contains(x) ==> #[trigger] visit_operands(nodes, v, i, order).contains(x),
    decreases v, 0nat, nodes[v as int].children.len() - i,
{
    if v < nodes.len() && i < nodes[v as int].children.len() {
        let c = nodes[v as int].children[i as int];
        let next = if c < v {
            visit(nodes, c, order)
        } else {
            order
        };
        if c < v {
            lemma_visit(nodes, c, order);
        }
        lemma_visit_operands(nodes, v, i + 1, next);
    }
}

/// Whether node `a` depends on node `b`: they are the same node, or an
/// operand of `a` depends on `b`.
pub open spec fn depends_on<S>(nodes: Seq<Node<S>>, a: usize, b: usize) -> bool
    decreases a,
{
    a == b || (a < nodes.len() && exists|j: int|
        0 <= j < nodes[a as int].children.len() && (#[trigger] nodes[a as int].children[j]) < a
            && depends_on(nodes, nodes[a as int].children[j], b))
}

/// Whether `x` is among the first `p` entries of `order`.
pub open spec fn listed_before(order: Seq<usize>, p: int, x: usize) -> bool {
    exists|q: int| 0 <= q < p && q < order.len() && order[q] == x
}

/// Whether every node in `order` comes after all of its operands.
pub open spec fn operands_first<S>(nodes: Seq<Node<S>>, order: Seq<usize>) -> bool {
    forall|p: int, j: int|
        0 <= p < order.len() && 0 <= j < nodes[order[p] as int].children.len()
            ==> listed_before(order, p, #[trigger] nodes[order[p] as int].children[j])
}

/// After visits to the operands of `v` from the `i`-th on, each of them
/// is listed.
proof fn lemma_visit_operands_lists_operands<S: Scalar>(
    nodes: Seq<Node<S>>,
    v: usize,
    i: nat,
    order: Seq<usize>,
)
    requires
        well_formed(nodes),
        v < nodes.len(),
    ensures
        forall|j: int|
            i <= j < nodes[v as int].children.len() ==> visit_operands(nodes, v, i, order).contains(
                #[trigger] nodes[v as int].children[j],
            ),
    decreases nodes[v as int].children.len() - i,
{
    if i < nodes[v as int].children.len() {
        let c = nodes[v as int].children[i as int];
        let next = visit(nodes, c, order);
        lemma_visit(nodes, c, order);
        lemma_visit_operands_lists_operands(nodes, v, i + 1, next);
        lemma_visit_operands(nodes, v, i + 1, next);
    }
}

/// A visit keeps a list free of repetitions.
pub proof fn lemma_visit_no_duplicates<S>(nodes: Seq<Node<S>>, v: usize, order: Seq<usize>)
    requires
        order.no_duplicates(),
    ensures
        visit(nodes, v, order).no_duplicates(),
    decreases v, 1nat, 0nat,
{
    if !order.contains(v) {
        let mid = visit_operands(nodes, v, 0, order);
        lemma_visit_operands_no_duplicates(nodes, v, 0, order);
        lemma_visit_operands(nodes, v, 0, order);
        assert(!mid.contains(v));
    }
}

/// Visits to operands keep a list free of repetitions.
pub proof fn lemma_visit_operands_no_duplicates<S>(
    nodes: Seq<Node<S>>,
    v: usize,
    i: nat,
    order: Seq<usize>,
)
    requires
        order.no_duplicates(),
    ensures
        visit_operands(nodes, v, i, order).no_duplicates(),
    decreases v, 0nat, nodes[v as int].children.len() - i,
{
    if v < nodes.len() && i < nodes[v as int].children.len() {
        let c = nodes[v as int].children[i as int];
        if c < v {
            lemma_visit_no_duplicates(nodes, c, order);
            lemma_visit_operands_no_duplicates(nodes, v, i + 1, visit(nodes, c, order));
        } else {
            lemma_visit_operands_no_duplicates(nodes, v, i + 1, order);
        }
    }
}

/// A list in which every node comes after its operands holds, with a
/// node, every node that it depends on.
pub proof fn lemma_operands_first_closed<S: Scalar>(
    nodes: Seq<Node<S>>,
    order: Seq<usize>,
    a: usize,
    b: usize,
)
    requires
        operands_first(nodes, order),
        order.contains(a),
        depends_on(nodes, a, b),
    ensures
        order.contains(b),
    decreases a,
{
    if a != b {
        let j = choose|j: int|
            0 <= j < nodes[a as int].children.len() && (#[trigger] nodes[a as int].children[j]) < a
                && depends_on(nodes, nodes[a as int].children[j], b);
        let c = nodes[a as int].children[j];
        let p = choose|p: int| 0 <= p < order.len() && order[p] == a;
        assert(listed_before(order, p, nodes[order[p] as int].children[j]));
        lemma_operands_first_closed(nodes, order, c, b);
    }
}

/// A visit to `v` adds exactly the nodes that `v` depends on.
pub proof fn lemma_visit_lists_dependencies<S: Scalar>(
    nodes: Seq<Node<S>>,
    v: usize,
    order: Seq<usize>,
    x: usize,
)
    requires
        well_formed(nodes),
        v < nodes.len(),
        operands_first(nodes, order),
    ensures
        visit(nodes, v, order).contains(x) <==> order.contains(x) || depends_on(nodes, v, x),
    decreases v, 1nat, 0nat,
{
    lemma_visit(nodes, v, order);
    if order.contains(v) {
        if depends_on(nodes, v, x) {
            lemma_operands_first_closed(nodes, order, v, x);
        }
    } else {
        let mid = visit_operands(nodes, v, 0, order);
        let r = mid.push(v);
        lemma_visit_operands_lists_dependencies(nodes, v, 0, order, x);
        if r.contains(x) && x != v {
            let k = choose|k: int| 0 <= k < r.len() && r[k] == x;
            assert(mid[k] == x);
        }
        if mid.contains(x) {
            let k = choose|k: int| 0 <= k < mid.len() && mid[k] == x;
            assert(r[k] == x);
        }
        assert(r[mid.len() as int] == v);
    }
}

/// Visits to the operands of `v` from the `i`-th on add exactly the nodes
/// that these operands depend on.
pub proof fn lemma_visit_operands_lists_dependencies<S: Scalar>(
    nodes: Seq<Node<S>>,
    v: usize,
    i: nat,
    order: Seq<usize>,
    x: usize,
)
    requires
        well_formed(nodes),
        v < nodes.len(),
        operands_first(nodes, order),
    ensures
        visit_operands(nodes, v, i, order).contains(x) <==> order.contains(x) || exists|j: int|
            i <= j < nodes[v as int].children.len() && depends_on(
                nodes,
                #[trigger] nodes[v as int].children[j],
                x,
            ),
    decreases v, 0nat, nodes[v as int].children.len() - i,
{
    let kids = nodes[v as int].children;
    if i < kids.len() {
        let c = kids[i as int];
        let next = visit(nodes, c, order);
        lemma_visit_lists_dependencies(nodes, c, order, x);
        lemma_visit_operands_first(nodes, c, order);
        lemma_visit_operands_lists_dependencies(nodes, v, i + 1, next, x);
        let r = visit_operands(nodes, v, i, order);
        if r.contains(x) && !order.contains(x) {
            if next.contains(x) {
                assert(depends_on(nodes, kids[i as int], x));
            } else {
                let j = choose|j: int|
                    i + 1 <= j < kids.len() && depends_on(nodes, #[trigger] kids[j], x);
                assert(depends_on(nodes, kids[j], x));
            }
        }
        if exists|j: int| i <= j < kids.len() && depends_on(nodes, #[trigger] kids[j], x) {
            let j = choose|j: int| i <= j < kids.len() && depends_on(nodes, #[trigger] kids[j], x);
            if j == i {
                assert(next.contains(x));
            } else {
                assert(i + 1 <= j < kids.len() && depends_on(nodes, kids[j], x));
            }
        }
    }
}

/// A visit keeps every node in the list after its operands.
pub proof fn lemma_visit_operands_first<S: Scalar>(
    nodes: Seq<Node<S>>,
    v: usize,
    order: Seq<usize>,
)
    requires
        well_formed(nodes),
        v < nodes.len(),
        operands_first(nodes, order),
    ensures
        operands_first(nodes, visit(nodes, v, order)),
    decreases v, 1nat, 0nat,
{
    if !order.contains(v) {
        let mid = visit_operands(nodes, v, 0, order);
        let r = mid.push(v);
        lemma_visit_operands_operands_first(nodes, v, 0, order);
        lemma_visit_operands_lists_operands(nodes, v, 0, order);
        assert forall|p: int, j: int|
            0 <= p < r.len() && 0 <= j < nodes[r[p] as int].children.len() implies listed_before(
            r,
            p,
            #[trigger] nodes[r[p] as int].children[j],
        ) by {
            let x = nodes[r[p] as int].children[j];
            if p < mid.len() {
                assert(r[p] == mid[p]);
                assert(listed_before(mid, p, nodes[mid[p] as int].children[j]));
                let q = choose|q: int| 0 <= q < p && q < mid.len() && mid[q] == x;
                assert(r[q] == x);
            } else {
                assert(mid.contains(nodes[v as int].children[j]));
                let q = choose|q: int| 0 <= q < mid.len() && mid[q] == x;
                assert(r[q] == x);
            }
        }
    }
}

/// Visits to operands keep every node in the list after its operands.
pub proof fn lemma_visit_operands_operands_first<S: Scalar>(
    nodes: Seq<Node<S>>,
    v: usize,
    i: nat,
    order: Seq<usize>,
)
    requires
        well_formed(nodes),
        v < nodes.len(),
        operands_first(nodes, order),
    ensures
        operands_first(nodes, visit_operands(nodes, v, i, order)),
    decreases v, 0nat, nodes[v as int].children.len() - i,
{
    if i < nodes[v as int].children.len() {
        let c = nodes[v as int].children[i as int];
        lemma_visit_operands_first(nodes, c, order);
        lemma_visit_operands_operands_first(nodes, v, i + 1, visit(nodes, c, order));
    }
}

/// The order of a backward pass from `root` lists exactly the nodes that
/// `root` depends on, each of them once and after all of its operands,
/// and `root` last.
pub proof fn lemma_topo_order<S: Scalar>(nodes: Seq<Node<S>>, root: usize)
    requires
        well_formed(nodes),
        root < nodes.len(),
    ensures
        topo_order(nodes, root).no_duplicates(),
        operands_first(nodes, topo_order(nodes, root)),
        forall|x: usize| #[trigger]
            topo_order(nodes, root).contains(x) <==> depends_on(nodes, root, x),
        topo_order(nodes, root).len() > 0,
        topo_order(nodes, root).last() == root,
{
    let none = Seq::<usize>::empty();
    lemma_visit_no_duplicates(nodes, root, none);
    lemma_visit_operands_first(nodes, root, none);
    assert forall|x: usize| #[trigger]
        topo_order(nodes, root).contains(x) <==> depends_on(nodes, root, x) by {
        lemma_visit_lists_dependencies(nodes, root, none, x);
    }
}

/// A node depends only on itself and on nodes that were made before it.
pub proof fn lemma_depends_on_earlier<S>(nodes: Seq<Node<S>>, a: usize, b: usize)
    requires
        depends_on(nodes, a, b),
    ensures
        b <= a,
    decreases a,
{
    if a != b {
        let j = choose|j: int|
            0 <= j < nodes[a as int].children.len() && (#[trigger] nodes[a as int].children[j]) < a
                && depends_on(nodes, nodes[a as int].children[j], b);
        lemma_depends_on_earlier(nodes, nodes[a as int].children[j], b);
    }
}

} // verus!
