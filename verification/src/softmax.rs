//! Softmax and cross-entropy, built from nodes of the catalog: no node
//! kind of their own, and so no backward rule of their own.
use vstd::prelude::*;
use crate::graph::{
    extends_graph, push_div, push_leaf, push_neg, push_op, push_sub, Graph, Node, Variable,
};
use crate::op::Op;
use crate::scalar::{minus_one, one, Scalar};

verus! {

/// Whether every handle in `vars` names a node of a graph with `len`
/// nodes.
pub open spec fn handles_in(vars: Seq<Variable>, len: nat) -> bool {
    forall|k: int| 0 <= k < vars.len() ==> (#[trigger] vars[k]).idx < len
}

/// The largest of `acc` and the values of the logits from the `k`-th on,
/// taken from left to right.
pub open spec fn max_from<S: Scalar>(nodes: Seq<Node<S>>, logits: Seq<Variable>, k: nat, acc: S) -> S
    decreases logits.len() - k,
{
    if k < logits.len() {
        max_from(nodes, logits, k + 1, acc.spec_max(nodes[logits[k as int].idx as int].data))
    } else {
        acc
    }
}

/// The graph after, for each logit from the `k`-th on, the nodes that
/// subtract node `shift` from it and exponentiate the difference have
/// been added, and `exps` with the handles of the exponentials.
pub open spec fn exps_from<S: Scalar>(
    nodes: Seq<Node<S>>,
    logits: Seq<Variable>,
    shift: usize,
    k: nat,
    exps: Seq<Variable>,
) -> (Seq<Node<S>>, Seq<Variable>)
    decreases logits.len() - k,
{
    if k < logits.len() {
        let shifted = push_sub(nodes, logits[k as int].idx, shift);
        let with_exp = push_op(shifted, seq![(nodes.len() + 2) as usize], Op::Exp);
        exps_from(
            with_exp,
            logits,
            shift,
            k + 1,
            exps.push(Variable { idx: (nodes.len() + 3) as usize }),
        )
    } else {
        (nodes, exps)
    }
}

/// The graph after the exponentials from the `k`-th on have been added,
/// one after the other, to the sum that node `sum` holds, and the node of
/// the total.
pub open spec fn sum_from<S: Scalar>(nodes: Seq<Node<S>>, exps: Seq<Variable>, k: nat, sum: usize) -> (
    Seq<Node<S>>,
    usize,
)
    decreases exps.len() - k,
{
    if k < exps.len() {
        sum_from(
            push_op(nodes, seq![sum, exps[k as int].idx], Op::Add),
            exps,
            k + 1,
            nodes.len() as usize,
        )
    } else {
        (nodes, sum)
    }
}

/// The graph after each exponential from the `k`-th on has been divided
/// by node `sum`, and `probs` with the handles of the quotients.
pub open spec fn probs_from<S: Scalar>(
    nodes: Seq<Node<S>>,
    exps: Seq<Variable>,
    sum: usize,
    k: nat,
    probs: Seq<Variable>,
) -> (Seq<Node<S>>, Seq<Variable>)
    decreases exps.len() - k,
{
    if k < exps.len() {
        probs_from(
            push_div(nodes, exps[k as int].idx, sum),
            exps,
            sum,
            k + 1,
            probs.push(Variable { idx: (nodes.len() + 1) as usize }),
        )
    } else {
        (nodes, probs)
    }
}

/// The graph after the softmax of `logits` has been added, and the
/// handles of its entries. A leaf takes the largest logit (or minus
/// infinity, if no logit exceeds it); it is subtracted from every logit
/// before the exponential, which keeps the exponentials from overflowing;
/// the exponentials are summed from left to right, and each is divided by
/// the sum.
pub open spec fn softmax_of<S: Scalar>(nodes: Seq<Node<S>>, logits: Seq<Variable>) -> (
    Seq<Node<S>>,
    Seq<Variable>,
) {
    let largest = max_from(nodes, logits, 0, S::spec_neg_infinity());
    let with_max = push_leaf(nodes, largest);
    let (with_exps, exps) = exps_from(with_max, logits, nodes.len() as usize, 0, Seq::empty());
    let (with_sum, sum) = sum_from(with_exps, exps, 1, exps[0].idx);
    probs_from(with_sum, exps, sum, 0, Seq::empty())
}

/// The graph after the cross-entropy of the probabilities `probs` against
/// the class `target` has been added: the logarithm of the probability of
/// `target`, then its negation. The node of the result is the last one.
pub open spec fn cross_entropy_of<S: Scalar>(nodes: Seq<Node<S>>, probs: Seq<Variable>, target: int) -> Seq<
    Node<S>,
> {
    push_neg(push_op(nodes, seq![probs[target].idx], Op::Log), nodes.len() as usize)
}

/// The values of the nodes that `vars` names.
pub open spec fn values_at<S>(nodes: Seq<Node<S>>, vars: Seq<Variable>) -> Seq<S> {
    Seq::new(vars.len(), |i: int| nodes[vars[i].idx as int].data)
}

/// The largest of `acc` and the values from the `k`-th on, taken from
/// left to right.
pub open spec fn largest_from<S: Scalar>(values: Seq<S>, k: nat, acc: S) -> S
    decreases values.len() - k,
{
    if k < values.len() {
        largest_from(values, k + 1, acc.spec_max(values[k as int]))
    } else {
        acc
    }
}

/// The sum of `acc` and the values from the `k`-th on, added from left to
/// right.
pub open spec fn total_from<S: Scalar>(values: Seq<S>, k: nat, acc: S) -> S
    decreases values.len() - k,
{
    if k < values.len() {
        total_from(values, k + 1, acc.spec_plus(values[k as int]))
    } else {
        acc
    }
}

/// The exponential of `x` less `top`, computed as the graph computes it:
/// `top` is negated by a product with minus one and added to `x`.
pub open spec fn shifted_exp<S: Scalar>(x: S, top: S) -> S {
    x.spec_plus(top.spec_times(minus_one())).spec_exp()
}

/// `e` over `sum`, computed as the graph computes it: `e` times `sum`
/// raised to the power minus one.
pub open spec fn quotient<S: Scalar>(e: S, sum: S) -> S {
    e.spec_times(sum.spec_powf(minus_one()))
}

/// The exponentials of the values, each less the largest of them.
pub open spec fn softmax_exps<S: Scalar>(values: Seq<S>) -> Seq<S> {
    let top = largest_from(values, 0, S::spec_neg_infinity());
    Seq::new(values.len(), |i: int| shifted_exp(values[i], top))
}

/// The softmax of the values: the exponential of each value less the
/// largest, over the sum of these exponentials.
pub open spec fn softmax_values<S: Scalar>(values: Seq<S>) -> Seq<S> {
    let exps = softmax_exps(values);
    let sum = total_from(exps, 1, exps[0]);
    Seq::new(values.len(), |i: int| quotient(exps[i], sum))
}

/// The largest logit, read off the graph, is the largest of the logits'
/// values.
proof fn lemma_max_from<S: Scalar>(nodes: Seq<Node<S>>, logits: Seq<Variable>, k: nat, acc: S)
    ensures
        max_from(nodes, logits, k, acc) == largest_from(values_at(nodes, logits), k, acc),
    decreases logits.len() - k,
{
    if k < logits.len() {
        lemma_max_from(
            nodes,
            logits,
            k + 1,
            acc.spec_max(nodes[logits[k as int].idx as int].data),
        );
    }
}

/// The nodes that the exponentials add: four for each logit, the last of
/// them with the value of the exponential of the logit less the shift.
proof fn lemma_exps_from<S: Scalar>(
    origin: Seq<Node<S>>,
    nodes: Seq<Node<S>>,
    logits: Seq<Variable>,
    shift: usize,
    top: S,
    k: nat,
    exps: Seq<Variable>,
)
    requires
        extends_graph(origin, nodes),
        handles_in(logits, origin.len()),
        shift < nodes.len(),
        nodes[shift as int].data == top,
        k <= logits.len(),
        exps.len() == k,
        nodes.len() + 4 * (logits.len() - k) <= usize::MAX,
        forall|i: int|
            0 <= i < k ==> (#[trigger] exps[i]).idx < nodes.len() && nodes[exps[i].idx as int].data
                == shifted_exp(origin[logits[i].idx as int].data, top),
    ensures
        ({
            let (after, es) = exps_from(nodes, logits, shift, k, exps);
            &&& extends_graph(nodes, after)
            &&& after.len() == nodes.len() + 4 * (logits.len() - k)
            &&& es.len() == logits.len()
            &&& forall|i: int|
                0 <= i < logits.len() ==> (#[trigger] es[i]).idx < after.len()
                    && after[es[i].idx as int].data == shifted_exp(
                    origin[logits[i].idx as int].data,
                    top,
                )
        }),
    decreases logits.len() - k,
{
    if k < logits.len() {
        let x = logits[k as int].idx;
        assert(x < origin.len());
        let shifted = push_sub(nodes, x, shift);
        let with_exp = push_op(shifted, seq![(nodes.len() + 2) as usize], Op::Exp);
        let next = exps.push(Variable { idx: (nodes.len() + 3) as usize });
        assert(shifted[nodes.len() as int].data == minus_one::<S>());
        assert(shifted[(nodes.len() + 1) as int].data == top.spec_times(minus_one()));
        assert(shifted[(nodes.len() + 2) as int].data == nodes[x as int].data.spec_plus(
            top.spec_times(minus_one()),
        ));
        assert(with_exp[(nodes.len() + 3) as int].data == shifted_exp(origin[x as int].data, top));
        assert forall|i: int| 0 <= i < k + 1 implies (#[trigger] next[i]).idx < with_exp.len()
            && with_exp[next[i].idx as int].data == shifted_exp(
            origin[logits[i].idx as int].data,
            top,
        ) by {
            if i < k {
                assert(next[i] == exps[i]);
            }
        }
        lemma_exps_from(origin, with_exp, logits, shift, top, k + 1, next);
    }
}

/// The nodes that the sum adds: one for each exponential after the
/// first, the last of them with the value of the total.
proof fn lemma_sum_from<S: Scalar>(
    origin: Seq<Node<S>>,
    nodes: Seq<Node<S>>,
    exps: Seq<Variable>,
    k: nat,
    sum: usize,
)
    requires
        extends_graph(origin, nodes),
        handles_in(exps, origin.len()),
        sum < nodes.len(),
        k <= exps.len(),
        nodes.len() + (exps.len() - k) <= usize::MAX,
    ensures
        ({
            let (after, out) = sum_from(nodes, exps, k, sum);
            &&& extends_graph(nodes, after)
            &&& after.len() == nodes.len() + (exps.len() - k)
            &&& out < after.len()
            &&& after[out as int].data == total_from(
                values_at(origin, exps),
                k,
                nodes[sum as int].data,
            )
        }),
    decreases exps.len() - k,
{
    if k < exps.len() {
        assert(exps[k as int].idx < origin.len());
        lemma_sum_from(
            origin,
            push_op(nodes, seq![sum, exps[k as int].idx], Op::Add),
            exps,
            k + 1,
            nodes.len() as usize,
        );
    }
}

/// The nodes that the quotients add: two for each exponential, the
/// second with the value of the exponential over the total.
proof fn lemma_probs_from<S: Scalar>(
    origin: Seq<Node<S>>,
    nodes: Seq<Node<S>>,
    exps: Seq<Variable>,
    sum: usize,
    k: nat,
    probs: Seq<Variable>,
)
    requires
        extends_graph(origin, nodes),
        handles_in(exps, origin.len()),
        sum < origin.len(),
        k <= exps.len(),
        probs.len() == k,
        nodes.len() + 2 * (exps.len() - k) <= usize::MAX,
        forall|i: int|
            0 <= i < k ==> (#[trigger] probs[i]).idx < nodes.len()
                && nodes[probs[i].idx as int].data == quotient(
                origin[exps[i].idx as int].data,
                origin[sum as int].data,
            ),
    ensures
        ({
            let (after, ps) = probs_from(nodes, exps, sum, k, probs);
            &&& extends_graph(nodes, after)
            &&& after.len() == nodes.len() + 2 * (exps.len() - k)
            &&& ps.len() == exps.len()
            &&& forall|i: int|
                0 <= i < exps.len() ==> (#[trigger] ps[i]).idx < after.len()
                    && after[ps[i].idx as int].data == quotient(
                    origin[exps[i].idx as int].data,
                    origin[sum as int].data,
                )
        }),
    decreases exps.len() - k,
{
    if k < exps.len() {
        let e = exps[k as int].idx;
        assert(e < origin.len());
        let with_quotient = push_div(nodes, e, sum);
        let next = probs.push(Variable { idx: (nodes.len() + 1) as usize });
        assert(with_quotient[nodes.len() as int].data == nodes[sum as int].data.spec_powf(
            minus_one(),
        ));
        assert(with_quotient[(nodes.len() + 1) as int].data == quotient(
            origin[e as int].data,
            origin[sum as int].data,
        ));
        assert forall|i: int| 0 <= i < k + 1 implies (#[trigger] next[i]).idx
            < with_quotient.len() && with_quotient[next[i].idx as int].data == quotient(
            origin[exps[i].idx as int].data,
            origin[sum as int].data,
        ) by {
            if i < k {
                assert(next[i] == probs[i]);
            }
        }
        lemma_probs_from(origin, with_quotient, exps, sum, k + 1, next);
    }
}

/// The nodes that a softmax returns have the values of the softmax of
/// the logits' values.
pub proof fn lemma_softmax_values<S: Scalar>(nodes: Seq<Node<S>>, logits: Seq<Variable>)
    requires
        logits.len() > 0,
        handles_in(logits, nodes.len()),
        nodes.len() + 7 * logits.len() <= usize::MAX,
    ensures
        ({
            let (after, probs) = softmax_of(nodes, logits);
            &&& extends_graph(nodes, after)
            &&& after.len() == nodes.len() + 7 * logits.len()
            &&& probs.len() == logits.len()
            &&& forall|i: int|
                0 <= i < logits.len() ==> (#[trigger] probs[i]).idx < after.len()
                    && after[probs[i].idx as int].data == softmax_values(
                    values_at(nodes, logits),
                )[i]
        }),
{
    let values = values_at(nodes, logits);
    let top = max_from(nodes, logits, 0, S::spec_neg_infinity());
    lemma_max_from(nodes, logits, 0, S::spec_neg_infinity());
    let with_max = push_leaf(nodes, top);
    let shift = nodes.len() as usize;
    lemma_exps_from(nodes, with_max, logits, shift, top, 0, Seq::empty());
    let (with_exps, exps) = exps_from(with_max, logits, shift, 0, Seq::empty());
    let exp_values = values_at(with_exps, exps);
    assert(exp_values =~= softmax_exps(values));

    lemma_sum_from(with_exps, with_exps, exps, 1, exps[0].idx);
    let (with_sum, sum) = sum_from(with_exps, exps, 1, exps[0].idx);
    assert(with_sum[sum as int].data == total_from(exp_values, 1, exp_values[0]));

    assert forall|i: int| 0 <= i < exps.len() implies (#[trigger] exps[i]).idx
        < with_sum.len() by {
        assert(exps[i].idx < with_exps.len());
    }
    lemma_probs_from(with_sum, with_sum, exps, sum, 0, Seq::empty());
    let (after, probs) = probs_from(with_sum, exps, sum, 0, Seq::empty());
    assert forall|i: int| 0 <= i < logits.len() implies (#[trigger] probs[i]).idx < after.len()
        && after[probs[i].idx as int].data == softmax_values(values)[i] by {
        assert(with_sum[exps[i].idx as int] == with_exps[exps[i].idx as int]);
        assert(exp_values[i] == with_exps[exps[i].idx as int].data);
    }
}

/// The values, each with `c` added.
pub open spec fn shifted_by<S: Scalar>(values: Seq<S>, c: S) -> Seq<S> {
    Seq::new(values.len(), |i: int| values[i].spec_plus(c))
}

/// Whether sums and differences of `S` are exact as far as a common shift
/// goes: a shift of both sides cancels in a difference, the larger of two
/// shifted numbers is the larger number shifted, and minus infinity is
/// below every number. Real numbers are so. Rounding arithmetic is not:
/// where a shift is so large that the numbers it is added to are lost in
/// rounding, the difference is lost too.
pub open spec fn shifts_exactly<S: Scalar>() -> bool {
    &&& forall|a: S, t: S, c: S| #[trigger]
        a.spec_plus(c).spec_plus(t.spec_plus(c).spec_times(minus_one())) == a.spec_plus(
            t.spec_times(minus_one()),
        )
    &&& forall|a: S, b: S, c: S| #[trigger]
        a.spec_plus(c).spec_max(b.spec_plus(c)) == a.spec_max(b).spec_plus(c)
    &&& forall|a: S| #[trigger] S::spec_neg_infinity().spec_max(a) == a
}

/// Whether products of `S` distribute over sums from the right.
pub open spec fn distributes<S: Scalar>() -> bool {
    forall|a: S, b: S, r: S| #[trigger]
        a.spec_plus(b).spec_times(r) == a.spec_times(r).spec_plus(b.spec_times(r))
}

/// Where arithmetic is exact, the largest of shifted values is the
/// largest value shifted.
proof fn lemma_largest_shifted<S: Scalar>(values: Seq<S>, c: S, k: nat, acc: S)
    requires
        shifts_exactly::<S>(),
    ensures
        largest_from(shifted_by(values, c), k, acc.spec_plus(c)) == largest_from(
            values,
            k,
            acc,
        ).spec_plus(c),
    decreases values.len() - k,
{
    if k < values.len() {
        let v = values[k as int];
        assert(shifted_by(values, c)[k as int] == v.spec_plus(c));
        assert(acc.spec_plus(c).spec_max(v.spec_plus(c)) == acc.spec_max(v).spec_plus(c));
        lemma_largest_shifted(values, c, k + 1, acc.spec_max(v));
    }
}

/// Where arithmetic is exact, a softmax does not see a common shift of
/// its logits: adding the same number to every value leaves every entry
/// what it is.
pub proof fn lemma_softmax_ignores_exact_shift<S: Scalar>(values: Seq<S>, c: S)
    requires
        shifts_exactly::<S>(),
        values.len() > 0,
    ensures
        softmax_values(shifted_by(values, c)) == softmax_values(values),
{
    let moved = shifted_by(values, c);
    let low = S::spec_neg_infinity();
    let top = largest_from(values, 0, low);
    let moved_top = largest_from(moved, 0, low);
    assert(moved_top == top.spec_plus(c)) by {
        assert(low.spec_max(values[0]) == values[0]);
        assert(low.spec_max(moved[0]) == moved[0]);
        assert(top == largest_from(values, 1, values[0]));
        assert(moved_top == largest_from(moved, 1, values[0].spec_plus(c)));
        lemma_largest_shifted(values, c, 1, values[0]);
    }
    assert forall|i: int| 0 <= i < values.len() implies softmax_exps(moved)[i] == softmax_exps(
        values,
    )[i] by {
        let a = values[i];
        assert(a.spec_plus(c).spec_plus(top.spec_plus(c).spec_times(minus_one())) == a.spec_plus(
            top.spec_times(minus_one()),
        ));
    }
    assert(softmax_exps(moved) =~= softmax_exps(values));
    assert(softmax_values(moved) =~= softmax_values(values));
}

/// Where products distribute over sums, the total of quotients by `r` is
/// the quotient of the total by `r`.
proof fn lemma_total_scaled<S: Scalar>(exps: Seq<S>, r: S, k: nat, acc: S)
    requires
        distributes::<S>(),
    ensures
        total_from(Seq::new(exps.len(), |i: int| quotient(exps[i], r)), k, acc.spec_times(
            r.spec_powf(minus_one()),
        )) == total_from(exps, k, acc).spec_times(r.spec_powf(minus_one())),
    decreases exps.len() - k,
{
    if k < exps.len() {
        let q = Seq::new(exps.len(), |i: int| quotient(exps[i], r));
        let inverse = r.spec_powf(minus_one());
        assert(q[k as int] == exps[k as int].spec_times(inverse));
        assert(acc.spec_plus(exps[k as int]).spec_times(inverse) == acc.spec_times(
            inverse,
        ).spec_plus(exps[k as int].spec_times(inverse)));
        lemma_total_scaled(exps, r, k + 1, acc.spec_plus(exps[k as int]));
    }
}

/// Where products distribute over sums and the sum of the exponentials
/// has an inverse, the entries of a softmax add up to one.
pub proof fn lemma_softmax_exact_total<S: Scalar>(values: Seq<S>)
    requires
        distributes::<S>(),
        values.len() > 0,
        ({
            let exps = softmax_exps(values);
            let sum = total_from(exps, 1, exps[0]);
            quotient(sum, sum) == one::<S>()
        }),
    ensures
        total_from(softmax_values(values), 1, softmax_values(values)[0]) == one::<S>(),
{
    let exps = softmax_exps(values);
    let sum = total_from(exps, 1, exps[0]);
    assert(softmax_values(values) =~= Seq::new(exps.len(), |i: int| quotient(exps[i], sum)));
    lemma_total_scaled(exps, sum, 1, exps[0]);
}

impl<S: Scalar> Graph<S> {
    /// Adds the softmax of `logits` and returns the handles of its
    /// entries, one for each logit.
    pub fn softmax(&mut self, logits: &[Variable]) -> (probs: Vec<Variable>)
        requires
            old(self).wf(),
            logits@.len() > 0,
            handles_in(logits@, old(self)@.len()),
        ensures
            (final(self)@, probs@) == softmax_of(old(self)@, logits@),
            probs@.len() == logits@.len(),
            forall|i: int|
                0 <= i < probs@.len() ==> final(self)@[(#[trigger] probs@[i]).idx as int].data
                    == softmax_values(values_at(old(self)@, logits@))[i],
            handles_in(probs@, final(self)@.len()),
            final(self)@.len() == old(self)@.len() + 7 * logits@.len(),
            extends_graph(old(self)@, final(self)@),
            final(self).wf(),
    {
        let n: usize = logits.len();
        let mut max_val = S::neg_infinity();
        let mut k: usize = 0;
        while k < n
            invariant
                k <= n,
                n == logits@.len(),
                self@ == old(self)@,
                handles_in(logits@, old(self)@.len()),
                max_from(self@, logits@, k as nat, max_val) == max_from(
                    old(self)@,
                    logits@,
                    0,
                    S::spec_neg_infinity(),
                ),
            decreases n - k,
        {
            max_val = max_val.max(self.data(logits[k].idx));
            k += 1;
        }
        let max_var = self.variable(max_val);
        let ghost with_max = self@;

        let mut exps: Vec<Variable> = Vec::new();
        k = 0;
        while k < n
            invariant
                k <= n,
                n == logits@.len(),
                self.wf(),
                handles_in(logits@, old(self)@.len()),
                max_var.idx == old(self)@.len(),
                extends_graph(old(self)@, self@),
                self@.len() == old(self)@.len() + 1 + 4 * k,
                exps@.len() == k,
                handles_in(exps@, self@.len()),
                exps_from(self@, logits@, max_var.idx, k as nat, exps@) == exps_from(
                    with_max,
                    logits@,
                    max_var.idx,
                    0,
                    Seq::empty(),
                ),
            decreases n - k,
        {
            let shifted = self.sub_op(logits[k].idx, max_var.idx);
            let e = self.exp_op(shifted);
            exps.push(Variable { idx: e });
            k += 1;
        }
        let ghost with_exps = self@;

        let mut sum_exp = exps[0].idx;
        k = 1;
        while k < n
            invariant
                1 <= k <= n,
                n == exps@.len(),
                n == logits@.len(),
                self.wf(),
                extends_graph(old(self)@, self@),
                self@.len() == old(self)@.len() + 4 * n + k,
                handles_in(exps@, self@.len()),
                sum_exp < self@.len(),
                sum_from(self@, exps@, k as nat, sum_exp) == sum_from(
                    with_exps,
                    exps@,
                    1,
                    exps@[0].idx,
                ),
            decreases n - k,
        {
            sum_exp = self.add_op(sum_exp, exps[k].idx);
            k += 1;
        }
        let ghost with_sum = self@;

        let mut probs: Vec<Variable> = Vec::new();
        k = 0;
        while k < n
            invariant
                k <= n,
                n == exps@.len(),
                n == logits@.len(),
                self.wf(),
                extends_graph(old(self)@, self@),
                self@.len() == old(self)@.len() + 5 * n + 2 * k,
                handles_in(exps@, self@.len()),
                sum_exp < self@.len(),
                probs@.len() == k,
                handles_in(probs@, self@.len()),
                probs_from(self@, exps@, sum_exp, k as nat, probs@) == probs_from(
                    with_sum,
                    exps@,
                    sum_exp,
                    0,
                    Seq::empty(),
                ),
            decreases n - k,
        {
            let p = self.div_op(exps[k].idx, sum_exp);
            probs.push(Variable { idx: p });
            k += 1;
        }
        proof {
            lemma_softmax_values(old(self)@, logits@);
        }
        probs
    }

    /// Adds the cross-entropy of the probabilities `probs` against the
    /// class `target`, the negated logarithm of the probability of
    /// `target`, and returns its handle.
    pub fn cross_entropy(&mut self, probs: &[Variable], target: usize) -> (r: Variable)
        requires
            old(self).wf(),
            target < probs@.len(),
            probs@[target as int].idx < old(self)@.len(),
        ensures
            final(self)@ == cross_entropy_of(old(self)@, probs@, target as int),
            r.idx == old(self)@.len() + 2,
            final(self)@[r.idx as int].data == old(self)@[probs@[target as int].idx as int].data.spec_ln().spec_times(
                minus_one(),
            ),
            extends_graph(old(self)@, final(self)@),
            final(self).wf(),
    {
        let log = self.log_op(probs[target].idx);
        Variable { idx: self.neg_op(log) }
    }
}

} // verus!
