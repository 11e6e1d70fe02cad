//! Neurons, layers and networks as the contracts speak of them: lists of
//! node indices, and the nodes that a forward pass adds to a graph.
use vstd::prelude::*;
use crate::graph::{extends_graph, leaf, push_leaf, push_op, Node};
use crate::init::{scale_of, weight_of};
use crate::op::Op;
use crate::scalar::{zero, Scalar};

verus! {

/// A neuron: the nodes of its weights, the node of its bias, and whether
/// its output goes through the rectifier.
pub ghost struct NeuronView {
    pub w: Seq<usize>,
    pub b: usize,
    pub nonlin: bool,
}

/// A layer: its neurons, in order.
pub ghost struct LayerView {
    pub neurons: Seq<NeuronView>,
}

/// A network: its layers, the one that takes the input first.
pub ghost struct MlpView {
    pub layers: Seq<LayerView>,
}

/// The number of terms in the weighted sum of a neuron with weights `w`
/// on the inputs `x`: surplus weights or inputs are left out.
pub open spec fn terms(w: Seq<usize>, x: Seq<usize>) -> nat {
    if w.len() <= x.len() {
        w.len()
    } else {
        x.len()
    }
}

/// Whether the weights and the bias of `neuron` are nodes of a graph with
/// `len` nodes.
pub open spec fn neuron_in(neuron: NeuronView, len: nat) -> bool {
    &&& neuron.b < len
    &&& forall|k: int| 0 <= k < neuron.w.len() ==> (#[trigger] neuron.w[k]) < len
}

/// Whether every neuron of `layer` has its weights and bias in a graph
/// with `len` nodes.
pub open spec fn layer_in(layer: LayerView, len: nat) -> bool {
    forall|k: int| 0 <= k < layer.neurons.len() ==> neuron_in(#[trigger] layer.neurons[k], len)
}

/// Whether every layer of `mlp` has its weights and biases in a graph
/// with `len` nodes.
pub open spec fn mlp_in(mlp: MlpView, len: nat) -> bool {
    forall|k: int| 0 <= k < mlp.layers.len() ==> layer_in(#[trigger] mlp.layers[k], len)
}

/// Whether the first `n` entries of `x` are nodes of a graph with `len`
/// nodes.
pub open spec fn inputs_in(x: Seq<usize>, n: nat, len: nat) -> bool {
    forall|k: int| 0 <= k < x.len() && k < n ==> (#[trigger] x[k]) < len
}

/// The graph, and the node of the running sum, after the terms from the
/// `k`-th on have been added to the sum that node `s` holds: for each
/// term a product node, then a sum node.
pub open spec fn weighted_sum<S: Scalar>(
    nodes: Seq<Node<S>>,
    w: Seq<usize>,
    x: Seq<usize>,
    s: usize,
    k: nat,
) -> (Seq<Node<S>>, usize)
    decreases w.len() - k,
{
    if k < w.len() && k < x.len() {
        let prod = nodes.len() as usize;
        let with_prod = push_op(nodes, seq![w[k as int], x[k as int]], Op::Mul);
        let with_sum = push_op(with_prod, seq![s, prod], Op::Add);
        weighted_sum(with_sum, w, x, (nodes.len() + 1) as usize, k + 1)
    } else {
        (nodes, s)
    }
}

/// The graph after a forward pass of `neuron` on the inputs `x`, and the
/// node of its output: the bias plus the weighted sum of the inputs, put
/// through the rectifier if the neuron asks for it.
pub open spec fn neuron_forward<S: Scalar>(nodes: Seq<Node<S>>, neuron: NeuronView, x: Seq<usize>) -> (
    Seq<Node<S>>,
    usize,
) {
    let (summed, s) = weighted_sum(nodes, neuron.w, x, neuron.b, 0);
    if neuron.nonlin {
        (push_op(summed, seq![s], Op::ReLU), summed.len() as usize)
    } else {
        (summed, s)
    }
}

/// The sum `acc` with the terms from the `k`-th on added, from left to
/// right: each term is the value of a weight times the value of its
/// input.
pub open spec fn weighted_value<S: Scalar>(
    nodes: Seq<Node<S>>,
    w: Seq<usize>,
    x: Seq<usize>,
    k: nat,
    acc: S,
) -> S
    decreases w.len() - k,
{
    if k < w.len() && k < x.len() {
        weighted_value(
            nodes,
            w,
            x,
            k + 1,
            acc.spec_plus(nodes[w[k as int] as int].data.spec_times(nodes[x[k as int] as int].data)),
        )
    } else {
        acc
    }
}

/// The value that `neuron` computes on the inputs `x`: its bias plus the
/// weighted sum of the inputs, or zero in its place if the neuron has a
/// rectifier and the sum is not positive.
pub open spec fn neuron_value<S: Scalar>(nodes: Seq<Node<S>>, neuron: NeuronView, x: Seq<usize>) -> S {
    let sum = weighted_value(nodes, neuron.w, x, 0, nodes[neuron.b as int].data);
    if neuron.nonlin && !sum.spec_is_positive() {
        zero()
    } else {
        sum
    }
}

/// The nodes that a weighted sum adds compute the weighted sum: the node
/// of the running sum ends with the value that the sum of the values has.
pub proof fn lemma_weighted_sum_value<S: Scalar>(
    origin: Seq<Node<S>>,
    nodes: Seq<Node<S>>,
    w: Seq<usize>,
    x: Seq<usize>,
    s: usize,
    k: nat,
)
    requires
        extends_graph(origin, nodes),
        s < nodes.len(),
        k <= terms(w, x),
        nodes.len() + 2 * (terms(w, x) - k) <= usize::MAX,
        forall|i: int| 0 <= i < terms(w, x) ==> (#[trigger] w[i]) < origin.len(),
        forall|i: int| 0 <= i < terms(w, x) ==> (#[trigger] x[i]) < origin.len(),
    ensures
        ({
            let (after, out) = weighted_sum(nodes, w, x, s, k);
            &&& extends_graph(nodes, after)
            &&& after.len() == nodes.len() + 2 * (terms(w, x) - k)
            &&& out < after.len()
            &&& after[out as int].data == weighted_value(origin, w, x, k, nodes[s as int].data)
        }),
    decreases w.len() - k,
{
    if k < w.len() && k < x.len() {
        let prod = nodes.len() as usize;
        let with_prod = push_op(nodes, seq![w[k as int], x[k as int]], Op::Mul);
        let with_sum = push_op(with_prod, seq![s, prod], Op::Add);
        assert(w[k as int] < origin.len());
        assert(x[k as int] < origin.len());
        lemma_weighted_sum_value(origin, with_sum, w, x, (nodes.len() + 1) as usize, k + 1);
    }
}

/// The node that a forward pass of a neuron returns has the value that
/// the neuron computes.
pub proof fn lemma_neuron_forward_value<S: Scalar>(
    nodes: Seq<Node<S>>,
    neuron: NeuronView,
    x: Seq<usize>,
)
    requires
        neuron_in(neuron, nodes.len()),
        inputs_in(x, neuron.w.len(), nodes.len()),
        nodes.len() + 2 * terms(neuron.w, x) + (if neuron.nonlin {
            1nat
        } else {
            0nat
        }) <= usize::MAX,
    ensures
        ({
            let (after, out) = neuron_forward(nodes, neuron, x);
            &&& out < after.len()
            &&& after[out as int].data == neuron_value(nodes, neuron, x)
        }),
{
    lemma_weighted_sum_value(nodes, nodes, neuron.w, x, neuron.b, 0);
}

/// Adding nodes to a graph does not change what a weighted sum over
/// nodes of the graph comes to.
pub proof fn lemma_weighted_value_extends<S: Scalar>(
    a: Seq<Node<S>>,
    b: Seq<Node<S>>,
    w: Seq<usize>,
    x: Seq<usize>,
    k: nat,
    acc: S,
)
    requires
        extends_graph(a, b),
        forall|i: int| 0 <= i < terms(w, x) ==> (#[trigger] w[i]) < a.len(),
        forall|i: int| 0 <= i < terms(w, x) ==> (#[trigger] x[i]) < a.len(),
    ensures
        weighted_value(b, w, x, k, acc) == weighted_value(a, w, x, k, acc),
    decreases w.len() - k,
{
    if k < w.len() && k < x.len() {
        assert(w[k as int] < a.len());
        assert(x[k as int] < a.len());
        lemma_weighted_value_extends(
            a,
            b,
            w,
            x,
            k + 1,
            acc.spec_plus(a[w[k as int] as int].data.spec_times(a[x[k as int] as int].data)),
        );
    }
}

/// Adding nodes to a graph does not change what a neuron of the graph
/// computes on inputs of the graph.
pub proof fn lemma_neuron_value_extends<S: Scalar>(
    a: Seq<Node<S>>,
    b: Seq<Node<S>>,
    neuron: NeuronView,
    x: Seq<usize>,
)
    requires
        extends_graph(a, b),
        neuron_in(neuron, a.len()),
        inputs_in(x, neuron.w.len(), a.len()),
    ensures
        neuron_value(b, neuron, x) == neuron_value(a, neuron, x),
{
    lemma_weighted_value_extends(a, b, neuron.w, x, 0, a[neuron.b as int].data);
}

/// The graph after forward passes of the neurons of a layer from the
/// `k`-th on, all on the inputs `x`, and `out` with their outputs added.
pub open spec fn layer_forward_from<S: Scalar>(
    nodes: Seq<Node<S>>,
    neurons: Seq<NeuronView>,
    x: Seq<usize>,
    k: nat,
    out: Seq<usize>,
) -> (Seq<Node<S>>, Seq<usize>)
    decreases neurons.len() - k,
{
    if k < neurons.len() {
        let (next, o) = neuron_forward(nodes, neurons[k as int], x);
        layer_forward_from(next, neurons, x, k + 1, out.push(o))
    } else {
        (nodes, out)
    }
}

/// The graph after a forward pass of `layer` on the inputs `x`, and the
/// nodes of its outputs, one for each neuron.
pub open spec fn layer_forward<S: Scalar>(nodes: Seq<Node<S>>, layer: LayerView, x: Seq<usize>) -> (
    Seq<Node<S>>,
    Seq<usize>,
) {
    layer_forward_from(nodes, layer.neurons, x, 0, Seq::empty())
}

/// The graph after forward passes of the layers from the `k`-th on, each
/// on the outputs of the one before it, and the outputs of the last.
pub open spec fn mlp_forward_from<S: Scalar>(
    nodes: Seq<Node<S>>,
    layers: Seq<LayerView>,
    x: Seq<usize>,
    k: nat,
) -> (Seq<Node<S>>, Seq<usize>)
    decreases layers.len() - k,
{
    if k < layers.len() {
        let (next, out) = layer_forward(nodes, layers[k as int], x);
        mlp_forward_from(next, layers, out, k + 1)
    } else {
        (nodes, x)
    }
}

/// The graph after a forward pass of `mlp` on the inputs `x`, and the
/// nodes of its outputs.
pub open spec fn mlp_forward<S: Scalar>(nodes: Seq<Node<S>>, mlp: MlpView, x: Seq<usize>) -> (
    Seq<Node<S>>,
    Seq<usize>,
) {
    mlp_forward_from(nodes, mlp.layers, x, 0)
}

/// The parameters of a neuron: its weights, then its bias.
pub open spec fn neuron_parameters(neuron: NeuronView) -> Seq<usize> {
    neuron.w.push(neuron.b)
}

/// The parameters of the first `k` neurons, neuron after neuron.
pub open spec fn neurons_parameters(neurons: Seq<NeuronView>, k: nat) -> Seq<usize>
    decreases k,
{
    if k == 0 || k > neurons.len() {
        Seq::empty()
    } else {
        neurons_parameters(neurons, (k - 1) as nat) + neuron_parameters(neurons[k - 1])
    }
}

/// The parameters of a layer: those of its neurons, neuron after neuron.
pub open spec fn layer_parameters(layer: LayerView) -> Seq<usize> {
    neurons_parameters(layer.neurons, layer.neurons.len())
}

/// The parameters of the first `k` layers, layer after layer.
pub open spec fn layers_parameters(layers: Seq<LayerView>, k: nat) -> Seq<usize>
    decreases k,
{
    if k == 0 || k > layers.len() {
        Seq::empty()
    } else {
        layers_parameters(layers, (k - 1) as nat) + layer_parameters(layers[k - 1])
    }
}

/// The parameters of a network: those of its layers, layer after layer.
pub open spec fn mlp_parameters(mlp: MlpView) -> Seq<usize> {
    layers_parameters(mlp.layers, mlp.layers.len())
}

/// The number of things that a count given as `n` asks for: none, if `n`
/// is negative.
pub open spec fn count(n: i16) -> nat {
    if n > 0 {
        n as nat
    } else {
        0
    }
}

/// The weight that a random word stands for, times `scale` if there is
/// one.
pub open spec fn scaled_weight<S: Scalar>(word: u64, scale: Option<S>) -> S {
    match scale {
        Some(s) => weight_of::<S>(word).spec_times(s),
        None => weight_of::<S>(word),
    }
}

/// `nodes` with a leaf for each of the first `k` words, holding the
/// weight that the word stands for.
pub open spec fn with_weights<S: Scalar>(
    nodes: Seq<Node<S>>,
    words: Seq<u64>,
    scale: Option<S>,
    k: nat,
) -> Seq<Node<S>>
    decreases k,
{
    if k == 0 || k > words.len() {
        nodes
    } else {
        push_leaf(
            with_weights(nodes, words, scale, (k - 1) as nat),
            scaled_weight(words[k - 1], scale),
        )
    }
}

/// `nodes` with the leaves of a new neuron: a weight for each word, then
/// a bias of zero.
pub open spec fn with_neuron<S: Scalar>(nodes: Seq<Node<S>>, words: Seq<u64>, scale: Option<S>) -> Seq<
    Node<S>,
> {
    push_leaf(with_weights(nodes, words, scale, words.len()), zero())
}

/// The neuron whose `n` weights are the nodes from `base` on and whose
/// bias is the node after them.
pub open spec fn neuron_at(base: nat, n: nat, nonlin: bool) -> NeuronView {
    NeuronView { w: Seq::new(n, |k: int| (base + k) as usize), b: (base + n) as usize, nonlin }
}

/// Whether `node` is a leaf that holds the weight of some random word.
pub open spec fn is_weight<S: Scalar>(node: Node<S>, scale: Option<S>) -> bool {
    exists|word: u64| node == leaf(#[trigger] scaled_weight(word, scale))
}

/// Whether the `n + 1` nodes from `base` on are the leaves of a new
/// neuron: `n` weights, each that of some random word, and a bias of
/// zero.
pub open spec fn fresh_neuron<S: Scalar>(nodes: Seq<Node<S>>, base: nat, n: nat, scale: Option<S>) -> bool {
    &&& base + n < nodes.len()
    &&& forall|j: int| 0 <= j < n ==> is_weight(#[trigger] nodes[base + j], scale)
    &&& nodes[(base + n) as int] == leaf(zero::<S>())
}

/// The first node of the `k`-th neuron of a layer that starts at node
/// `base` and whose neurons have `n` weights each.
pub open spec fn neuron_base(base: nat, n: nat, k: nat) -> nat {
    base + k * (n + 1)
}

/// Whether `layer` is a new layer of `m` neurons with `n` weights each,
/// whose leaves are the nodes from `base` on, neuron after neuron.
pub open spec fn fresh_layer<S: Scalar>(
    nodes: Seq<Node<S>>,
    layer: LayerView,
    base: nat,
    n: nat,
    m: nat,
    nonlin: bool,
    scale: Option<S>,
) -> bool {
    &&& layer.neurons.len() == m
    &&& forall|k: int|
        0 <= k < m ==> {
            &&& (#[trigger] layer.neurons[k]) == neuron_at(neuron_base(base, n, k as nat), n, nonlin)
            &&& fresh_neuron(nodes, neuron_base(base, n, k as nat), n, scale)
        }
}

/// The scale for the weights of a neuron with `nin` inputs, if its
/// weights are scaled at all.
pub open spec fn scale_option<S: Scalar>(nin: i16, scaled: bool) -> Option<S> {
    if scaled {
        Some(scale_of::<S>(nin))
    } else {
        None
    }
}

/// The number of inputs of the `i`-th layer of a network with `nin`
/// inputs whose layers have `nouts` outputs: the outputs of the layer
/// before it.
pub open spec fn fan_in(nin: i16, nouts: Seq<i16>, i: int) -> i16 {
    if i == 0 {
        nin
    } else {
        nouts[i - 1]
    }
}

/// The number of leaves of the first `k` layers of such a network: for
/// each neuron a weight for each input, and a bias.
pub open spec fn mlp_size(nin: i16, nouts: Seq<i16>, k: nat) -> nat
    decreases k,
{
    if k == 0 {
        0
    } else {
        mlp_size(nin, nouts, (k - 1) as nat) + count(nouts[k - 1]) * (count(
            fan_in(nin, nouts, k - 1),
        ) + 1)
    }
}

/// Whether `mlp` is a new network with `nin` inputs whose layers have
/// `nouts` outputs, with its leaves from node `base` on, layer after
/// layer. Every layer but the last goes through the rectifier.
pub open spec fn fresh_mlp<S: Scalar>(
    nodes: Seq<Node<S>>,
    mlp: MlpView,
    base: nat,
    nin: i16,
    nouts: Seq<i16>,
    scaled: bool,
) -> bool {
    &&& mlp.layers.len() == nouts.len()
    &&& forall|i: int|
        0 <= i < nouts.len() ==> fresh_layer(
            nodes,
            #[trigger] mlp.layers[i],
            base + mlp_size(nin, nouts, i as nat),
            count(fan_in(nin, nouts, i)),
            count(nouts[i]),
            i + 1 < nouts.len(),
            scale_option::<S>(fan_in(nin, nouts, i), scaled),
        )
}

/// A new layer stays what it is when nodes are added to the graph.
pub proof fn lemma_fresh_layer_extends<S: Scalar>(
    a: Seq<Node<S>>,
    b: Seq<Node<S>>,
    layer: LayerView,
    base: nat,
    n: nat,
    m: nat,
    nonlin: bool,
    scale: Option<S>,
)
    requires
        fresh_layer(a, layer, base, n, m, nonlin, scale),
        extends_graph(a, b),
    ensures
        fresh_layer(b, layer, base, n, m, nonlin, scale),
{
    assert forall|k: int| 0 <= k < m implies {
        &&& (#[trigger] layer.neurons[k]) == neuron_at(neuron_base(base, n, k as nat), n, nonlin)
        &&& fresh_neuron(b, neuron_base(base, n, k as nat), n, scale)
    } by {
        let neuron = layer.neurons[k];
        assert(fresh_neuron(a, neuron_base(base, n, k as nat), n, scale));
        lemma_fresh_neuron_extends(a, b, neuron_base(base, n, k as nat), n, scale);
    }
}

/// The weights and the bias of a new neuron are nodes of the graph.
pub proof fn lemma_fresh_neuron_in<S: Scalar>(
    nodes: Seq<Node<S>>,
    base: nat,
    n: nat,
    nonlin: bool,
    scale: Option<S>,
)
    requires
        fresh_neuron(nodes, base, n, scale),
        nodes.len() <= usize::MAX,
    ensures
        neuron_in(neuron_at(base, n, nonlin), nodes.len()),
{
}

/// The weights and the biases of a new layer are nodes of the graph.
pub proof fn lemma_fresh_layer_in<S: Scalar>(
    nodes: Seq<Node<S>>,
    layer: LayerView,
    base: nat,
    n: nat,
    m: nat,
    nonlin: bool,
    scale: Option<S>,
)
    requires
        fresh_layer(nodes, layer, base, n, m, nonlin, scale),
        nodes.len() <= usize::MAX,
    ensures
        layer_in(layer, nodes.len()),
        forall|k: int| 0 <= k < layer.neurons.len() ==> (#[trigger] layer.neurons[k]).w.len() == n,
{
    assert forall|k: int| 0 <= k < layer.neurons.len() implies neuron_in(
        #[trigger] layer.neurons[k],
        nodes.len(),
    ) && layer.neurons[k].w.len() == n by {
        let neuron = layer.neurons[k];
        assert(neuron == neuron_at(neuron_base(base, n, k as nat), n, nonlin));
        lemma_fresh_neuron_in(nodes, neuron_base(base, n, k as nat), n, nonlin, scale);
    }
}

/// The leaves of a new neuron stay what they are when nodes are added
/// to the graph.
pub proof fn lemma_fresh_neuron_extends<S: Scalar>(
    a: Seq<Node<S>>,
    b: Seq<Node<S>>,
    base: nat,
    n: nat,
    scale: Option<S>,
)
    requires
        fresh_neuron(a, base, n, scale),
        extends_graph(a, b),
    ensures
        fresh_neuron(b, base, n, scale),
{
    assert forall|j: int| 0 <= j < n implies is_weight(#[trigger] b[base + j], scale) by {
        assert(is_weight(a[base + j], scale));
    }
}

/// The leaves that a new neuron adds are what `fresh_neuron` asks for.
pub proof fn lemma_with_neuron<S: Scalar>(nodes: Seq<Node<S>>, words: Seq<u64>, scale: Option<S>)
    ensures
        with_neuron(nodes, words, scale).len() == nodes.len() + words.len() + 1,
        extends_graph(nodes, with_neuron(nodes, words, scale)),
        fresh_neuron(with_neuron(nodes, words, scale), nodes.len(), words.len(), scale),
{
    lemma_with_weights(nodes, words, scale, words.len());
    let mid = with_weights(nodes, words, scale, words.len());
    let r = with_neuron(nodes, words, scale);
    assert forall|j: int| 0 <= j < words.len() implies is_weight(
        #[trigger] r[nodes.len() + j],
        scale,
    ) by {
        assert(r[nodes.len() + j] == mid[nodes.len() + j]);
        assert(mid[nodes.len() + j] == leaf(scaled_weight(words[j], scale)));
    }
}

/// The leaves that the first `k` words add: one for each word, in order.
pub proof fn lemma_with_weights<S: Scalar>(
    nodes: Seq<Node<S>>,
    words: Seq<u64>,
    scale: Option<S>,
    k: nat,
)
    requires
        k <= words.len(),
    ensures
        with_weights(nodes, words, scale, k).len() == nodes.len() + k,
        extends_graph(nodes, with_weights(nodes, words, scale, k)),
        forall|j: int|
            0 <= j < k ==> (#[trigger] with_weights(nodes, words, scale, k)[nodes.len() + j])
                == leaf(scaled_weight(words[j], scale)),
    decreases k,
{
    if k > 0 {
        lemma_with_weights(nodes, words, scale, (k - 1) as nat);
    }
}

} // verus!
