//! Neurons, layers and networks whose weights start out scaled to the
//! number of inputs: uniform between minus one and one, times the square
//! root of two over the number of inputs.
use vstd::prelude::*;
use crate::graph::{extends_graph, Graph, VariableDataIdx};
use crate::init::{random_words, scale_for, weight_from_word};
use crate::model::{
    count, fan_in, fresh_layer, fresh_mlp, fresh_neuron, inputs_in, layer_forward,
    layer_forward_from, layer_in, layer_parameters, layers_parameters, lemma_fresh_layer_extends,
    lemma_fresh_layer_in, lemma_fresh_neuron_extends, lemma_neuron_forward_value,
    lemma_neuron_value_extends, lemma_with_neuron, mlp_forward, mlp_forward_from, mlp_in,
    mlp_parameters, mlp_size, neuron_at, neuron_base, neuron_forward, neuron_in,
    neuron_parameters, neuron_value, neurons_parameters, scale_option, terms, weighted_sum, with_neuron,
    with_weights, LayerView, MlpView, NeuronView,
};
use crate::scalar::Scalar;

verus! {

/// The index of a node in its graph.
pub type VariableIdx = VariableDataIdx;

/// A neuron: a weight for each input, a bias, and a rectifier or none.
pub struct Neuron {
    w: Vec<VariableIdx>,
    b: VariableIdx,
    nonlin: bool,
}

impl View for Neuron {
    type V = NeuronView;

    closed spec fn view(&self) -> NeuronView {
        NeuronView { w: self.w@, b: self.b, nonlin: self.nonlin }
    }
}

/// A copy of the list `v`.
fn copied(v: &[VariableIdx]) -> (r: Vec<VariableIdx>)
    ensures
        r@ == v@,
{
    let mut r: Vec<VariableIdx> = Vec::new();
    let mut i: usize = 0;
    while i < v.len()
        invariant
            i <= v@.len(),
            r@ == v@.subrange(0, i as int),
        decreases v@.len() - i,
    {
        r.push(v[i]);
        proof {
            assert(r@ =~= v@.subrange(0, i + 1));
        }
        i += 1;
    }
    proof {
        assert(r@ =~= v@);
    }
    r
}

/// Puts the entries of `more` at the end of `params`.
fn append(params: &mut Vec<VariableIdx>, more: &Vec<VariableIdx>)
    ensures
        final(params)@ == old(params)@ + more@,
{
    let mut i: usize = 0;
    while i < more.len()
        invariant
            i <= more@.len(),
            params@ == old(params)@ + more@.subrange(0, i as int),
        decreases more@.len() - i,
    {
        params.push(more[i]);
        proof {
            assert(params@ =~= old(params)@ + more@.subrange(0, i + 1));
        }
        i += 1;
    }
    proof {
        assert(params@ =~= old(params)@ + more@);
    }
}

impl Neuron {
    /// Adds to `ctx` the leaves of a new neuron, a weight for each word
    /// and a bias of zero, and returns the neuron. With a `scale`, every
    /// weight is multiplied by it.
    pub(crate) fn build<S: Scalar>(
        ctx: &mut Graph<S>,
        words: &[u64],
        scale: Option<S>,
        nonlin: bool,
    ) -> (r: Self)
        requires
            old(ctx).wf(),
        ensures
            final(ctx)@ == with_neuron(old(ctx)@, words@, scale),
            r@ == neuron_at(old(ctx)@.len(), words@.len(), nonlin),
            neuron_in(r@, final(ctx)@.len()),
            final(ctx).wf(),
    {
        let mut w: Vec<VariableIdx> = Vec::new();
        let mut k: usize = 0;
        while k < words.len()
            invariant
                k <= words@.len(),
                ctx.wf(),
                ctx@ == with_weights(old(ctx)@, words@, scale, k as nat),
                ctx@.len() == old(ctx)@.len() + k,
                w@.len() == k,
                forall|j: int| 0 <= j < k ==> (#[trigger] w@[j]) == old(ctx)@.len() + j,
            decreases words@.len() - k,
        {
            let raw = weight_from_word::<S>(words[k]);
            let weight = match scale {
                Some(s) => raw.times(s),
                None => raw,
            };
            let v = ctx.variable(weight);
            w.push(v.idx);
            k += 1;
        }
        let b = ctx.variable(S::from_int(0)).idx;
        let r = Neuron { w, b, nonlin };
        proof {
            assert(r@.w =~= neuron_at(old(ctx)@.len(), words@.len(), nonlin).w);
            lemma_with_neuron(old(ctx)@, words@, scale);
        }
        r
    }

    /// Adds to `ctx` the leaves of a new neuron whose weights are those
    /// that the random `words` stand for, scaled for `nin` inputs, and
    /// returns the neuron.
    pub fn from_words<S: Scalar>(ctx: &mut Graph<S>, nin: i16, words: &[u64], nonlin: bool) -> (r:
        Self)
        requires
            old(ctx).wf(),
        ensures
            final(ctx)@ == with_neuron(old(ctx)@, words@, scale_option::<S>(nin, true)),
            r@ == neuron_at(old(ctx)@.len(), words@.len(), nonlin),
            neuron_in(r@, final(ctx)@.len()),
            final(ctx).wf(),
    {
        let scale = scale_for::<S>(nin);
        Self::build(ctx, words, Some(scale), nonlin)
    }

    /// Adds to `ctx` the leaves of a new neuron with `nin` weights drawn
    /// at random, scaled for `nin` inputs if `scaled` says so.
    pub(crate) fn draw<S: Scalar>(ctx: &mut Graph<S>, nin: i16, nonlin: bool, scaled: bool) -> (r:
        Self)
        requires
            old(ctx).wf(),
        ensures
            exists|words: Seq<u64>|
                words.len() == count(nin) && final(ctx)@ == #[trigger] with_neuron(
                    old(ctx)@,
                    words,
                    scale_option::<S>(nin, scaled),
                ),
            r@ == neuron_at(old(ctx)@.len(), count(nin), nonlin),
            neuron_in(r@, final(ctx)@.len()),
            final(ctx).wf(),
    {
        let n: usize = if nin > 0 {
            nin as usize
        } else {
            0
        };
        let words = random_words(n);
        let scale: Option<S> = if scaled {
            Some(scale_for::<S>(nin))
        } else {
            None
        };
        Self::build(ctx, words.as_slice(), scale, nonlin)
    }

    /// Adds to `ctx` the leaves of a new neuron with `nin` inputs: `nin`
    /// weights drawn at random and scaled for `nin` inputs, then a bias of
    /// zero. The contract says what holds whichever words were drawn.
    pub fn new<S: Scalar>(ctx: &mut Graph<S>, nin: i16, nonlin: bool) -> (r: Self)
        requires
            old(ctx).wf(),
        ensures
            exists|words: Seq<u64>|
                words.len() == count(nin) && final(ctx)@ == #[trigger] with_neuron(
                    old(ctx)@,
                    words,
                    scale_option::<S>(nin, true),
                ),
            r@ == neuron_at(old(ctx)@.len(), count(nin), nonlin),
            neuron_in(r@, final(ctx)@.len()),
            final(ctx).wf(),
    {
        Self::draw(ctx, nin, nonlin, true)
    }

    /// Adds to `ctx` the nodes that compute the neuron's output on the
    /// inputs `x`, and returns the node of the output.
    pub fn forward<S: Scalar>(&self, ctx: &mut Graph<S>, x: &[VariableIdx]) -> (r: VariableIdx)
        requires
            old(ctx).wf(),
            neuron_in(self@, old(ctx)@.len()),
            inputs_in(x@, self@.w.len(), old(ctx)@.len()),
        ensures
            (final(ctx)@, r) == neuron_forward(old(ctx)@, self@, x@),
            final(ctx)@[r as int].data == neuron_value(old(ctx)@, self@, x@),
            final(ctx).wf(),
            extends_graph(old(ctx)@, final(ctx)@),
            r < final(ctx)@.len(),
            final(ctx)@.len() == old(ctx)@.len() + 2 * terms(self@.w, x@) + (if self@.nonlin {
                1nat
            } else {
                0nat
            }),
    {
        let mut s = self.b;
        let mut k: usize = 0;
        while k < self.w.len() && k < x.len()
            invariant
                k <= terms(self@.w, x@),
                ctx.wf(),
                neuron_in(self@, old(ctx)@.len()),
                inputs_in(x@, self@.w.len(), old(ctx)@.len()),
                extends_graph(old(ctx)@, ctx@),
                s < ctx@.len(),
                ctx@.len() == old(ctx)@.len() + 2 * k,
                weighted_sum(ctx@, self@.w, x@, s, k as nat) == weighted_sum(
                    old(ctx)@,
                    self@.w,
                    x@,
                    self@.b,
                    0,
                ),
            decreases self@.w.len() - k,
        {
            proof {
                assert(self@.w[k as int] < old(ctx)@.len());
                assert(x@[k as int] < old(ctx)@.len());
            }
            let prod = ctx.mul_op(self.w[k], x[k]);
            s = ctx.add_op(s, prod);
            k += 1;
        }
        if self.nonlin {
            s = ctx.relu_op(s)
        }
        proof {
            lemma_neuron_forward_value(old(ctx)@, self@, x@);
        }
        s
    }

    /// The neuron's parameters: its weights, then its bias.
    pub fn parameters(&self) -> (params: Vec<VariableIdx>)
        ensures
            params@ == neuron_parameters(self@),
    {
        let mut params = copied(self.w.as_slice());
        params.push(self.b);
        params
    }
}

/// A layer of neurons that all see the same inputs.
pub struct Layer {
    neurons: Vec<Neuron>,
}

impl View for Layer {
    type V = LayerView;

    closed spec fn view(&self) -> LayerView {
        LayerView { neurons: Seq::new(self.neurons@.len(), |k: int| self.neurons@[k]@) }
    }
}

/// Whether the inputs that each neuron of `layer` uses are nodes of a
/// graph with `len` nodes.
pub open spec fn layer_inputs_in(layer: LayerView, x: Seq<usize>, len: nat) -> bool {
    forall|k: int|
        0 <= k < layer.neurons.len() ==> inputs_in(x, (#[trigger] layer.neurons[k]).w.len(), len)
}

impl Layer {
    /// Adds to `ctx` the leaves of a new layer of `nout` neurons with
    /// `nin` inputs each, neuron after neuron.
    pub(crate) fn build<S: Scalar>(
        ctx: &mut Graph<S>,
        nin: i16,
        nout: i16,
        nonlin: bool,
        scaled: bool,
    ) -> (r: Self)
        requires
            old(ctx).wf(),
        ensures
            fresh_layer(
                final(ctx)@,
                r@,
                old(ctx)@.len(),
                count(nin),
                count(nout),
                nonlin,
                scale_option::<S>(nin, scaled),
            ),
            final(ctx)@.len() == neuron_base(old(ctx)@.len(), count(nin), count(nout)),
            extends_graph(old(ctx)@, final(ctx)@),
            layer_in(r@, final(ctx)@.len()),
            final(ctx).wf(),
    {
        let mut neurons: Vec<Neuron> = Vec::new();
        let ghost base = old(ctx)@.len();
        let ghost n = count(nin);
        let ghost scale = scale_option::<S>(nin, scaled);
        let mut k: i16 = 0;
        while k < nout
            invariant
                0 <= k,
                k <= nout || k == 0,
                base == old(ctx)@.len(),
                n == count(nin),
                scale == scale_option::<S>(nin, scaled),
                ctx.wf(),
                extends_graph(old(ctx)@, ctx@),
                ctx@.len() == neuron_base(base, n, k as nat),
                neurons@.len() == k,
                forall|i: int|
                    0 <= i < k ==> {
                        &&& (#[trigger] neurons@[i])@ == neuron_at(
                            neuron_base(base, n, i as nat),
                            n,
                            nonlin,
                        )
                        &&& fresh_neuron(ctx@, neuron_base(base, n, i as nat), n, scale)
                    },
            decreases nout - k,
        {
            let ghost before = ctx@;
            let ghost earlier = neurons@;
            let neuron = Neuron::draw(ctx, nin, nonlin, scaled);
            neurons.push(neuron);
            proof {
                let words = choose|words: Seq<u64>|
                    words.len() == count(nin) && ctx@ == #[trigger] with_neuron(
                        before,
                        words,
                        scale,
                    );
                lemma_with_neuron(before, words, scale);
                assert((k + 1) * (n + 1) == k * (n + 1) + n + 1) by (nonlinear_arith);
                assert forall|i: int| 0 <= i < k + 1 implies {
                    &&& (#[trigger] neurons@[i])@ == neuron_at(
                        neuron_base(base, n, i as nat),
                        n,
                        nonlin,
                    )
                    &&& fresh_neuron(ctx@, neuron_base(base, n, i as nat), n, scale)
                } by {
                    if i < k {
                        assert(neurons@[i] == earlier[i]);
                        assert(fresh_neuron(before, neuron_base(base, n, i as nat), n, scale));
                        lemma_fresh_neuron_extends(
                            before,
                            ctx@,
                            neuron_base(base, n, i as nat),
                            n,
                            scale,
                        );
                    }
                }
            }
            k += 1;
        }
        let r = Self { neurons };
        proof {
            assert(k as nat == count(nout));
            assert forall|i: int| 0 <= i < count(nout) implies {
                &&& (#[trigger] r@.neurons[i]) == neuron_at(
                    neuron_base(base, n, i as nat),
                    n,
                    nonlin,
                )
                &&& fresh_neuron(ctx@, neuron_base(base, n, i as nat), n, scale)
            } by {
                assert(r@.neurons[i] == neurons@[i]@);
            }
            lemma_fresh_layer_in(ctx@, r@, base, n, count(nout), nonlin, scale);
        }
        r
    }

    /// Adds to `ctx` the leaves of a new layer of `nout` neurons with
    /// `nin` inputs each, neuron after neuron, with weights drawn at
    /// random and scaled for `nin` inputs. The contract says what holds
    /// whichever words were drawn.
    pub fn new<S: Scalar>(ctx: &mut Graph<S>, nin: i16, nout: i16, nonlin: bool) -> (r: Self)
        requires
            old(ctx).wf(),
        ensures
            fresh_layer(
                final(ctx)@,
                r@,
                old(ctx)@.len(),
                count(nin),
                count(nout),
                nonlin,
                scale_option::<S>(nin, true),
            ),
            final(ctx)@.len() == neuron_base(old(ctx)@.len(), count(nin), count(nout)),
            extends_graph(old(ctx)@, final(ctx)@),
            layer_in(r@, final(ctx)@.len()),
            final(ctx).wf(),
    {
        Self::build(ctx, nin, nout, nonlin, true)
    }

    /// Adds to `ctx` the nodes that compute the output of each neuron on
    /// the inputs `x`, neuron after neuron, and returns the nodes of the
    /// outputs.
    pub fn forward<S: Scalar>(&self, ctx: &mut Graph<S>, x: &[VariableIdx]) -> (out: Vec<
        VariableIdx,
    >)
        requires
            old(ctx).wf(),
            layer_in(self@, old(ctx)@.len()),
            layer_inputs_in(self@, x@, old(ctx)@.len()),
        ensures
            (final(ctx)@, out@) == layer_forward(old(ctx)@, self@, x@),
            final(ctx).wf(),
            extends_graph(old(ctx)@, final(ctx)@),
            out@.len() == self@.neurons.len(),
            forall|j: int| 0 <= j < out@.len() ==> (#[trigger] out@[j]) < final(ctx)@.len(),
            forall|j: int|
                0 <= j < out@.len() ==> final(ctx)@[(#[trigger] out@[j]) as int].data
                    == neuron_value(old(ctx)@, self@.neurons[j], x@),
    {
        let mut out: Vec<VariableIdx> = Vec::new();
        let mut k: usize = 0;
        while k < self.neurons.len()
            invariant
                k <= self@.neurons.len(),
                self@.neurons.len() == self.neurons@.len(),
                ctx.wf(),
                layer_in(self@, old(ctx)@.len()),
                layer_inputs_in(self@, x@, old(ctx)@.len()),
                extends_graph(old(ctx)@, ctx@),
                out@.len() == k,
                forall|j: int| 0 <= j < out@.len() ==> (#[trigger] out@[j]) < ctx@.len(),
                forall|j: int|
                    0 <= j < out@.len() ==> ctx@[(#[trigger] out@[j]) as int].data == neuron_value(
                        old(ctx)@,
                        self@.neurons[j],
                        x@,
                    ),
                layer_forward_from(ctx@, self@.neurons, x@, k as nat, out@) == layer_forward(
                    old(ctx)@,
                    self@,
                    x@,
                ),
            decreases self@.neurons.len() - k,
        {
            proof {
                assert(self@.neurons[k as int] == self.neurons@[k as int]@);
                assert(neuron_in(self@.neurons[k as int], old(ctx)@.len()));
                assert(inputs_in(x@, self@.neurons[k as int].w.len(), old(ctx)@.len()));
            }
            let ghost before = ctx@;
            let ghost earlier = out@;
            let o = self.neurons[k].forward(ctx, x);
            out.push(o);
            proof {
                lemma_neuron_value_extends(old(ctx)@, before, self@.neurons[k as int], x@);
                assert forall|j: int| 0 <= j < out@.len() implies ctx@[(#[trigger] out@[j]) as int].data
                    == neuron_value(old(ctx)@, self@.neurons[j], x@) by {
                    if j < k {
                        assert(out@[j] == earlier[j]);
                        assert(earlier[j] < before.len());
                    }
                }
            }
            k += 1;
        }
        out
    }

    /// The layer's parameters: those of its neurons, neuron after neuron.
    pub fn parameters(&self) -> (params: Vec<VariableIdx>)
        ensures
            params@ == layer_parameters(self@),
    {
        let mut params: Vec<VariableIdx> = Vec::new();
        let mut k: usize = 0;
        while k < self.neurons.len()
            invariant
                k <= self@.neurons.len(),
                self@.neurons.len() == self.neurons@.len(),
                params@ == neurons_parameters(self@.neurons, k as nat),
            decreases self@.neurons.len() - k,
        {
            proof {
                assert(self@.neurons[k as int] == self.neurons@[k as int]@);
            }
            let more = self.neurons[k].parameters();
            append(&mut params, &more);
            k += 1;
        }
        params
    }
}

/// A network: layers of neurons, each fed by the one before it.
pub struct MLP {
    layers: Vec<Layer>,
}

impl View for MLP {
    type V = MlpView;

    closed spec fn view(&self) -> MlpView {
        MlpView { layers: Seq::new(self.layers@.len(), |k: int| self.layers@[k]@) }
    }
}

/// Whether every input that a forward pass of `mlp` on `x` uses is a node
/// of a graph with `len` nodes: the inputs of the first layer are taken
/// from `x`, those of every other layer are made by the pass itself.
pub open spec fn mlp_inputs_in(mlp: MlpView, x: Seq<usize>, len: nat) -> bool {
    if mlp.layers.len() == 0 {
        true
    } else {
        layer_inputs_in(mlp.layers[0], x, len)
    }
}

impl MLP {
    /// Adds to `ctx` the leaves of a new network with `nin` inputs whose
    /// layers have `nouts` outputs, layer after layer.
    pub(crate) fn build<S: Scalar>(ctx: &mut Graph<S>, nin: i16, nouts: Vec<i16>, scaled: bool) -> (r:
        Self)
        requires
            old(ctx).wf(),
            nouts@.len() > 0,
        ensures
            fresh_mlp(final(ctx)@, r@, old(ctx)@.len(), nin, nouts@, scaled),
            final(ctx)@.len() == old(ctx)@.len() + mlp_size(nin, nouts@, nouts@.len()),
            extends_graph(old(ctx)@, final(ctx)@),
            mlp_in(r@, final(ctx)@.len()),
            final(ctx).wf(),
    {
        let mut layers: Vec<Layer> = Vec::new();
        let n: usize = nouts.len();
        let ghost base = old(ctx)@.len();
        let first = Layer::build(ctx, nin, nouts[0], n > 1, scaled);
        layers.push(first);
        proof {
            assert(mlp_size(nin, nouts@, 0) == 0);
            assert(mlp_size(nin, nouts@, 1) == count(nouts@[0]) * (count(nin) + 1)) by {
                reveal_with_fuel(mlp_size, 2);
            }
            assert(neuron_base(base, count(nin), count(nouts@[0])) == base + count(nouts@[0]) * (
            count(nin) + 1));
        }
        let mut i: usize = 1;
        while i < n
            invariant
                1 <= i <= n,
                n == nouts@.len(),
                base == old(ctx)@.len(),
                ctx.wf(),
                extends_graph(old(ctx)@, ctx@),
                ctx@.len() == base + mlp_size(nin, nouts@, i as nat),
                layers@.len() == i,
                forall|l: int|
                    0 <= l < i ==> fresh_layer(
                        ctx@,
                        (#[trigger] layers@[l])@,
                        base + mlp_size(nin, nouts@, l as nat),
                        count(fan_in(nin, nouts@, l)),
                        count(nouts@[l]),
                        l + 1 < n,
                        scale_option::<S>(fan_in(nin, nouts@, l), scaled),
                    ),
            decreases n - i,
        {
            let is_last = i == n - 1;
            let ghost before = ctx@;
            let layer = Layer::build(ctx, nouts[i - 1], nouts[i], !is_last, scaled);
            proof {
                assert(fan_in(nin, nouts@, i as int) == nouts@[i - 1]);
                assert forall|l: int| 0 <= l < i implies fresh_layer(
                    ctx@,
                    (#[trigger] layers@[l])@,
                    base + mlp_size(nin, nouts@, l as nat),
                    count(fan_in(nin, nouts@, l)),
                    count(nouts@[l]),
                    l + 1 < n,
                    scale_option::<S>(fan_in(nin, nouts@, l), scaled),
                ) by {
                    lemma_fresh_layer_extends(
                        before,
                        ctx@,
                        layers@[l]@,
                        base + mlp_size(nin, nouts@, l as nat),
                        count(fan_in(nin, nouts@, l)),
                        count(nouts@[l]),
                        l + 1 < n,
                        scale_option::<S>(fan_in(nin, nouts@, l), scaled),
                    );
                }
            }
            layers.push(layer);
            i += 1;
        }
        let r = Self { layers };
        proof {
            assert forall|l: int| 0 <= l < nouts@.len() implies fresh_layer(
                ctx@,
                #[trigger] r@.layers[l],
                base + mlp_size(nin, nouts@, l as nat),
                count(fan_in(nin, nouts@, l)),
                count(nouts@[l]),
                l + 1 < nouts@.len(),
                scale_option::<S>(fan_in(nin, nouts@, l), scaled),
            ) by {
                assert(r@.layers[l] == layers@[l]@);
            }
        }
        r
    }

    /// Adds to `ctx` the leaves of a new network with `nin` inputs whose
    /// layers have `nouts` outputs, layer after layer, with weights drawn
    /// at random and scaled for the inputs of their layer. Every layer but
    /// the last goes through the rectifier. The contract says what holds
    /// whichever words were drawn.
    pub fn new<S: Scalar>(ctx: &mut Graph<S>, nin: i16, nouts: Vec<i16>) -> (r: Self)
        requires
            old(ctx).wf(),
            nouts@.len() > 0,
        ensures
            fresh_mlp(final(ctx)@, r@, old(ctx)@.len(), nin, nouts@, true),
            final(ctx)@.len() == old(ctx)@.len() + mlp_size(nin, nouts@, nouts@.len()),
            extends_graph(old(ctx)@, final(ctx)@),
            mlp_in(r@, final(ctx)@.len()),
            final(ctx).wf(),
    {
        Self::build(ctx, nin, nouts, true)
    }

    /// Adds to `ctx` the nodes that compute the network's output on the
    /// inputs `x`, layer after layer, and returns the nodes of the output
    /// of the last layer.
    pub fn forward<S: Scalar>(&self, ctx: &mut Graph<S>, x: &[VariableIdx]) -> (out: Vec<
        VariableIdx,
    >)
        requires
            old(ctx).wf(),
            mlp_in(self@, old(ctx)@.len()),
            mlp_inputs_in(self@, x@, old(ctx)@.len()),
        ensures
            (final(ctx)@, out@) == mlp_forward(old(ctx)@, self@, x@),
            final(ctx).wf(),
            extends_graph(old(ctx)@, final(ctx)@),
            self@.layers.len() > 0 ==> forall|j: int|
                0 <= j < out@.len() ==> (#[trigger] out@[j]) < final(ctx)@.len(),
    {
        let mut out = copied(x);
        let mut k: usize = 0;
        while k < self.layers.len()
            invariant
                k <= self@.layers.len(),
                self@.layers.len() == self.layers@.len(),
                ctx.wf(),
                mlp_in(self@, old(ctx)@.len()),
                extends_graph(old(ctx)@, ctx@),
                k == 0 ==> out@ == x@ && ctx@ == old(ctx)@ && mlp_inputs_in(
                    self@,
                    x@,
                    old(ctx)@.len(),
                ),
                k > 0 ==> forall|j: int| 0 <= j < out@.len() ==> (#[trigger] out@[j]) < ctx@.len(),
                mlp_forward_from(ctx@, self@.layers, out@, k as nat) == mlp_forward(
                    old(ctx)@,
                    self@,
                    x@,
                ),
            decreases self@.layers.len() - k,
        {
            proof {
                assert(self@.layers[k as int] == self.layers@[k as int]@);
                assert(layer_in(self@.layers[k as int], old(ctx)@.len()));
                let layer = self@.layers[k as int];
                assert forall|i: int| 0 <= i < layer.neurons.len() implies neuron_in(
                    #[trigger] layer.neurons[i],
                    ctx@.len(),
                ) by {
                    assert(neuron_in(layer.neurons[i], old(ctx)@.len()));
                }
            }
            out = self.layers[k].forward(ctx, out.as_slice());
            k += 1;
        }
        out
    }

    /// The network's parameters: those of its layers, layer after layer.
    pub fn parameters(&self) -> (params: Vec<VariableIdx>)
        ensures
            params@ == mlp_parameters(self@),
    {
        let mut params: Vec<VariableIdx> = Vec::new();
        let mut k: usize = 0;
        while k < self.layers.len()
            invariant
                k <= self@.layers.len(),
                self@.layers.len() == self.layers@.len(),
                params@ == layers_parameters(self@.layers, k as nat),
            decreases self@.layers.len() - k,
        {
            proof {
                assert(self@.layers[k as int] == self.layers@[k as int]@);
            }
            let more = self.layers[k].parameters();
            append(&mut params, &more);
            k += 1;
        }
        params
    }
}

} // verus!
