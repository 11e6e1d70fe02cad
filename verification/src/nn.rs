//! Neurons, layers and networks whose weights start out uniform between
//! minus one and one.
use vstd::prelude::*;
use crate::graph::{extends_graph, Graph};
use crate::model::{
    count, fresh_layer, fresh_mlp, layer_forward, layer_in, layer_parameters, mlp_forward,
    mlp_in, mlp_parameters, mlp_size, neuron_at, neuron_base, neuron_forward, neuron_in,
    neuron_parameters, neuron_value, terms, with_neuron, inputs_in, LayerView, MlpView,
    NeuronView,
};
use crate::nn_raw::{layer_inputs_in, mlp_inputs_in, VariableIdx};
use crate::scalar::Scalar;

verus! {

/// A neuron: a weight for each input, a bias, and a rectifier or none.
pub struct Neuron {
    inner: crate::nn_raw::Neuron,
}

impl View for Neuron {
    type V = NeuronView;

    closed spec fn view(&self) -> NeuronView {
        self.inner@
    }
}

impl Neuron {
    /// Adds to `ctx` the leaves of a new neuron whose weights are those
    /// that the random `words` stand for, and returns the neuron.
    pub fn from_words<S: Scalar>(ctx: &mut Graph<S>, words: &[u64], nonlin: bool) -> (r: Self)
        requires
            old(ctx).wf(),
        ensures
            final(ctx)@ == with_neuron(old(ctx)@, words@, None),
            r@ == neuron_at(old(ctx)@.len(), words@.len(), nonlin),
            neuron_in(r@, final(ctx)@.len()),
            final(ctx).wf(),
    {
        Self { inner: crate::nn_raw::Neuron::build(ctx, words, None, nonlin) }
    }

    /// Adds to `ctx` the leaves of a new neuron with `nin` inputs: `nin`
    /// weights drawn at random, uniform between minus one and one, then a
    /// bias of zero. The contract says what holds whichever words were
    /// drawn.
    pub fn new<S: Scalar>(ctx: &mut Graph<S>, nin: i16, nonlin: bool) -> (r: Self)
        requires
            old(ctx).wf(),
        ensures
            exists|words: Seq<u64>|
                words.len() == count(nin) && final(ctx)@ == #[trigger] with_neuron(
                    old(ctx)@,
                    words,
                    None,
                ),
            r@ == neuron_at(old(ctx)@.len(), count(nin), nonlin),
            neuron_in(r@, final(ctx)@.len()),
            final(ctx).wf(),
    {
        Self { inner: crate::nn_raw::Neuron::draw(ctx, nin, nonlin, false) }
    }

    /// Adds to `ctx` the nodes that compute the neuron's output on the
    /// inputs `x`, and returns the node of the output.
    pub fn forward<S: Scalar>(&self, ctx: &mut Graph<S>, x: &[VariableIdx]) -> (r: VariableIdx)
        requires
            old(ctx).wf(),
            neuron_in(self@, old(ctx)@.len()),
            inputs_in(x@, self@.w.len(), old(ctx)@.len()),
        ensures
            (final(ctx)@, r) == neuron_forward(old(ctx)@, self@, x@),
            final(ctx)@[r as int].data == neuron_value(old(ctx)@, self@, x@),
            final(ctx).wf(),
            extends_graph(old(ctx)@, final(ctx)@),
            r < final(ctx)@.len(),
            final(ctx)@.len() == old(ctx)@.len() + 2 * terms(self@.w, x@) + (if self@.nonlin {
                1nat
            } else {
                0nat
            }),
    {
        self.inner.forward(ctx, x)
    }

    /// The neuron's parameters: its weights, then its bias.
    pub fn parameters(&self) -> (params: Vec<VariableIdx>)
        ensures
            params@ == neuron_parameters(self@),
    {
        self.inner.parameters()
    }
}

/// A layer of neurons that all see the same inputs.
pub struct Layer {
    inner: crate::nn_raw::Layer,
}

impl View for Layer {
    type V = LayerView;

    closed spec fn view(&self) -> LayerView {
        self.inner@
    }
}

impl Layer {
    /// Adds to `ctx` the leaves of a new layer of `nout` neurons with
    /// `nin` inputs each, neuron after neuron, with weights drawn at
    /// random. The contract says what holds whichever words were drawn.
    pub fn new<S: Scalar>(ctx: &mut Graph<S>, nin: i16, nout: i16, nonlin: bool) -> (r: Self)
        requires
            old(ctx).wf(),
        ensures
            fresh_layer(final(ctx)@, r@, old(ctx)@.len(), count(nin), count(nout), nonlin, None),
            final(ctx)@.len() == neuron_base(old(ctx)@.len(), count(nin), count(nout)),
            extends_graph(old(ctx)@, final(ctx)@),
            layer_in(r@, final(ctx)@.len()),
            final(ctx).wf(),
    {
        Self { inner: crate::nn_raw::Layer::build(ctx, nin, nout, nonlin, false) }
    }

    /// Adds to `ctx` the nodes that compute the output of each neuron on
    /// the inputs `x`, neuron after neuron, and returns the nodes of the
    /// outputs.
    pub fn forward<S: Scalar>(&self, ctx: &mut Graph<S>, x: &[VariableIdx]) -> (out: Vec<
        VariableIdx,
    >)
        requires
            old(ctx).wf(),
            layer_in(self@, old(ctx)@.len()),
            layer_inputs_in(self@, x@, old(ctx)@.len()),
        ensures
            (final(ctx)@, out@) == layer_forward(old(ctx)@, self@, x@),
            final(ctx).wf(),
            extends_graph(old(ctx)@, final(ctx)@),
            out@.len() == self@.neurons.len(),
            forall|j: int| 0 <= j < out@.len() ==> (#[trigger] out@[j]) < final(ctx)@.len(),
            forall|j: int|
                0 <= j < out@.len() ==> final(ctx)@[(#[trigger] out@[j]) as int].data
                    == neuron_value(old(ctx)@, self@.neurons[j], x@),
    {
        self.inner.forward(ctx, x)
    }

    /// The layer's parameters: those of its neurons, neuron after neuron.
    pub fn parameters(&self) -> (params: Vec<VariableIdx>)
        ensures
            params@ == layer_parameters(self@),
    {
        self.inner.parameters()
    }
}

/// A network: layers of neurons, each fed by the one before it.
pub struct MLP {
    inner: crate::nn_raw::MLP,
}

impl View for MLP {
    type V = MlpView;

    closed spec fn view(&self) -> MlpView {
        self.inner@
    }
}

impl MLP {
    /// Adds to `ctx` the leaves of a new network with `nin` inputs whose
    /// layers have `nouts` outputs, layer after layer, with weights drawn
    /// at random. Every layer but the last goes through the rectifier.
    /// The contract says what holds whichever words were drawn.
    pub fn new<S: Scalar>(ctx: &mut Graph<S>, nin: i16, nouts: Vec<i16>) -> (r: Self)
        requires
            old(ctx).wf(),
            nouts@.len() > 0,
        ensures
            fresh_mlp(final(ctx)@, r@, old(ctx)@.len(), nin, nouts@, false),
            final(ctx)@.len() == old(ctx)@.len() + mlp_size(nin, nouts@, nouts@.len()),
            extends_graph(old(ctx)@, final(ctx)@),
            mlp_in(r@, final(ctx)@.len()),
            final(ctx).wf(),
    {
        Self { inner: crate::nn_raw::MLP::build(ctx, nin, nouts, false) }
    }

    /// Adds to `ctx` the nodes that compute the network's output on the
    /// inputs `x`, layer after layer, and returns the nodes of the output
    /// of the last layer.
    pub fn forward<S: Scalar>(&self, ctx: &mut Graph<S>, x: &[VariableIdx]) -> (out: Vec<
        VariableIdx,
    >)
        requires
            old(ctx).wf(),
            mlp_in(self@, old(ctx)@.len()),
            mlp_inputs_in(self@, x@, old(ctx)@.len()),
        ensures
            (final(ctx)@, out@) == mlp_forward(old(ctx)@, self@, x@),
            final(ctx).wf(),
            extends_graph(old(ctx)@, final(ctx)@),
            self@.layers.len() > 0 ==> forall|j: int|
                0 <= j < out@.len() ==> (#[trigger] out@[j]) < final(ctx)@.len(),
    {
        self.inner.forward(ctx, x)
    }

    /// The network's parameters: those of its layers, layer after layer.
    pub fn parameters(&self) -> (params: Vec<VariableIdx>)
        ensures
            params@ == mlp_parameters(self@),
    {
        self.inner.parameters()
    }
}

} // verus!
