//! A network: layers in order, each fed by the one before it.
use crate::layer::{layer_wf, same_layer, Layer};
use crate::matrix::WeightMatrix;
use crate::neuron::LifNeuron;
use crate::spike::{new_output, record_output, times_of, trains_well_formed, Spike};
use vstd::prelude::*;

verus! {

/// Why a layer cannot be appended to a network.
#[derive(Clone, Copy, Debug, PartialEq, Eq, Structural)]
pub enum NetworkError {
    /// The layer has no neuron.
    EmptyLayer,
    /// The lateral weights are not `n` x `n`.
    IncompatibleIntraWeights,
    /// The input weights do not have one row per neuron of the previous layer
    /// (per neuron of this layer, for the first one) and one column per neuron.
    IncompatibleInputWeights,
}

impl NetworkError {
    /// A sentence that says what went wrong.
    pub fn message(&self) -> (r: &'static str)
        ensures
            r@ == match self {
                NetworkError::EmptyLayer => "The number of neurons should be at least 1"@,
                NetworkError::IncompatibleIntraWeights => "Incompatible intra weight matrix"@,
                NetworkError::IncompatibleInputWeights => "Incompatible input weight matrix"@,
            },
    {
        match self {
            NetworkError::EmptyLayer => "The number of neurons should be at least 1",
            NetworkError::IncompatibleIntraWeights => "Incompatible intra weight matrix",
            NetworkError::IncompatibleInputWeights => "Incompatible input weight matrix",
        }
    }
}

/// A spiking neural network of leaky-integrate-and-fire neurons.
#[derive(Debug)]
pub struct NN {
    /// The layers, from the input layer to the output layer.
    pub layers: Vec<Layer>,
}

/// Rows of input weights that a layer of `n` neurons needs after the layers
/// `prev`: one per neuron of the last of them, or `n` for the first layer.
pub open spec fn input_rows_after(prev: Seq<Layer>, n: nat) -> nat {
    if prev.len() == 0 || prev.last().neurons@.len() == 0 {
        n
    } else {
        prev.last().neurons@.len()
    }
}

/// Every layer is well formed and fed by the one before it.
pub open spec fn layers_wf(layers: Seq<Layer>) -> bool {
    forall|i: int|
        0 <= i < layers.len() ==> layer_wf(#[trigger] layers[i]) && layers[i].input_weights.spec_rows()
            == input_rows_after(layers.take(i), layers[i].neurons@.len())
}

/// What appending a layer with these parts to `layers` gives.
pub open spec fn layer_check(
    layers: Seq<Layer>,
    n: nat,
    input_weights: WeightMatrix,
    intra_weights: WeightMatrix,
) -> Result<(), NetworkError> {
    if n == 0 {
        Err(NetworkError::EmptyLayer)
    } else if intra_weights.spec_rows() != n || intra_weights.spec_cols() != n {
        Err(NetworkError::IncompatibleIntraWeights)
    } else if input_weights.spec_rows() != input_rows_after(layers, n)
        || input_weights.spec_cols() != n {
        Err(NetworkError::IncompatibleInputWeights)
    } else {
        Ok(())
    }
}

/// The spike trains that the output layer's batches `batches` make, neuron
/// by neuron, for a table of `n` neurons.
pub open spec fn trains_of(batches: Seq<Vec<Spike>>, i: int) -> Seq<u128>
    decreases batches.len(),
{
    if batches.len() == 0 {
        seq![]
    } else {
        trains_of(batches.drop_last(), i) + times_of(batches.last()@, i)
    }
}

impl Clone for NN {
    fn clone(&self) -> (r: Self)
        ensures
            r.layers@.len() == self.layers@.len(),
            forall|i: int| 0 <= i < self.layers@.len() ==> same_layer(#[trigger] r.layers@[i], self.layers@[i]),
    {
        let mut layers: Vec<Layer> = Vec::new();
        let mut i: usize = 0;
        while i < self.layers.len()
            invariant
                i <= self.layers@.len(),
                layers@.len() == i,
                forall|k: int| 0 <= k < i ==> same_layer(#[trigger] layers@[k], self.layers@[k]),
            decreases self.layers@.len() - i,
        {
            layers.push(self.layers[i].clone());
            i += 1;
        }
        NN { layers }
    }
}

impl NN {
    /// A network with no layer.
    pub fn new() -> (r: NN)
        ensures
            r.layers@.len() == 0,
    {
        NN { layers: Vec::new() }
    }

    /// Appends a layer of `neurons` with the given input and lateral weights,
    /// or tells why they do not fit this network.
    pub fn layer(
        self,
        neurons: Vec<LifNeuron>,
        input_weights: WeightMatrix,
        intra_weights: WeightMatrix,
    ) -> (r: Result<NN, NetworkError>)
        ensures
            match layer_check(self.layers@, neurons@.len(), input_weights, intra_weights) {
                Ok(_) => r is Ok && r.unwrap().layers@ == self.layers@.push(
                    Layer { neurons, input_weights, intra_weights },
                ),
                Err(e) => r == Err::<NN, NetworkError>(e),
            },
            layers_wf(self.layers@) && r is Ok ==> layers_wf(r.unwrap().layers@),
    {
        let mut nn = self;
        let n = neurons.len();
        let len_last_layer: usize = if nn.layers.len() == 0 {
            0
        } else {
            nn.layers[nn.layers.len() - 1].num_neurons()
        };
        if n == 0 {
            return Err(NetworkError::EmptyLayer);
        }
        if intra_weights.rows() != n || intra_weights.cols() != n {
            return Err(NetworkError::IncompatibleIntraWeights);
        }
        let rows_needed = if len_last_layer == 0 { n } else { len_last_layer };
        if input_weights.rows() != rows_needed || input_weights.cols() != n {
            return Err(NetworkError::IncompatibleInputWeights);
        }
        let ghost old_layers = nn.layers@;
        nn.layers.push(Layer { neurons, input_weights, intra_weights });
        proof {
            if layers_wf(old_layers) {
                assert forall|i: int| 0 <= i < nn.layers@.len() implies layer_wf(#[trigger] nn.layers@[i])
                    && nn.layers@[i].input_weights.spec_rows() == input_rows_after(
                    nn.layers@.take(i),
                    nn.layers@[i].neurons@.len(),
                ) by {
                    if i < old_layers.len() {
                        assert(nn.layers@.take(i) =~= old_layers.take(i));
                    } else {
                        assert(nn.layers@.take(i) =~= old_layers);
                    }
                }
            }
        }
        Ok(nn)
    }

    /// Number of layers.
    pub fn get_num_layers(&self) -> (r: usize)
        ensures
            r == self.layers@.len(),
    {
        self.layers.len()
    }

    /// Whether every spike comes from a neuron that the input layer has.
    pub fn accepts_input(&self, spikes: &Vec<Spike>) -> (r: bool)
        requires
            self.layers@.len() > 0,
        ensures
            r == forall|k: int|
                0 <= k < spikes@.len() ==> (#[trigger] spikes@[k]).neuron_id < self.layers@[0].neurons@.len(),
    {
        let n = self.layers[0].num_neurons();
        let mut k: usize = 0;
        while k < spikes.len()
            invariant
                n == self.layers@[0].neurons@.len(),
                k <= spikes@.len(),
                forall|j: int| 0 <= j < k ==> (#[trigger] spikes@[j]).neuron_id < n,
            decreases spikes@.len() - k,
        {
            if spikes[k].neuron_id >= n {
                return false;
            }
            k += 1;
        }
        true
    }

    /// The spike trains of the output layer, given the batches of spikes it
    /// emitted in order: one entry per neuron of the output layer, entry `i`
    /// holding the times at which neuron `i` fired.
    pub fn collect_output(&self, batches: &Vec<Vec<Spike>>) -> (r: Vec<(u128, Vec<u128>)>)
        requires
            self.layers@.len() > 0,
        ensures
            r@.len() == self.layers@.last().neurons@.len(),
            trains_well_formed(r@),
            forall|i: int| 0 <= i < r@.len() ==> (#[trigger] r@[i]).1@ == trains_of(batches@, i),
    {
        let n = self.layers[self.layers.len() - 1].num_neurons();
        let mut out = new_output(n);
        let mut k: usize = 0;
        while k < batches.len()
            invariant
                k <= batches@.len(),
                out@.len() == n,
                trains_well_formed(out@),
                forall|i: int| 0 <= i < n ==> (#[trigger] out@[i]).1@ == trains_of(batches@.take(k as int), i),
            decreases batches@.len() - k,
        {
            record_output(&mut out, &batches[k]);
            proof {
                assert(batches@.take(k + 1).drop_last() =~= batches@.take(k as int));
                assert forall|i: int| 0 <= i < n implies (#[trigger] out@[i]).1@ == trains_of(batches@.take(k + 1), i) by {
                    assert(out@[i].1@ == trains_of(batches@.take(k as int), i) + times_of(batches@[k as int]@, i));
                }
            }
            k += 1;
        }
        proof {
            assert(batches@.take(k as int) =~= batches@);
        }
        out
    }
}

} // verus!
