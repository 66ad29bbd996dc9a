//! A layer of neurons with its input and lateral weights, and the faults that
//! can be injected into its neurons.
use crate::fault::Stuck;
use crate::matrix::WeightMatrix;
use crate::neuron::{
    fresh_heap_for, same_neuron, with_parameter_fault, LeakyIntegrateFire, LifNeuron, NeuronField,
};
use crate::spike::Spike;
use vstd::prelude::*;

verus! {

/// One layer: its neurons, the weights from the previous layer (rows: neurons
/// of the previous layer, columns: neurons of this one) and the square matrix
/// of lateral weights between its own neurons.
#[derive(Debug)]
pub struct Layer {
    pub neurons: Vec<LifNeuron>,
    pub input_weights: WeightMatrix,
    pub intra_weights: WeightMatrix,
}

/// At least one neuron, lateral weights `n` x `n`, one input column per neuron.
pub open spec fn layer_wf(l: Layer) -> bool {
    let n = l.neurons@.len();
    &&& n > 0
    &&& l.intra_weights.spec_rows() == n
    &&& l.intra_weights.spec_cols() == n
    &&& l.input_weights.spec_cols() == n
}

/// `a` and `b` hold the same neurons and weights.
pub open spec fn same_layer(a: Layer, b: Layer) -> bool {
    &&& a.neurons@.len() == b.neurons@.len()
    &&& forall|i: int| 0 <= i < a.neurons@.len() ==> same_neuron(#[trigger] a.neurons@[i], b.neurons@[i])
    &&& a.input_weights@ == b.input_weights@
    &&& a.intra_weights@ == b.intra_weights@
}

/// The weights of `m` from the neuron of each spike to neuron `to`, in the
/// order of the spikes.
pub open spec fn weights_from(m: WeightMatrix, spikes: Seq<Spike>, to: int) -> Seq<u64> {
    spikes.map_values(|s: Spike| m.at(s.neuron_id as int, to))
}

/// `new` is `old` after fault `stuck` was injected into `field`, for a neuron
/// with `num_inputs` input weights.
pub open spec fn fault_injected(
    old: LifNeuron,
    new: LifNeuron,
    field: NeuronField,
    stuck: Stuck,
    num_inputs: nat,
) -> bool {
    match field {
        NeuronField::MembranePotential => {
            &&& new.injection_vmem is Some
            &&& new.injection_vmem.unwrap()@.0 == stuck
            &&& new.injection_vmem.unwrap()@.1 < 64
            &&& new == LifNeuron { injection_vmem: new.injection_vmem, ..old }
        },
        NeuronField::FullAdder => {
            &&& new.heap_tree is Some
            &&& fresh_heap_for(new.heap_tree.unwrap()@, stuck, num_inputs)
            &&& new == LifNeuron { heap_tree: new.heap_tree, ..old }
        },
        NeuronField::Comparator => new == old,
        _ => exists|b: u64| b < 64 && new == with_parameter_fault(old, field, stuck, b),
    }
}

impl Clone for Layer {
    fn clone(&self) -> (r: Self)
        ensures
            same_layer(r, *self),
    {
        let mut neurons: Vec<LifNeuron> = Vec::new();
        let mut i: usize = 0;
        while i < self.neurons.len()
            invariant
                i <= self.neurons@.len(),
                neurons@.len() == i,
                forall|k: int| 0 <= k < i ==> same_neuron(#[trigger] neurons@[k], self.neurons@[k]),
            decreases self.neurons@.len() - i,
        {
            neurons.push(self.neurons[i].clone());
            i += 1;
        }
        Layer {
            neurons,
            input_weights: self.input_weights.clone(),
            intra_weights: self.intra_weights.clone(),
        }
    }
}

impl Layer {
    /// Number of neurons.
    pub fn num_neurons(&self) -> (r: usize)
        ensures
            r == self.neurons@.len(),
    {
        self.neurons.len()
    }

    /// Neuron `neuron`, or `None` past the last one.
    pub fn get_neuron(&self, neuron: usize) -> (r: Option<&LifNeuron>)
        ensures
            r == if neuron < self.neurons@.len() {
                Some(&self.neurons@[neuron as int])
            } else {
                None::<&LifNeuron>
            },
    {
        if neuron < self.neurons.len() {
            Some(&self.neurons[neuron])
        } else {
            None
        }
    }

    /// Neuron `neuron`, to be changed in place, or `None` past the last one.
    pub fn get_neuron_mut(&mut self, neuron: usize) -> (r: Option<&mut LifNeuron>)
        ensures
            neuron < old(self).neurons@.len() ==> r is Some && *r.unwrap() == old(self).neurons@[neuron as int]
                && final(self).neurons@ == old(self).neurons@.update(neuron as int, *final(r.unwrap())),
            neuron >= old(self).neurons@.len() ==> r is None && final(self).neurons@ == old(self).neurons@,
            final(self).input_weights == old(self).input_weights,
            final(self).intra_weights == old(self).intra_weights,
    {
        if neuron < self.neurons.len() {
            Some(&mut self.neurons[neuron])
        } else {
            None
        }
    }

    /// Lateral weight from neuron `from` to neuron `to`, or `None` outside the layer.
    pub fn get_intra_weight(&self, from: usize, to: usize) -> (r: Option<u64>)
        ensures
            r == if from < self.intra_weights.spec_rows() && to < self.intra_weights.spec_cols() {
                Some(self.intra_weights.at(from as int, to as int))
            } else {
                None::<u64>
            },
    {
        self.intra_weights.get(from, to)
    }

    /// The input weights from the neurons that fired `spikes` to neuron
    /// `neuron_idx`: the terms of its feed-forward weighted sum.
    pub fn input_terms(&self, spikes: &Vec<Spike>, neuron_idx: usize) -> (r: Vec<u64>)
        requires
            neuron_idx < self.input_weights.spec_cols(),
            forall|k: int|
                0 <= k < spikes@.len() ==> (#[trigger] spikes@[k]).neuron_id
                    < self.input_weights.spec_rows(),
        ensures
            r@ == weights_from(self.input_weights, spikes@, neuron_idx as int),
    {
        gather_weights(&self.input_weights, spikes, neuron_idx)
    }

    /// The lateral weights from the neurons of this layer that fired `spikes`
    /// to neuron `neuron_idx`: the terms of its lateral update.
    pub fn intra_terms(&self, spikes: &Vec<Spike>, neuron_idx: usize) -> (r: Vec<u64>)
        requires
            neuron_idx < self.intra_weights.spec_cols(),
            forall|k: int|
                0 <= k < spikes@.len() ==> (#[trigger] spikes@[k]).neuron_id
                    < self.intra_weights.spec_rows(),
        ensures
            r@ == weights_from(self.intra_weights, spikes@, neuron_idx as int),
    {
        gather_weights(&self.intra_weights, spikes, neuron_idx)
    }

    /// Injects fault `stuck` into `field` of neuron `neuron_id`; the other
    /// neurons and the weights stay as they are. A comparator fault leaves
    /// the neuron as it is: the threshold comparison holds no stored bits.
    pub fn fault_neuron(&mut self, stuck: Stuck, neuron_id: usize, field: NeuronField)
        requires
            neuron_id < old(self).neurons@.len(),
            old(self).input_weights.spec_rows() <= usize::MAX / 4,
        ensures
            final(self).neurons@.len() == old(self).neurons@.len(),
            forall|i: int|
                0 <= i < old(self).neurons@.len() && i != neuron_id ==> #[trigger] final(self).neurons@[i]
                    == old(self).neurons@[i],
            fault_injected(
                old(self).neurons@[neuron_id as int],
                final(self).neurons@[neuron_id as int],
                field,
                stuck,
                old(self).input_weights.spec_rows(),
            ),
            final(self).input_weights == old(self).input_weights,
            final(self).intra_weights == old(self).intra_weights,
    {
        let num_inputs = self.input_weights.rows();
        match field {
            NeuronField::Threshold => LeakyIntegrateFire::update_v_th(&mut self.neurons[neuron_id], stuck),
            NeuronField::RestPotential => LeakyIntegrateFire::update_v_rest(&mut self.neurons[neuron_id], stuck),
            NeuronField::ResetPotential => LeakyIntegrateFire::update_v_reset(&mut self.neurons[neuron_id], stuck),
            NeuronField::TimeConstant => LeakyIntegrateFire::update_tau(&mut self.neurons[neuron_id], stuck),
            NeuronField::MembranePotential => LeakyIntegrateFire::use_v_mem_with_injection(
                &mut self.neurons[neuron_id],
                stuck,
            ),
            NeuronField::FullAdder => LeakyIntegrateFire::use_heap(&mut self.neurons[neuron_id], stuck, num_inputs),
            NeuronField::Comparator => {},
        }
    }

    /// Injects fault `stuck` into the field of neuron `neuron_id` named
    /// `neuron_data` (see `NeuronField::from_name`); returns that field, or
    /// `None`, with the layer unchanged, when the name designates none (the
    /// neuron index is then not looked at).
    pub fn stuck_bit_neuron(&mut self, stuck: Stuck, neuron_id: usize, neuron_data: &str) -> (r: Option<NeuronField>)
        requires
            crate::neuron::field_named(neuron_data@) is Some ==> neuron_id < old(self).neurons@.len()
                && old(self).input_weights.spec_rows() <= usize::MAX / 4,
        ensures
            r == crate::neuron::field_named(neuron_data@),
            r is None ==> *final(self) == *old(self),
            r is Some ==> {
                &&& final(self).neurons@.len() == old(self).neurons@.len()
                &&& forall|i: int|
                    0 <= i < old(self).neurons@.len() && i != neuron_id ==> #[trigger] final(self).neurons@[i]
                        == old(self).neurons@[i]
                &&& fault_injected(
                    old(self).neurons@[neuron_id as int],
                    final(self).neurons@[neuron_id as int],
                    r.unwrap(),
                    stuck,
                    old(self).input_weights.spec_rows(),
                )
                &&& final(self).input_weights == old(self).input_weights
                &&& final(self).intra_weights == old(self).intra_weights
            },
    {
        let field = NeuronField::from_name(neuron_data);
        match field {
            Some(f) => {
                self.fault_neuron(stuck, neuron_id, f);
            },
            None => {},
        }
        field
    }
}

/// The entries of `m` from the neuron of each spike to neuron `to`.
fn gather_weights(m: &WeightMatrix, spikes: &Vec<Spike>, to: usize) -> (r: Vec<u64>)
    requires
        to < m.spec_cols(),
        forall|k: int| 0 <= k < spikes@.len() ==> (#[trigger] spikes@[k]).neuron_id < m.spec_rows(),
    ensures
        r@ == weights_from(*m, spikes@, to as int),
{
    let mut r: Vec<u64> = Vec::new();
    let mut k: usize = 0;
    while k < spikes.len()
        invariant
            to < m.spec_cols(),
            forall|j: int| 0 <= j < spikes@.len() ==> (#[trigger] spikes@[j]).neuron_id < m.spec_rows(),
            k <= spikes@.len(),
            r@ == weights_from(*m, spikes@.take(k as int), to as int),
        decreases spikes@.len() - k,
    {
        let w = m.get(spikes[k].neuron_id, to).unwrap();
        r.push(w);
        proof {
            assert(weights_from(*m, spikes@.take(k + 1), to as int) =~= weights_from(*m, spikes@.take(k as int), to as int).push(w));
        }
        k += 1;
    }
    proof {
        assert(spikes@.take(k as int) =~= spikes@);
    }
    r
}

} // verus!
