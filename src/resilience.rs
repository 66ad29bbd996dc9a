//! Resilience trials: which fault a trial injects, where, and the tally of
//! trials whose output matched the fault-free run.
use crate::fault::Stuck;
use crate::layer::{fault_injected, Layer};
use crate::network::NN;
use crate::neuron::NeuronField;
use crate::random::random_below;
use crate::spike::{are_equal, same_trains};
use crate::text::{lower_of, lowercase, same_text};
use vstd::prelude::*;

verus! {

/// Category of component that a trial can fault.
#[derive(Clone, Copy, Debug, PartialEq, Eq, Structural)]
pub enum Component {
    /// A stored parameter of a neuron (rest, reset, threshold, time constant).
    Neurons,
    /// The membrane potential of a neuron.
    MembranePotential,
    /// The adder that sums a neuron's weighted inputs.
    FullAdder,
    /// The threshold comparator of a neuron.
    Comparator,
}

/// The category a lowercase component name designates.
pub open spec fn component_named(s: Seq<char>) -> Option<Component> {
    if s == "neurons"@ || s == "n"@ || s == "neu"@ || s == "neuron"@ || s == "neuroni"@ || s
        == "neurone"@ {
        Some(Component::Neurons)
    } else if s == "vmem"@ || s == "potenziale di membrana"@ || s == "membrane potential"@ || s
        == "membrane"@ || s == "membrana"@ || s == "v_mem"@ {
        Some(Component::MembranePotential)
    } else if s == "fulladder"@ || s == "full adder"@ || s == "full-adder"@ || s == "full_adder"@
        || s == "adder"@ || s == "sommatore"@ {
        Some(Component::FullAdder)
    } else if s == "comparatore"@ || s == "comparator"@ || s == "threshold"@ || s
        == "threashold comparator"@ {
        Some(Component::Comparator)
    } else {
        None
    }
}

/// The fault kind a lowercase name designates.
pub open spec fn stuck_named(s: Seq<char>) -> Option<Stuck> {
    if s == "stuck_at_0"@ || s == "zero"@ || s == "z"@ || s == "0"@ {
        Some(Stuck::Zero)
    } else if s == "stuck_at_1"@ || s == "one"@ || s == "o"@ || s == "1"@ {
        Some(Stuck::One)
    } else if s == "transient_bit"@ || s == "transient"@ || s == "t"@ || s == "2"@ {
        Some(Stuck::Transient)
    } else {
        None
    }
}

/// The neuron fields that a fault on a component of category `c` may target.
pub open spec fn field_of_component(c: Component, f: NeuronField) -> bool {
    match c {
        Component::Neurons => f == NeuronField::RestPotential || f == NeuronField::ResetPotential
            || f == NeuronField::TimeConstant || f == NeuronField::Threshold,
        Component::MembranePotential => f == NeuronField::MembranePotential,
        Component::FullAdder => f == NeuronField::FullAdder,
        Component::Comparator => f == NeuronField::Comparator,
    }
}

impl Component {
    /// The category designated by a name already in lowercase.
    pub fn from_lowercase(name: &str) -> (r: Option<Component>)
        ensures
            r == component_named(name@),
    {
        if same_text(name, "neurons") || same_text(name, "n") || same_text(name, "neu")
            || same_text(name, "neuron") || same_text(name, "neuroni") || same_text(
            name,
            "neurone",
        ) {
            Some(Component::Neurons)
        } else if same_text(name, "vmem") || same_text(name, "potenziale di membrana") || same_text(
            name,
            "membrane potential",
        ) || same_text(name, "membrane") || same_text(name, "membrana") || same_text(
            name,
            "v_mem",
        ) {
            Some(Component::MembranePotential)
        } else if same_text(name, "fulladder") || same_text(name, "full adder") || same_text(
            name,
            "full-adder",
        ) || same_text(name, "full_adder") || same_text(name, "adder") || same_text(
            name,
            "sommatore",
        ) {
            Some(Component::FullAdder)
        } else if same_text(name, "comparatore") || same_text(name, "comparator") || same_text(
            name,
            "threshold",
        ) || same_text(name, "threashold comparator") {
            Some(Component::Comparator)
        } else {
            None
        }
    }

    /// The category designated by a name, whatever its case.
    pub fn from_name(name: &str) -> (r: Option<Component>)
        ensures
            r == component_named(lower_of(name@)),
    {
        let lower = lowercase(name);
        Component::from_lowercase(lower.as_str())
    }
}

/// The fault kind designated by a name already in lowercase.
pub fn stuck_from_lowercase(name: &str) -> (r: Option<Stuck>)
    ensures
        r == stuck_named(name@),
{
    if same_text(name, "stuck_at_0") || same_text(name, "zero") || same_text(name, "z")
        || same_text(name, "0") {
        Some(Stuck::Zero)
    } else if same_text(name, "stuck_at_1") || same_text(name, "one") || same_text(name, "o")
        || same_text(name, "1") {
        Some(Stuck::One)
    } else if same_text(name, "transient_bit") || same_text(name, "transient") || same_text(
        name,
        "t",
    ) || same_text(name, "2") {
        Some(Stuck::Transient)
    } else {
        None
    }
}

/// Settings of a resilience campaign: the component categories to pick
/// from, the kind of fault, and the number of trials.
#[derive(Clone, Debug)]
pub struct Resilience {
    pub components: Vec<String>,
    pub stuck_type: Stuck,
    pub times: u128,
}

/// Settings of a resilience campaign as they are written in a file: the
/// fault kind is still a name.
#[derive(Clone, Debug)]
pub struct ResilienceJson {
    pub components: Vec<String>,
    pub stuck: String,
    pub times: u32,
}

/// A fault-kind name that designates no kind of fault.
#[derive(Clone, Debug)]
pub struct InvalidStuckType {
    pub name: String,
}

impl ResilienceJson {
    /// The campaign these settings describe, or the fault-kind name when it
    /// designates no kind of fault (whatever its case).
    pub fn to_resilience(self) -> (r: Result<Resilience, InvalidStuckType>)
        ensures
            match stuck_named(lower_of(self.stuck@)) {
                Some(k) => r is Ok && r.unwrap().stuck_type == k && r.unwrap().components@
                    == self.components@ && r.unwrap().times == self.times as u128,
                None => r is Err && r->Err_0.name@ == self.stuck@,
            },
    {
        let lower = lowercase(self.stuck.as_str());
        match stuck_from_lowercase(lower.as_str()) {
            Some(stuck_type) => Ok(
                Resilience { components: self.components, stuck_type, times: self.times as u128 },
            ),
            None => Err(InvalidStuckType { name: self.stuck }),
        }
    }
}

/// Where a trial injected its fault.
#[derive(Clone, Copy, Debug, PartialEq, Eq, Structural)]
pub struct FaultSite {
    pub layer: usize,
    pub neuron: usize,
    pub field: NeuronField,
}

/// Every layer has at most `usize::MAX / 4` input rows (the adder heap of a
/// neuron must be addressable).
pub open spec fn heaps_addressable(layers: Seq<Layer>) -> bool {
    forall|i: int| 0 <= i < layers.len() ==> (#[trigger] layers[i]).input_weights.spec_rows() <= usize::MAX / 4
}

impl Resilience {
    pub fn new(components: Vec<String>, stuck_type: Stuck, times: u128) -> (r: Resilience)
        ensures
            r.components@ == components@,
            r.stuck_type == stuck_type,
            r.times == times,
    {
        Resilience { components, stuck_type, times }
    }

    /// One of the component names, drawn uniformly at random.
    pub fn get_rand_component(&self) -> (r: String)
        requires
            self.components@.len() > 0,
        ensures
            exists|i: int| 0 <= i < self.components@.len() && r@ == self.components@[i]@,
    {
        let i = random_below(self.components.len());
        self.components[i].clone()
    }

    /// Injects one fault of this campaign's kind into `nn`: a component name
    /// drawn at random gives the category; a layer, a neuron of it, and for a
    /// neuron parameter the parameter, are drawn at random. Returns where the
    /// fault went, or `None`, with `nn` unchanged, when the name drawn
    /// designates no category.
    pub fn inject_fault(&self, nn: &mut NN) -> (r: Option<FaultSite>)
        requires
            self.components@.len() > 0,
            old(nn).layers@.len() > 0,
            forall|i: int| 0 <= i < old(nn).layers@.len() ==> (#[trigger] old(nn).layers@[i]).neurons@.len() > 0,
            heaps_addressable(old(nn).layers@),
        ensures
            (forall|i: int|
                0 <= i < self.components@.len() ==> #[trigger] component_named(
                    lower_of(self.components@[i]@),
                ) is Some) ==> r is Some,
            r is None ==> exists|i: int|
                0 <= i < self.components@.len() && #[trigger] component_named(
                    lower_of(self.components@[i]@),
                ) is None,
            r is None ==> *final(nn) == *old(nn),
            r is Some ==> {
                let s = r.unwrap();
                let (before, after) = (old(nn).layers@[s.layer as int], final(nn).layers@[s.layer as int]);
                &&& exists|i: int|
                    0 <= i < self.components@.len() && #[trigger] component_named(
                        lower_of(self.components@[i]@),
                    ) is Some && field_of_component(
                        component_named(lower_of(self.components@[i]@)).unwrap(),
                        s.field,
                    )
                &&& s.layer < old(nn).layers@.len()
                &&& s.neuron < before.neurons@.len()
                &&& final(nn).layers@.len() == old(nn).layers@.len()
                &&& forall|l: int|
                    0 <= l < old(nn).layers@.len() && l != s.layer ==> #[trigger] final(nn).layers@[l]
                        == old(nn).layers@[l]
                &&& after.neurons@.len() == before.neurons@.len()
                &&& forall|i: int|
                    0 <= i < before.neurons@.len() && i != s.neuron ==> #[trigger] after.neurons@[i]
                        == before.neurons@[i]
                &&& fault_injected(
                    before.neurons@[s.neuron as int],
                    after.neurons@[s.neuron as int],
                    s.field,
                    self.stuck_type,
                    before.input_weights.spec_rows(),
                )
                &&& after.input_weights == before.input_weights
                &&& after.intra_weights == before.intra_weights
            },
    {
        let name = self.get_rand_component();
        let component = match Component::from_name(name.as_str()) {
            Some(c) => c,
            None => {
                return None;
            },
        };
        let layer = random_below(nn.layers.len());
        let neuron = random_below(nn.layers[layer].num_neurons());
        let field = match component {
            Component::Neurons => {
                let pick = random_below(4);
                if pick == 0 {
                    NeuronField::RestPotential
                } else if pick == 1 {
                    NeuronField::ResetPotential
                } else if pick == 2 {
                    NeuronField::TimeConstant
                } else {
                    NeuronField::Threshold
                }
            },
            Component::MembranePotential => NeuronField::MembranePotential,
            Component::FullAdder => NeuronField::FullAdder,
            Component::Comparator => NeuronField::Comparator,
        };
        nn.layers[layer].fault_neuron(self.stuck_type, neuron, field);
        Some(FaultSite { layer, neuron, field })
    }
}

/// Count of trials run and of trials whose output matched the fault-free
/// output.
#[derive(Debug)]
pub struct TrialTally {
    trials: u128,
    matching: u128,
}

impl View for TrialTally {
    /// Trials run, trials that matched.
    type V = (nat, nat);

    closed spec fn view(&self) -> (nat, nat) {
        (self.trials as nat, self.matching as nat)
    }
}

impl TrialTally {
    #[verifier::type_invariant]
    spec fn inv(&self) -> bool {
        self.matching <= self.trials
    }

    /// No trial run yet.
    pub fn new() -> (r: TrialTally)
        ensures
            r@ == (0nat, 0nat),
    {
        TrialTally { trials: 0, matching: 0 }
    }

    /// Counts one more trial, matching when `output` holds the same spike
    /// trains as `baseline`; returns whether it matched.
    pub fn record_trial(
        &mut self,
        baseline: &Vec<(u128, Vec<u128>)>,
        output: &Vec<(u128, Vec<u128>)>,
    ) -> (r: bool)
        requires
            old(self)@.0 < u128::MAX,
        ensures
            r == same_trains(output@, baseline@),
            final(self)@.0 == old(self)@.0 + 1,
            final(self)@.1 == old(self)@.1 + if r { 1nat } else { 0nat },
    {
        proof {
            use_type_invariant(&*self);
        }
        let same = are_equal(output, baseline);
        self.trials = self.trials + 1;
        if same {
            self.matching = self.matching + 1;
        }
        same
    }

    pub fn trials(&self) -> (r: u128)
        ensures
            r == self@.0,
    {
        self.trials
    }

    /// Trials that matched: never more than the trials run, so that the
    /// success percentage `100 * matching / trials` lies in `[0, 100]`.
    pub fn matching(&self) -> (r: u128)
        ensures
            r == self@.1,
            r <= self@.0,
    {
        proof {
            use_type_invariant(self);
        }
        self.matching
    }
}

/// Number of trial outputs among `outs` that hold the same spike trains as
/// the fault-free output `base`.
pub open spec fn count_matching(
    outs: Seq<Vec<(u128, Vec<u128>)>>,
    base: Seq<(u128, Vec<u128>)>,
) -> nat
    decreases outs.len(),
{
    if outs.len() == 0 {
        0
    } else {
        count_matching(outs.drop_last(), base) + if same_trains(outs.last()@, base) {
            1nat
        } else {
            0nat
        }
    }
}

/// Of any campaign, the trials whose output matched the fault-free output are
/// at most the trials run, so the success percentage
/// `100 * count_matching / trials` lies in `[0, 100]`.
pub proof fn lemma_success_rate_bounded(
    outs: Seq<Vec<(u128, Vec<u128>)>>,
    base: Seq<(u128, Vec<u128>)>,
)
    ensures
        count_matching(outs, base) <= outs.len(),
        0 <= 100 * count_matching(outs, base) <= 100 * outs.len(),
    decreases outs.len(),
{
    if outs.len() > 0 {
        lemma_success_rate_bounded(outs.drop_last(), base);
    }
}

impl TrialTally {
    /// The tally of a campaign whose trials, in order, gave `outputs`.
    pub fn of_trials(
        baseline: &Vec<(u128, Vec<u128>)>,
        outputs: &Vec<Vec<(u128, Vec<u128>)>>,
    ) -> (r: TrialTally)
        ensures
            r@ == (outputs@.len(), count_matching(outputs@, baseline@)),
    {
        let mut t = TrialTally::new();
        let mut k: usize = 0;
        while k < outputs.len()
            invariant
                k <= outputs@.len(),
                t@ == (k as nat, count_matching(outputs@.take(k as int), baseline@)),
            decreases outputs@.len() - k,
        {
            t.record_trial(baseline, &outputs[k]);
            proof {
                assert(outputs@.take(k + 1).drop_last() =~= outputs@.take(k as int));
            }
            k += 1;
        }
        proof {
            assert(outputs@.take(k as int) =~= outputs@);
        }
        t
    }
}

} // verus!
