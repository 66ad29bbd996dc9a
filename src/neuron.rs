//! Leaky-integrate-and-fire neurons: their state, the templates they are made
//! from, and the faults that can be injected into them.
use crate::fault::{apply_injection, faulted, mask_of, Stuck};
use crate::heap::{is_bit_mask, HeapCalculator};
use crate::random::random_below;
use crate::text::same_text;
use vstd::prelude::*;

verus! {

/// Parameters shared by neurons built alike: rest, reset and threshold
/// potentials and time constant, each the bit pattern of a 64-bit float.
#[derive(Clone, Copy, Debug, PartialEq, Eq, Structural)]
pub struct Configuration {
    pub v_rest: u64,
    pub v_reset: u64,
    pub v_threshold: u64,
    pub tau: u64,
}

impl Configuration {
    pub fn new(v_rest: u64, v_reset: u64, v_threshold: u64, tau: u64) -> (r: Configuration)
        ensures
            r == (Configuration { v_rest, v_reset, v_threshold, tau }),
    {
        Configuration { v_rest, v_reset, v_threshold, tau }
    }
}

/// A persistent fault on the membrane potential: every update of the
/// potential passes through fault `stuck` at bit `index`.
#[derive(Debug)]
pub struct InjectionStruct {
    stuck: Stuck,
    index: u64,
}

impl View for InjectionStruct {
    type V = (Stuck, u64);

    closed spec fn view(&self) -> (Stuck, u64) {
        (self.stuck, self.index)
    }
}

impl Clone for InjectionStruct {
    fn clone(&self) -> (r: Self)
        ensures
            r@ == self@,
    {
        proof {
            use_type_invariant(self);
        }
        InjectionStruct { stuck: self.stuck, index: self.index }
    }
}

impl InjectionStruct {
    #[verifier::type_invariant]
    spec fn inv(&self) -> bool {
        self.index < 64
    }

    /// Fault `stuck` at bit `index`.
    pub fn new(stuck: Stuck, index: u64) -> (r: InjectionStruct)
        requires
            index < 64,
        ensures
            r@ == (stuck, index),
    {
        InjectionStruct { stuck, index }
    }

    pub fn stuck(&self) -> (r: Stuck)
        ensures
            r == self@.0,
    {
        self.stuck
    }

    pub fn index(&self) -> (r: u64)
        ensures
            r == self@.1,
            r < 64,
    {
        proof {
            use_type_invariant(self);
        }
        self.index
    }

    /// The bits of a membrane potential after passing through this fault.
    pub fn inject(&self, bits: u64) -> (r: u64)
        ensures
            r == faulted(bits, mask_of(self@.1), self@.0),
    {
        proof {
            use_type_invariant(self);
        }
        apply_injection(bits, self.stuck, self.index)
    }
}

/// State of one leaky-integrate-and-fire neuron; potentials and time constant
/// are bit patterns of 64-bit floats.
#[derive(Debug)]
pub struct LifNeuron {
    /// Rest potential.
    pub v_rest: u64,
    /// Reset potential.
    pub v_reset: u64,
    /// Threshold potential.
    pub v_th: u64,
    /// Time constant of the membrane.
    pub tau: u64,
    /// Membrane potential.
    pub v_mem: u64,
    /// Time of the last update of the membrane potential.
    pub ts_old: u128,
    /// Adder that sums the weighted inputs when its circuit carries a fault.
    pub heap_tree: Option<HeapCalculator>,
    /// Persistent fault on the membrane potential.
    pub injection_vmem: Option<InjectionStruct>,
}

impl Clone for LifNeuron {
    fn clone(&self) -> (r: Self)
        ensures
            same_neuron(r, *self),
    {
        let heap_tree = match &self.heap_tree {
            Some(h) => Some(h.clone()),
            None => None,
        };
        let injection_vmem = match &self.injection_vmem {
            Some(j) => Some(j.clone()),
            None => None,
        };
        LifNeuron {
            v_rest: self.v_rest,
            v_reset: self.v_reset,
            v_th: self.v_th,
            tau: self.tau,
            v_mem: self.v_mem,
            ts_old: self.ts_old,
            heap_tree,
            injection_vmem,
        }
    }
}

/// `a` and `b` hold the same state: the same parameters, potential and
/// clock, and equal adder heaps and membrane faults.
pub open spec fn same_neuron(a: LifNeuron, b: LifNeuron) -> bool {
    &&& a.v_rest == b.v_rest
    &&& a.v_reset == b.v_reset
    &&& a.v_th == b.v_th
    &&& a.tau == b.tau
    &&& a.v_mem == b.v_mem
    &&& a.ts_old == b.ts_old
    &&& (a.heap_tree is Some <==> b.heap_tree is Some)
    &&& (a.heap_tree is Some ==> a.heap_tree.unwrap()@ == b.heap_tree.unwrap()@)
    &&& (a.injection_vmem is Some <==> b.injection_vmem is Some)
    &&& (a.injection_vmem is Some ==> a.injection_vmem.unwrap()@ == b.injection_vmem.unwrap()@)
}

/// The bits of the float 0.0.
pub const ZERO_BITS: u64 = 0;

impl LifNeuron {
    /// A neuron at rest: membrane potential 0.0, last update at time 0, no fault.
    pub fn new(v_rest: u64, v_reset: u64, v_th: u64, tau: u64) -> (r: LifNeuron)
        ensures
            r.v_rest == v_rest,
            r.v_reset == v_reset,
            r.v_th == v_th,
            r.tau == tau,
            r.v_mem == ZERO_BITS,
            r.ts_old == 0,
            r.heap_tree is None,
            r.injection_vmem is None,
    {
        LifNeuron {
            v_rest,
            v_reset,
            v_th,
            tau,
            v_mem: ZERO_BITS,
            ts_old: 0,
            heap_tree: None,
            injection_vmem: None,
        }
    }

    /// A neuron at rest with the parameters of `nc`.
    pub fn from_conf(nc: &Configuration) -> (r: LifNeuron)
        ensures
            r.v_rest == nc.v_rest,
            r.v_reset == nc.v_reset,
            r.v_th == nc.v_threshold,
            r.tau == nc.tau,
            r.v_mem == ZERO_BITS,
            r.ts_old == 0,
            r.heap_tree is None,
            r.injection_vmem is None,
    {
        Self::new(nc.v_rest, nc.v_reset, nc.v_threshold, nc.tau)
    }

    /// `n` neurons at rest with the parameters of `conf`.
    pub fn new_vec(conf: Configuration, n: usize) -> (r: Vec<LifNeuron>)
        ensures
            r@.len() == n,
            forall|i: int| 0 <= i < n ==> built_from(#[trigger] r@[i], conf),
    {
        let mut res: Vec<LifNeuron> = Vec::new();
        let mut i: usize = 0;
        while i < n
            invariant
                i <= n,
                res@.len() == i,
                forall|k: int| 0 <= k < i ==> built_from(#[trigger] res@[k], conf),
            decreases n - i,
        {
            res.push(LifNeuron::from_conf(&conf));
            i += 1;
        }
        res
    }

    /// Passes the membrane potential through the neuron's membrane fault, if
    /// it has one; nothing else changes.
    pub fn inject_membrane_fault(&mut self)
        ensures
            *final(self) == (LifNeuron {
                v_mem: match old(self).injection_vmem {
                    Some(j) => faulted(old(self).v_mem, mask_of(j@.1), j@.0),
                    None => old(self).v_mem,
                },
                ..*old(self)
            }),
    {
        match &self.injection_vmem {
            Some(j) => {
                self.v_mem = j.inject(self.v_mem);
            },
            None => {},
        }
    }

    /// Moves the neuron's clock to `ts` and returns the time elapsed since
    /// its last update.
    pub fn advance_clock(&mut self, ts: u128) -> (r: u128)
        requires
            old(self).ts_old <= ts,
        ensures
            r == ts - old(self).ts_old,
            *final(self) == (LifNeuron { ts_old: ts, ..*old(self) }),
    {
        let elapsed = ts - self.ts_old;
        self.ts_old = ts;
        elapsed
    }

    /// Applies fault `stuck` once, at bit `bit`, to the stored value of the
    /// parameter `field`; fields that are not a stored parameter are left as
    /// they are.
    pub fn fault_parameter(&mut self, field: NeuronField, stuck: Stuck, bit: u64)
        requires
            bit < 64,
        ensures
            *final(self) == with_parameter_fault(*old(self), field, stuck, bit),
    {
        match field {
            NeuronField::RestPotential => {
                self.v_rest = apply_injection(self.v_rest, stuck, bit);
            },
            NeuronField::ResetPotential => {
                self.v_reset = apply_injection(self.v_reset, stuck, bit);
            },
            NeuronField::Threshold => {
                self.v_th = apply_injection(self.v_th, stuck, bit);
            },
            NeuronField::TimeConstant => {
                self.tau = apply_injection(self.tau, stuck, bit);
            },
            _ => {},
        }
    }
}

/// `n` is a neuron at rest with the parameters of `c` and no fault.
pub open spec fn built_from(n: LifNeuron, c: Configuration) -> bool {
    &&& n.v_rest == c.v_rest
    &&& n.v_reset == c.v_reset
    &&& n.v_th == c.v_threshold
    &&& n.tau == c.tau
    &&& n.v_mem == ZERO_BITS
    &&& n.ts_old == 0
    &&& n.heap_tree is None
    &&& n.injection_vmem is None
}

/// A part of a neuron that a fault can target.
#[derive(Clone, Copy, Debug, PartialEq, Eq, Structural)]
pub enum NeuronField {
    RestPotential,
    ResetPotential,
    Threshold,
    TimeConstant,
    MembranePotential,
    FullAdder,
    Comparator,
}

/// The field a name designates: `v_th`, `v_rest`, `v_reset`, `v_tau`,
/// `v_mem`, `full adder` or `comparator`.
pub open spec fn field_named(s: Seq<char>) -> Option<NeuronField> {
    if s == "v_th"@ {
        Some(NeuronField::Threshold)
    } else if s == "v_rest"@ {
        Some(NeuronField::RestPotential)
    } else if s == "v_reset"@ {
        Some(NeuronField::ResetPotential)
    } else if s == "v_tau"@ {
        Some(NeuronField::TimeConstant)
    } else if s == "v_mem"@ {
        Some(NeuronField::MembranePotential)
    } else if s == "full adder"@ {
        Some(NeuronField::FullAdder)
    } else if s == "comparator"@ {
        Some(NeuronField::Comparator)
    } else {
        None
    }
}

/// `n` after a one-shot fault `stuck` at bit `bit` of its parameter `field`.
pub open spec fn with_parameter_fault(n: LifNeuron, field: NeuronField, stuck: Stuck, bit: u64) -> LifNeuron {
    match field {
        NeuronField::RestPotential => LifNeuron { v_rest: faulted(n.v_rest, mask_of(bit), stuck), ..n },
        NeuronField::ResetPotential => LifNeuron { v_reset: faulted(n.v_reset, mask_of(bit), stuck), ..n },
        NeuronField::Threshold => LifNeuron { v_th: faulted(n.v_th, mask_of(bit), stuck), ..n },
        NeuronField::TimeConstant => LifNeuron { tau: faulted(n.tau, mask_of(bit), stuck), ..n },
        _ => n,
    }
}

impl NeuronField {
    /// The field designated by `name`, or `None` for a name that designates none.
    pub fn from_name(name: &str) -> (r: Option<NeuronField>)
        ensures
            r == field_named(name@),
    {
        if same_text(name, "v_th") {
            Some(NeuronField::Threshold)
        } else if same_text(name, "v_rest") {
            Some(NeuronField::RestPotential)
        } else if same_text(name, "v_reset") {
            Some(NeuronField::ResetPotential)
        } else if same_text(name, "v_tau") {
            Some(NeuronField::TimeConstant)
        } else if same_text(name, "v_mem") {
            Some(NeuronField::MembranePotential)
        } else if same_text(name, "full adder") {
            Some(NeuronField::FullAdder)
        } else if same_text(name, "comparator") {
            Some(NeuronField::Comparator)
        } else {
            None
        }
    }
}

/// `p` is a power of two (1, 2, 4, ...).
pub open spec fn is_power_of_two(p: nat) -> bool
    decreases p,
{
    if p == 1 {
        true
    } else if p < 2 || p % 2 != 0 {
        false
    } else {
        is_power_of_two(p / 2)
    }
}

/// Size of the adder heap for `n` inputs: the smallest power of two not below `n`.
pub fn heap_dim(n: usize) -> (r: usize)
    requires
        n <= usize::MAX / 4,
    ensures
        is_power_of_two(r as nat),
        r >= n,
        r == 1 || r / 2 < n,
        r <= usize::MAX / 2,
{
    let mut p: usize = 1;
    while p < n
        invariant
            is_power_of_two(p as nat),
            p == 1 || p / 2 < n,
            n <= usize::MAX / 4,
            p < 2 * n || p == 1,
        decreases usize::MAX - p,
    {
        assert((2 * p) as nat / 2 == p as nat);
        p = p * 2;
    }
    p
}

/// `h` is a fresh adder heap for `n` inputs: its `2 * dim` links, `dim` the
/// smallest power of two not below `n`, all hold 0, and exactly one carries
/// the fault `stuck`, on a single bit; the others carry no mask.
pub open spec fn fresh_heap_for(h: Seq<(u64, Option<Stuck>, Option<u64>)>, stuck: Stuck, n: nat) -> bool {
    &&& is_power_of_two(h.len() / 2)
    &&& h.len() / 2 >= n
    &&& (h.len() / 2 == 1 || h.len() / 4 < n)
    &&& h.len() % 2 == 0
    &&& forall|i: int| 0 <= i < h.len() ==> (#[trigger] h[i]).0 == 0
    &&& exists|k: int|
        0 <= k < h.len() && h[k].1 == Some(stuck) && h[k].2 is Some && is_bit_mask(h[k].2.unwrap())
            && forall|i: int| 0 <= i < h.len() && i != k ==> (#[trigger] h[i]).1 is None && h[i].2 is None
}

/// The leaky-integrate-and-fire model: the faults it can carry.
#[derive(Clone, Copy, Debug)]
pub struct LeakyIntegrateFire;

impl LeakyIntegrateFire {
    /// One-shot fault `stuck` at a random bit of the rest potential.
    pub fn update_v_rest(neuron: &mut LifNeuron, stuck: Stuck)
        ensures
            exists|b: u64|
                b < 64 && *final(neuron) == with_parameter_fault(
                    *old(neuron),
                    NeuronField::RestPotential,
                    stuck,
                    b,
                ),
    {
        let bit = random_below(64) as u64;
        neuron.fault_parameter(NeuronField::RestPotential, stuck, bit);
    }

    /// One-shot fault `stuck` at a random bit of the reset potential.
    pub fn update_v_reset(neuron: &mut LifNeuron, stuck: Stuck)
        ensures
            exists|b: u64|
                b < 64 && *final(neuron) == with_parameter_fault(
                    *old(neuron),
                    NeuronField::ResetPotential,
                    stuck,
                    b,
                ),
    {
        let bit = random_below(64) as u64;
        neuron.fault_parameter(NeuronField::ResetPotential, stuck, bit);
    }

    /// One-shot fault `stuck` at a random bit of the threshold potential.
    pub fn update_v_th(neuron: &mut LifNeuron, stuck: Stuck)
        ensures
            exists|b: u64|
                b < 64 && *final(neuron) == with_parameter_fault(
                    *old(neuron),
                    NeuronField::Threshold,
                    stuck,
                    b,
                ),
    {
        let bit = random_below(64) as u64;
        neuron.fault_parameter(NeuronField::Threshold, stuck, bit);
    }

    /// One-shot fault `stuck` at a random bit of the time constant.
    pub fn update_tau(neuron: &mut LifNeuron, stuck: Stuck)
        ensures
            exists|b: u64|
                b < 64 && *final(neuron) == with_parameter_fault(
                    *old(neuron),
                    NeuronField::TimeConstant,
                    stuck,
                    b,
                ),
    {
        let bit = random_below(64) as u64;
        neuron.fault_parameter(NeuronField::TimeConstant, stuck, bit);
    }

    /// Makes every later update of the membrane potential pass through fault
    /// `stuck` at one random bit, fixed now.
    pub fn use_v_mem_with_injection(neuron: &mut LifNeuron, stuck: Stuck)
        ensures
            final(neuron).injection_vmem is Some,
            final(neuron).injection_vmem.unwrap()@.0 == stuck,
            final(neuron).injection_vmem.unwrap()@.1 < 64,
            *final(neuron) == (LifNeuron { injection_vmem: final(neuron).injection_vmem, ..*old(neuron) }),
    {
        let bit = random_below(64) as u64;
        neuron.injection_vmem = Some(InjectionStruct::new(stuck, bit));
    }

    /// Makes the neuron sum its `num_inputs` weighted inputs through a fresh
    /// adder heap sized to the next power of two, with one faulty link.
    pub fn use_heap(neuron: &mut LifNeuron, stuck: Stuck, num_inputs: usize)
        requires
            num_inputs <= usize::MAX / 4,
        ensures
            final(neuron).heap_tree is Some,
            fresh_heap_for(final(neuron).heap_tree.unwrap()@, stuck, num_inputs as nat),
            *final(neuron) == (LifNeuron { heap_tree: final(neuron).heap_tree, ..*old(neuron) }),
    {
        let dim = heap_dim(num_inputs);
        let heap = HeapCalculator::new(dim, stuck);
        proof {
            assert(heap@.len() / 2 == dim);
            assert(heap@.len() / 4 == dim / 2);
        }
        neuron.heap_tree = Some(heap);
    }

    /// A copy of the neuron's adder heap, if it has one.
    pub fn get_heap(neuron: &LifNeuron) -> (r: Option<HeapCalculator>)
        ensures
            r is Some <==> neuron.heap_tree is Some,
            r is Some ==> r.unwrap()@ == neuron.heap_tree.unwrap()@,
    {
        match &neuron.heap_tree {
            Some(h) => Some(h.clone()),
            None => None,
        }
    }

    /// A copy of the neuron's membrane fault, if it has one.
    pub fn get_injection_vmem(neuron: &LifNeuron) -> (r: Option<InjectionStruct>)
        ensures
            r is Some <==> neuron.injection_vmem is Some,
            r is Some ==> r.unwrap()@ == neuron.injection_vmem.unwrap()@,
    {
        match &neuron.injection_vmem {
            Some(j) => Some(j.clone()),
            None => None,
        }
    }
}

} // verus!
