//! Spiking neural networks of leaky-integrate-and-fire neurons, and the
//! bit-level fault model used to measure how resilient such a network is.
//!
//! Floating-point values (potentials, weights, time constants) are held as
//! their IEEE-754 bit patterns (`u64`), which is what the fault model acts on.
//!
//! A fault can target a neuron's stored parameters, its membrane potential,
//! the adder that sums its inputs, or its threshold comparator. The
//! comparator holds no stored bits in this model, so a fault aimed at it
//! leaves the neuron as it is and such a trial always matches the fault-free
//! run.
pub mod fault;
mod random;
pub mod spike;
pub mod matrix;
pub mod heap;
pub mod text;
pub mod neuron;
pub mod layer;
pub mod network;
pub mod resilience;
pub mod adder_tree;
pub mod layout;
