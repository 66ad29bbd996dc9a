//! Bit-level fault model: single-bit masks and the three kinds of fault.
use vstd::prelude::*;

verus! {

/// Width in bits of the values that faults are injected into.
pub const NUM_BITS: u64 = 64;

/// Kind of hardware fault applied to one bit of a value.
#[derive(Clone, Copy, Debug, PartialEq, Eq, Structural)]
pub enum Stuck {
    /// The bit is forced to 0.
    Zero,
    /// The bit is forced to 1.
    One,
    /// The bit is flipped.
    Transient,
}

/// The bits of `bits` after the fault `kind` has acted on the bits set in `mask`.
pub open spec fn faulted(bits: u64, mask: u64, kind: Stuck) -> u64 {
    match kind {
        Stuck::Zero => bits & !mask,
        Stuck::One => bits | mask,
        Stuck::Transient => bits ^ mask,
    }
}

/// The mask whose only set bit is bit `index`.
pub open spec fn mask_of(index: u64) -> u64
    recommends
        index < 64,
{
    1u64 << index
}

/// Applies the fault `kind` to the bits of `bits` that are set in `mask`.
pub fn apply(bits: u64, mask: u64, kind: Stuck) -> (r: u64)
    ensures
        r == faulted(bits, mask, kind),
{
    match kind {
        Stuck::Zero => bits & !mask,
        Stuck::One => bits | mask,
        Stuck::Transient => bits ^ mask,
    }
}

/// A mask with the single bit `index` set.
pub fn create_mask(index: u64) -> (r: u64)
    requires
        index < NUM_BITS,
    ensures
        r == mask_of(index),
{
    1u64 << index
}

/// Number of bits of a value.
pub fn num_bits() -> (r: u64)
    ensures
        r == NUM_BITS,
{
    NUM_BITS
}

/// Applies the fault `stuck` to bit `index` of `bits`.
pub fn apply_injection(bits: u64, stuck: Stuck, index: u64) -> (r: u64)
    requires
        index < NUM_BITS,
    ensures
        r == faulted(bits, mask_of(index), stuck),
{
    apply(bits, create_mask(index), stuck)
}

/// A stuck-at fault (to 0 or to 1) applied twice with the same mask gives the
/// same bits as applied once.
pub proof fn lemma_stuck_idempotent(bits: u64, mask: u64, kind: Stuck)
    requires
        kind != Stuck::Transient,
    ensures
        faulted(faulted(bits, mask, kind), mask, kind) == faulted(bits, mask, kind),
{
    assert((bits & !mask) & !mask == bits & !mask) by (bit_vector);
    assert((bits | mask) | mask == bits | mask) by (bit_vector);
}

/// A transient fault applied twice with the same mask gives back the
/// bits it started from.
pub proof fn lemma_transient_involution(bits: u64, mask: u64)
    ensures
        faulted(faulted(bits, mask, Stuck::Transient), mask, Stuck::Transient) == bits,
{
    assert((bits ^ mask) ^ mask == bits) by (bit_vector);
}

} // verus!
