//! The heap adder: a binary heap of links, each link holding one operand of a
//! two-input adder, of which one may carry a stuck bit.
use crate::fault::{apply, create_mask, faulted, mask_of, Stuck};
use crate::random::random_below;
use vstd::prelude::*;

verus! {

/// `m` has exactly one bit set.
pub open spec fn is_bit_mask(m: u64) -> bool {
    exists|b: u64| b < 64 && m == mask_of(b)
}

/// What the heap's bit inversion computes, for a mask `m`.
pub open spec fn inverted(bits: u64, m: u64) -> u64 {
    if bits & m != 0 {
        bits & !m
    } else {
        bits | m
    }
}

/// On a single-bit mask, inversion is a transient fault.
pub proof fn lemma_inverted_is_transient(bits: u64, b: u64)
    requires
        b < 64,
    ensures
        inverted(bits, mask_of(b)) == faulted(bits, mask_of(b), Stuck::Transient),
{
    assert((if bits & (1u64 << b) != 0 { bits & !(1u64 << b) } else { bits | (1u64 << b) }) == bits
        ^ (1u64 << b)) by (bit_vector)
        requires
            b < 64,
    ;
}

/// One slot of the heap: a value (bit pattern of a float) and, where this
/// slot is faulty, the kind of fault and the single-bit mask it acts on.
#[derive(Debug)]
pub struct Link {
    value: u64,
    stuck_bit: Option<Stuck>,
    mask: Option<u64>,
}

/// The bits that a link hands to its adder: its value, with the fault applied
/// where it has one.
pub open spec fn link_operand(l: (u64, Option<Stuck>, Option<u64>)) -> u64 {
    match l.1 {
        Some(k) => faulted(l.0, l.2.unwrap(), k),
        None => l.0,
    }
}

/// The two operands, in order, that the adder fed by links `a` and `b` adds:
/// the first faulty link of the two is read through its fault.
pub open spec fn operands_of(
    a: (u64, Option<Stuck>, Option<u64>),
    b: (u64, Option<Stuck>, Option<u64>),
) -> (u64, u64) {
    if a.1 is Some {
        (link_operand(a), b.0)
    } else if b.1 is Some {
        (link_operand(b), a.0)
    } else {
        (a.0, b.0)
    }
}

impl View for Link {
    /// Value, fault kind and fault mask.
    type V = (u64, Option<Stuck>, Option<u64>);

    closed spec fn view(&self) -> (u64, Option<Stuck>, Option<u64>) {
        (self.value, self.stuck_bit, self.mask)
    }
}

impl Clone for Link {
    fn clone(&self) -> (r: Self)
        ensures
            r == *self,
    {
        proof {
            use_type_invariant(self);
        }
        Link { value: self.value, stuck_bit: self.stuck_bit, mask: self.mask }
    }
}

impl Link {
    /// A faulty link carries a single-bit mask.
    #[verifier::type_invariant]
    spec fn inv(&self) -> bool {
        self.stuck_bit is Some ==> (self.mask is Some && is_bit_mask(self.mask.unwrap()))
    }

    /// A link holding `value`, faulty with `stuck_bit` where that is given, at
    /// a bit drawn uniformly at random.
    pub fn new(value: u64, stuck_bit: Option<Stuck>) -> (r: Link)
        ensures
            r@.0 == value,
            r@.1 == stuck_bit,
            r@.2 is Some && is_bit_mask(r@.2.unwrap()),
    {
        let idx = random_below(64) as u64;
        Link { value, stuck_bit, mask: Some(create_mask(idx)) }
    }

    /// A link holding `value`, with no fault.
    pub fn plain(value: u64) -> (r: Link)
        ensures
            r@ == (value, None::<Stuck>, None::<u64>),
    {
        Link { value, stuck_bit: None, mask: None }
    }

    pub fn value(&self) -> (r: u64)
        ensures
            r == self@.0,
    {
        self.value
    }

    /// Inverts the bits of `bits` selected by `mask`: clears them where they
    /// meet a set bit, sets them otherwise.
    pub fn invert_bit_at(&self, bits: &u64, mask: Option<u64>) -> (r: u64)
        requires
            mask is Some,
        ensures
            r == inverted(*bits, mask.unwrap()),
    {
        let m = mask.unwrap();
        if *bits & m != 0 {
            *bits & !m
        } else {
            *bits | m
        }
    }

    /// The bits this link hands to its adder.
    pub fn operand(&self) -> (r: u64)
        ensures
            r == link_operand(self@),
    {
        proof {
            use_type_invariant(self);
        }
        match self.stuck_bit {
            Some(Stuck::Transient) => {
                let m = self.mask.unwrap();
                proof {
                    let b = choose|b: u64| b < 64 && m == mask_of(b);
                    lemma_inverted_is_transient(self.value, b);
                }
                self.invert_bit_at(&self.value, self.mask)
            },
            Some(k) => apply(self.value, self.mask.unwrap(), k),
            None => self.value,
        }
    }

    /// The two operands of the adder fed by this link and `link`; their sum
    /// is the adder's output.
    pub fn sum_operands(&self, link: &Link) -> (r: (u64, u64))
        ensures
            r == operands_of(self@, link@),
    {
        if self.stuck_bit.is_some() {
            (self.operand(), link.value)
        } else if link.stuck_bit.is_some() {
            (link.operand(), self.value)
        } else {
            (self.value, link.value)
        }
    }

    /// The same link holding `value`.
    pub fn set_value(&mut self, value: u64)
        ensures
            final(self)@ == (value, old(self)@.1, old(self)@.2),
    {
        proof {
            use_type_invariant(&*self);
        }
        self.value = value;
    }
}

/// A binary heap of `2 * dim` links over which `dim` inputs are summed pairwise,
/// level by level; a new heap has exactly one faulty link.
#[derive(Debug)]
pub struct HeapCalculator {
    heap_vec: Vec<Link>,
}

impl View for HeapCalculator {
    type V = Seq<(u64, Option<Stuck>, Option<u64>)>;

    closed spec fn view(&self) -> Seq<(u64, Option<Stuck>, Option<u64>)> {
        self.heap_vec@.map_values(|l: Link| l@)
    }
}

impl Clone for HeapCalculator {
    fn clone(&self) -> (r: Self)
        ensures
            r@ == self@,
    {
        let mut heap_vec: Vec<Link> = Vec::new();
        let mut i: usize = 0;
        while i < self.heap_vec.len()
            invariant
                i <= self.heap_vec@.len(),
                heap_vec@.len() == i,
                forall|k: int| 0 <= k < i ==> (#[trigger] heap_vec@[k])@ == self.heap_vec@[k]@,
            decreases self.heap_vec@.len() - i,
        {
            heap_vec.push(self.heap_vec[i].clone());
            i += 1;
        }
        let r = HeapCalculator { heap_vec };
        proof {
            assert(r@ =~= self@);
        }
        r
    }
}

impl HeapCalculator {
    /// A heap for `dim` inputs: `2 * dim` links holding 0, one of them, drawn
    /// uniformly at random, faulty with `stuck` at a random bit.
    pub fn new(dim: usize, stuck: Stuck) -> (r: HeapCalculator)
        requires
            0 < dim <= usize::MAX / 2,
        ensures
            r@.len() == 2 * dim,
            forall|i: int| 0 <= i < r@.len() ==> (#[trigger] r@[i]).0 == 0,
            exists|k: int|
                0 <= k < r@.len() && r@[k].1 == Some(stuck) && r@[k].2 is Some && is_bit_mask(
                    r@[k].2.unwrap(),
                ) && forall|i: int|
                    0 <= i < r@.len() && i != k ==> (#[trigger] r@[i]).1 is None && r@[i].2 is None,
    {
        let heap_length = 2 * dim;
        let mut heap_vec: Vec<Link> = Vec::new();
        let mut i: usize = 0;
        while i < heap_length
            invariant
                i <= heap_length,
                heap_vec@.len() == i,
                forall|k: int| 0 <= k < i ==> (#[trigger] heap_vec@[k])@ == (0u64, None::<Stuck>, None::<u64>),
            decreases heap_length - i,
        {
            heap_vec.push(Link::plain(0));
            i += 1;
        }
        let index = random_below(heap_length);
        heap_vec[index] = Link::new(0, Some(stuck));
        let r = HeapCalculator { heap_vec };
        proof {
            assert(forall|i: int| 0 <= i < r@.len() && i != index ==> (#[trigger] r@[i]).1 is None && r@[i].2 is None);
            assert(r@[index as int].1 == Some(stuck));
            assert(0 <= index < r@.len() && r@[index as int].1 == Some(stuck) && r@[index as int].2 is Some
                && is_bit_mask(r@[index as int].2.unwrap()) && forall|i: int|
                0 <= i < r@.len() && i != index ==> (#[trigger] r@[i]).1 is None && r@[i].2 is None);
        }
        r
    }

    /// Number of links.
    pub fn len(&self) -> (r: usize)
        ensures
            r == self@.len(),
    {
        self.heap_vec.len()
    }

    /// Value held by link `i`.
    pub fn value(&self, i: usize) -> (r: u64)
        requires
            i < self@.len(),
        ensures
            r == self@[i as int].0,
    {
        self.heap_vec[i].value()
    }

    /// Stores `value` in link `i`, which keeps its fault.
    pub fn set_value(&mut self, i: usize, value: u64)
        requires
            i < old(self)@.len(),
        ensures
            final(self)@ == old(self)@.update(i as int, (value, old(self)@[i as int].1, old(self)@[i as int].2)),
    {
        self.heap_vec[i].set_value(value);
        proof {
            assert(final(self)@ =~= old(self)@.update(i as int, (value, old(self)@[i as int].1, old(self)@[i as int].2)));
        }
    }

    /// The operands of the adder fed by links `i` and `j`.
    pub fn sum_operands(&self, i: usize, j: usize) -> (r: (u64, u64))
        requires
            i < self@.len(),
            j < self@.len(),
        ensures
            r == operands_of(self@[i as int], self@[j as int]),
    {
        self.heap_vec[i].sum_operands(&self.heap_vec[j])
    }

    /// Stores the inputs, in order, in the first links.
    pub fn load_inputs(&mut self, inputs: &Vec<u64>)
        requires
            inputs@.len() <= old(self)@.len(),
        ensures
            final(self)@.len() == old(self)@.len(),
            forall|i: int|
                0 <= i < old(self)@.len() ==> #[trigger] final(self)@[i] == if i < inputs@.len() {
                    (inputs@[i], old(self)@[i].1, old(self)@[i].2)
                } else {
                    old(self)@[i]
                },
    {
        let ghost start = self@;
        let mut k: usize = 0;
        while k < inputs.len()
            invariant
                k <= inputs@.len(),
                inputs@.len() <= start.len(),
                self@.len() == start.len(),
                forall|i: int|
                    0 <= i < start.len() ==> #[trigger] self@[i] == if i < k {
                        (inputs@[i], start[i].1, start[i].2)
                    } else {
                        start[i]
                    },
            decreases inputs@.len() - k,
        {
            self.set_value(k, inputs[k]);
            k += 1;
        }
    }
}

/// Number of links at level `lv` of a heap of `len` links, counted as the
/// heap's summation does: half the links at level 0, half as many at each
/// next level.
pub open spec fn dim_at(len: nat, lv: nat) -> nat
    decreases lv,
{
    if lv == 0 {
        len / 2
    } else {
        dim_at(len, (lv - 1) as nat) / 2
    }
}

/// First link of level `lv`.
pub open spec fn start_at(len: nat, lv: nat) -> nat
    decreases lv,
{
    if lv == 0 {
        0
    } else {
        start_at(len, (lv - 1) as nat) + dim_at(len, (lv - 1) as nat)
    }
}

/// The additions of one level starting at link `start` with `d` links: links
/// `start + 2j` and `start + 2j + 1` are summed into link `start + d + j`.
pub open spec fn level_steps(start: nat, d: nat) -> Seq<(usize, usize, usize)> {
    Seq::new(
        (d + 1) / 2,
        |j: int| ((start + 2 * j) as usize, (start + 2 * j + 1) as usize, (start + d + j) as usize),
    )
}

/// The additions of the first `levels` levels, level after level.
pub open spec fn heap_steps(len: nat, levels: nat) -> Seq<(usize, usize, usize)>
    decreases levels,
{
    if levels == 0 {
        seq![]
    } else {
        heap_steps(len, (levels - 1) as nat) + level_steps(
            start_at(len, (levels - 1) as nat),
            dim_at(len, (levels - 1) as nat),
        )
    }
}

impl HeapCalculator {
    /// The additions that sum the heap, in order: each `(a, b, dest)` adds
    /// the operands of links `a` and `b` and stores the sum in link `dest`;
    /// the total ends in the last-but-one link. Every index is a link of the heap.
    pub fn sum_steps(&self) -> (r: Vec<(usize, usize, usize)>)
        ensures
            r@ == heap_steps(self@.len(), floor_log2(self@.len())),
            forall|k: int|
                0 <= k < r@.len() ==> (#[trigger] r@[k]).0 < self@.len() && r@[k].1 < self@.len()
                    && r@[k].2 < self@.len(),
    {
        let len = self.heap_vec.len();
        let levels = log2(len);
        let mut steps: Vec<(usize, usize, usize)> = Vec::new();
        let mut start: usize = 0;
        let mut lv_dim: usize = len / 2;
        let mut lv: usize = 0;
        while lv < levels
            invariant
                len == self@.len(),
                levels == floor_log2(len as nat),
                lv <= levels,
                start == start_at(len as nat, lv as nat),
                lv_dim == dim_at(len as nat, lv as nat),
                start + 2 * lv_dim <= len,
                steps@ == heap_steps(len as nat, lv as nat),
                forall|k: int|
                    0 <= k < steps@.len() ==> (#[trigger] steps@[k]).0 < len && steps@[k].1 < len
                        && steps@[k].2 < len,
            decreases levels - lv,
        {
            let ghost before = steps@;
            let mut j: usize = 0;
            let count = lv_dim / 2 + lv_dim % 2;
            while j < count
                invariant
                    len == self@.len(),
                    start + 2 * lv_dim <= len,
                    count == (lv_dim + 1) / 2,
                    j <= count,
                    steps@ == before + level_steps(start as nat, lv_dim as nat).take(j as int),
                    forall|k: int|
                        0 <= k < steps@.len() ==> (#[trigger] steps@[k]).0 < len && steps@[k].1 < len
                            && steps@[k].2 < len,
                decreases count - j,
            {
                steps.push((start + 2 * j, start + 2 * j + 1, start + lv_dim + j));
                proof {
                    assert(level_steps(start as nat, lv_dim as nat).take(j + 1) =~= level_steps(
                        start as nat,
                        lv_dim as nat,
                    ).take(j as int).push(
                        ((start + 2 * j) as usize, (start + 2 * j + 1) as usize, (start + lv_dim + j) as usize),
                    ));
                }
                j += 1;
            }
            proof {
                assert(level_steps(start as nat, lv_dim as nat).take(j as int) =~= level_steps(
                    start as nat,
                    lv_dim as nat,
                ));
            }
            start = start + lv_dim;
            lv_dim = lv_dim / 2;
            lv = lv + 1;
        }
        steps
    }
}

/// Number of halvings that bring `n` down to 1 (0 for `n <= 1`).
pub open spec fn floor_log2(n: nat) -> nat
    decreases n,
{
    if n <= 1 {
        0
    } else {
        1 + floor_log2(n / 2)
    }
}

/// Number of halvings that bring `len` down to 1: the depth of the heap.
pub fn log2(len: usize) -> (r: usize)
    ensures
        r == floor_log2(len as nat),
{
    let mut shifts: usize = 0;
    let mut n: usize = len;
    proof {
        lemma_floor_log2_le(len as nat);
    }
    while n > 1
        invariant
            shifts + floor_log2(n as nat) == floor_log2(len as nat),
            floor_log2(len as nat) <= len,
        decreases n,
    {
        n = n / 2;
        shifts += 1;
    }
    shifts
}

proof fn lemma_floor_log2_le(n: nat)
    ensures
        floor_log2(n) <= n,
    decreases n,
{
    if n > 1 {
        lemma_floor_log2_le(n / 2);
    }
}

} // verus!
