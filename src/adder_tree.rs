//! A balanced tree of two-input adders that sums its inputs from left to
//! right, one adder of which may carry a fault in one of its three fields.
use crate::fault::{apply_injection, faulted, mask_of, Stuck};
use crate::heap::operands_of;
use crate::random::random_below;
use vstd::prelude::*;

verus! {

/// Which field of an adder is faulty (1: first input, 2: second input,
/// 3: output) and at which bit.
pub type ErrorSelector = (u8, u64);

/// The selector names a field and a bit that exist.
pub open spec fn selector_valid(s: ErrorSelector) -> bool {
    1 <= s.0 <= 3 && s.1 < 64
}

/// A two-input adder over bit patterns of 64-bit floats.
#[derive(Clone, Copy, Debug)]
pub struct FullAdder {
    pub input1: u64,
    pub input2: u64,
    pub output: u64,
    pub error_selector: Option<ErrorSelector>,
}

/// What the adder adds: its inputs, the selected one passed through the fault.
pub open spec fn adder_operands(a: FullAdder, stuck: Stuck) -> (u64, u64) {
    match a.error_selector {
        Some(s) => if s.0 == 1 {
            (faulted(a.input1, mask_of(s.1), stuck), a.input2)
        } else if s.0 == 2 {
            (a.input1, faulted(a.input2, mask_of(s.1), stuck))
        } else {
            (a.input1, a.input2)
        },
        None => (a.input1, a.input2),
    }
}

/// What the adder outputs for the sum `sum` of its operands: the sum, passed
/// through the fault when the output is the faulty field.
pub open spec fn adder_output(a: FullAdder, stuck: Stuck, sum: u64) -> u64 {
    match a.error_selector {
        Some(s) => if s.0 == 3 {
            faulted(sum, mask_of(s.1), stuck)
        } else {
            sum
        },
        None => sum,
    }
}

impl FullAdder {
    /// An adder with the given inputs, output 0 and no fault.
    pub fn new(input_left: u64, input_right: u64) -> (r: FullAdder)
        ensures
            r == (FullAdder { input1: input_left, input2: input_right, output: 0, error_selector: None }),
    {
        FullAdder { input1: input_left, input2: input_right, output: 0, error_selector: None }
    }

    /// The two operands the adder adds under fault kind `stuck`.
    pub fn operands(&self, stuck: Stuck) -> (r: (u64, u64))
        requires
            self.error_selector is Some ==> selector_valid(self.error_selector.unwrap()),
        ensures
            r == adder_operands(*self, stuck),
    {
        match self.error_selector {
            Some(s) => if s.0 == 1 {
                (apply_injection(self.input1, stuck, s.1), self.input2)
            } else if s.0 == 2 {
                (self.input1, apply_injection(self.input2, stuck, s.1))
            } else {
                (self.input1, self.input2)
            },
            None => (self.input1, self.input2),
        }
    }

    /// The output of the adder for the sum `sum` of its operands under fault
    /// kind `stuck`.
    pub fn output_of(&self, stuck: Stuck, sum: u64) -> (r: u64)
        requires
            self.error_selector is Some ==> selector_valid(self.error_selector.unwrap()),
        ensures
            r == adder_output(*self, stuck, sum),
    {
        match self.error_selector {
            Some(s) => if s.0 == 3 {
                apply_injection(sum, stuck, s.1)
            } else {
                sum
            },
            None => sum,
        }
    }
}

/// A node of the tree: an adder over two subtrees, or a leaf that takes the
/// next input.
#[derive(Debug)]
pub enum Node {
    FullAdderNode(FullAdderNode),
    Value(u64),
}

/// An adder whose inputs come from its left and right subtrees.
#[derive(Debug)]
pub struct FullAdderNode {
    pub full_adder: FullAdder,
    pub left: Option<Box<Node>>,
    pub right: Option<Box<Node>>,
}

/// Number of leaves.
pub open spec fn leaves(n: Node) -> nat
    decreases n,
{
    match n {
        Node::FullAdderNode(a) => (match a.left {
            Some(l) => leaves(*l),
            None => 0,
        }) + (match a.right {
            Some(r) => leaves(*r),
            None => 0,
        }),
        Node::Value(_) => 1,
    }
}

/// The error selectors of the adders, in post-order (left subtree, right
/// subtree, node).
pub open spec fn selectors(n: Node) -> Seq<Option<ErrorSelector>>
    decreases n,
{
    match n {
        Node::FullAdderNode(a) => (match a.left {
            Some(l) => selectors(*l),
            None => seq![],
        }) + (match a.right {
            Some(r) => selectors(*r),
            None => seq![],
        }) + seq![a.full_adder.error_selector],
        Node::Value(_) => seq![],
    }
}

/// Every adder and leaf holds 0.
pub open spec fn all_zero(n: Node) -> bool
    decreases n,
{
    match n {
        Node::FullAdderNode(a) => a.full_adder.input1 == 0 && a.full_adder.input2 == 0
            && a.full_adder.output == 0 && a.left is Some && a.right is Some && all_zero(
            *a.left.unwrap(),
        ) && all_zero(*a.right.unwrap()),
        Node::Value(v) => v == 0,
    }
}

/// Every adder over `m` leaves has `ceil(m / 2)` of them in its left subtree.
pub open spec fn balanced(n: Node) -> bool
    decreases n,
{
    match n {
        Node::FullAdderNode(a) => a.left is Some && a.right is Some && leaves(*a.left.unwrap()) == (
        leaves(n) + 1) / 2 && balanced(*a.left.unwrap()) && balanced(*a.right.unwrap()),
        Node::Value(_) => true,
    }
}

/// The selectors of `count` adders numbered from `first`, where only adder
/// `target` carries `sel`.
pub open spec fn one_selected(first: int, count: nat, target: int, sel: ErrorSelector) -> Seq<
    Option<ErrorSelector>,
> {
    Seq::new(count, |k: int| if first + k == target { Some(sel) } else { None })
}

/// A tree of two-input adders over a fixed number of inputs.
#[derive(Debug)]
pub struct FullAdderTree {
    pub root: Node,
}

impl FullAdderTree {
    /// A balanced tree over `num_inputs` inputs in which one adder, drawn
    /// uniformly at random, has a fault in a random field at a random bit; a
    /// single input gives a single leaf, with no adder and no fault.
    pub fn new(num_inputs: usize) -> (r: FullAdderTree)
        requires
            1 <= num_inputs,
        ensures
            leaves(r.root) == num_inputs,
            all_zero(r.root),
            balanced(r.root),
            num_inputs == 1 ==> r.root == Node::Value(0),
            num_inputs >= 2 ==> exists|k: int, sel: ErrorSelector|
                0 <= k < num_inputs - 1 && selector_valid(sel) && selectors(r.root) == #[trigger] one_selected(
                    0,
                    (num_inputs - 1) as nat,
                    k,
                    sel,
                ),
    {
        if num_inputs == 1 {
            return FullAdderTree { root: Node::Value(0) };
        }
        let random_index = random_below(num_inputs - 1);
        let field = (random_below(3) + 1) as u8;
        let bit = random_below(64) as u64;
        let error_selector: ErrorSelector = (field, bit);
        let mut current_index: usize = 0;
        let root = create_tree(num_inputs, &mut current_index, random_index, error_selector);
        proof {
            assert(selector_valid(error_selector));
        }
        FullAdderTree { root }
    }
}

/// A balanced tree over `num_inputs` inputs (a single leaf below two), whose
/// adders are numbered in post-order from `*curr_index`; the adder numbered
/// `random_index` carries `error_selector`. Leaves `*curr_index` past the
/// adders built.
pub fn create_tree(
    num_inputs: usize,
    curr_index: &mut usize,
    random_index: usize,
    error_selector: ErrorSelector,
) -> (r: Node)
    requires
        *old(curr_index) + num_inputs <= usize::MAX,
    ensures
        leaves(r) == if num_inputs < 2 { 1 } else { num_inputs as nat },
        all_zero(r),
        balanced(r),
        selectors(r) == one_selected(
            *old(curr_index) as int,
            if num_inputs < 2 { 0 } else { (num_inputs - 1) as nat },
            random_index as int,
            error_selector,
        ),
        *final(curr_index) == *old(curr_index) + selectors(r).len(),
    decreases num_inputs,
{
    if num_inputs < 2 {
        Node::Value(0)
    } else if num_inputs == 2 {
        let mut full_adder = FullAdder::new(0, 0);
        if *curr_index == random_index {
            full_adder.error_selector = Some(error_selector);
        }
        let start = *curr_index;
        *curr_index += 1;
        let r = Node::FullAdderNode(
            FullAdderNode {
                full_adder,
                left: Some(Box::new(Node::Value(0))),
                right: Some(Box::new(Node::Value(0))),
            },
        );
        proof {
            assert(selectors(Node::Value(0)) =~= seq![]);
            assert(leaves(Node::Value(0)) == 1);
            assert(all_zero(Node::Value(0)));
            assert(balanced(Node::Value(0)));
            assert(selectors(r) =~= one_selected(start as int, 1, random_index as int, error_selector));
        }
        r
    } else {
        let half = num_inputs / 2 + num_inputs % 2;
        let start = *curr_index;
        let left_tree = create_tree(half, curr_index, random_index, error_selector);
        let mid = *curr_index;
        let right_tree = create_tree(num_inputs - half, curr_index, random_index, error_selector);
        let mut sum_tree = FullAdder::new(0, 0);
        if *curr_index == random_index {
            sum_tree.error_selector = Some(error_selector);
        }
        let last = *curr_index;
        *curr_index += 1;
        let r = Node::FullAdderNode(
            FullAdderNode {
                full_adder: sum_tree,
                left: Some(Box::new(left_tree)),
                right: Some(Box::new(right_tree)),
            },
        );
        proof {
            assert(selectors(r) =~= one_selected(
                start as int,
                (num_inputs - 1) as nat,
                random_index as int,
                error_selector,
            ));
        }
        r
    }
}

/// Without a fault, the adders of the heap and of the tree add their inputs
/// as they are: the fault path changes no operand and no output.
pub proof fn lemma_fault_free_adders(
    a: (u64, Option<Stuck>, Option<u64>),
    b: (u64, Option<Stuck>, Option<u64>),
    adder: FullAdder,
    stuck: Stuck,
    sum: u64,
)
    requires
        a.1 is None,
        b.1 is None,
        adder.error_selector is None,
    ensures
        operands_of(a, b) == (a.0, b.0),
        adder_operands(adder, stuck) == (adder.input1, adder.input2),
        adder_output(adder, stuck, sum) == sum,
{
}

} // verus!
