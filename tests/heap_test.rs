use spiking_nn_resilience::fault::Stuck;
use spiking_nn_resilience::heap::{log2, HeapCalculator, Link};
use spiking_nn_resilience::neuron::{heap_dim, LeakyIntegrateFire, LifNeuron};

#[test]
fn bit() {
    let num_10: f64 = 10.0;
    let num_20: f64 = 20.0;

    let bits_10 = num_10.to_bits();
    let bits_20 = num_20.to_bits();

    let xor_result = bits_10 ^ bits_20;

    let changed_bit = (64 - xor_result.leading_zeros()) - 1;

    println!("Bit da cambiare: {}", changed_bit);
}

#[test]
fn heap_has_one_faulty_link() {
    for _ in 0..20 {
        let heap = HeapCalculator::new(4, Stuck::One);
        assert_eq!(heap.len(), 8);
        let mut faulty = 0;
        for i in 0..heap.len() {
            assert_eq!(heap.value(i), 0);
            let (a, b) = heap.sum_operands(i, i);
            if a != 0 || b != 0 {
                faulty += 1;
                assert_eq!(a.count_ones(), 1);
            }
        }
        assert_eq!(faulty, 1);
    }
}

#[test]
fn heap_loads_inputs_in_order() {
    let mut heap = HeapCalculator::new(4, Stuck::Zero);
    heap.load_inputs(&vec![1.0f64.to_bits(), 2.0f64.to_bits(), 3.0f64.to_bits()]);
    assert_eq!(heap.value(0), 1.0f64.to_bits());
    assert_eq!(heap.value(1), 2.0f64.to_bits());
    assert_eq!(heap.value(2), 3.0f64.to_bits());
    assert_eq!(heap.value(3), 0);
    heap.set_value(5, 7);
    assert_eq!(heap.value(5), 7);
}

#[test]
fn link_sum_operands_without_fault() {
    let a = Link::plain(5);
    let b = Link::plain(9);
    assert_eq!(a.sum_operands(&b), (5, 9));
}

#[test]
fn link_stuck_one_sets_its_bit() {
    let faulty = Link::new(0, Some(Stuck::One));
    let other = Link::plain(42);
    let (a, b) = faulty.sum_operands(&other);
    assert_eq!(a.count_ones(), 1);
    assert_eq!(b, 42);
    let (c, d) = other.sum_operands(&faulty);
    assert_eq!((c, d), (a, 42));
}

#[test]
fn link_stuck_zero_on_zero_keeps_zero() {
    let faulty = Link::new(0, Some(Stuck::Zero));
    assert_eq!(faulty.operand(), 0);
}

#[test]
fn link_transient_flips_one_bit() {
    let faulty = Link::new(u64::MAX, Some(Stuck::Transient));
    assert_eq!(faulty.operand().count_zeros(), 1);
}

#[test]
fn invert_bit_at_exact() {
    let l = Link::plain(0);
    assert_eq!(l.invert_bit_at(&0b1010, Some(0b0010)), 0b1000);
    assert_eq!(l.invert_bit_at(&0b1010, Some(0b0100)), 0b1110);
}

#[test]
fn log2_values() {
    assert_eq!(log2(0), 0);
    assert_eq!(log2(1), 0);
    assert_eq!(log2(2), 1);
    assert_eq!(log2(8), 3);
    assert_eq!(log2(9), 3);
}

#[test]
fn heap_dim_is_next_power_of_two() {
    assert_eq!(heap_dim(0), 1);
    assert_eq!(heap_dim(1), 1);
    assert_eq!(heap_dim(3), 4);
    assert_eq!(heap_dim(4), 4);
    assert_eq!(heap_dim(6), 8);
}

#[test]
fn use_heap_sizes_heap() {
    let mut n = LifNeuron::new(1, 2, 3, 4);
    LeakyIntegrateFire::use_heap(&mut n, Stuck::One, 6);
    let heap = LeakyIntegrateFire::get_heap(&n).unwrap();
    assert_eq!(heap.len(), 16);
    assert_eq!((n.v_rest, n.v_reset, n.v_th, n.tau), (1, 2, 3, 4));
}

#[test]
fn heap_sum_steps_level_by_level() {
    let heap = HeapCalculator::new(4, Stuck::Zero);
    assert_eq!(heap.sum_steps(), vec![(0, 1, 4), (2, 3, 5), (4, 5, 6), (6, 7, 7)]);
    let small = HeapCalculator::new(1, Stuck::Zero);
    assert_eq!(small.sum_steps(), vec![(0, 1, 1)]);
}
