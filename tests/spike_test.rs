use spiking_nn_resilience::spike::{
    are_equal, fired_spikes, new_output, record_output, timestamp_batches, Spike,
};

#[test]
fn all_spikes_sorted_by_time_then_neuron() {
    let input: Vec<(u128, Vec<u128>)> =
        vec![(0, vec![1, 2, 3, 5, 6, 7]), (1, vec![2, 6, 7, 9]), (2, vec![2, 5, 6, 10, 11])];
    let all = Spike::vec_of_all_spikes(input);
    assert_eq!(all.len(), 15);
    let keys: Vec<(u128, usize)> = all.iter().map(|s| (s.ts, s.neuron_id)).collect();
    assert_eq!(
        keys,
        vec![
            (1, 0), (2, 0), (2, 1), (2, 2), (3, 0), (5, 0), (5, 2), (6, 0), (6, 1), (6, 2),
            (7, 0), (7, 1), (9, 1), (10, 2), (11, 2)
        ]
    );
    assert!(all.iter().all(|s| s.layer_id == 0));
}

#[test]
fn unsorted_trains_are_sorted() {
    let all = Spike::vec_of_all_spikes(vec![(1, vec![4, 1]), (0, vec![4, 0])]);
    assert_eq!(
        all,
        vec![Spike::new(0, 0, 0), Spike::new(1, 0, 1), Spike::new(4, 0, 0), Spike::new(4, 0, 1)]
    );
}

#[test]
fn empty_input_gives_no_spike() {
    assert!(Spike::vec_of_all_spikes(vec![]).is_empty());
    assert!(Spike::vec_of_all_spikes(vec![(0, vec![])]).is_empty());
}

#[test]
fn batches_group_equal_times() {
    let all = Spike::vec_of_all_spikes(vec![(0, vec![1, 2]), (1, vec![2, 3]), (2, vec![2])]);
    let batches = timestamp_batches(&all);
    assert_eq!(batches.len(), 3);
    assert_eq!(batches[0], vec![Spike::new(1, 0, 0)]);
    assert_eq!(batches[1], vec![Spike::new(2, 0, 0), Spike::new(2, 0, 1), Spike::new(2, 0, 2)]);
    assert_eq!(batches[2], vec![Spike::new(3, 0, 1)]);
    assert!(timestamp_batches(&vec![]).is_empty());
}

#[test]
fn fired_spikes_are_one_step_later() {
    let out = fired_spikes(7, 2, &vec![true, false, true]);
    assert_eq!(out, vec![Spike::new(8, 2, 0), Spike::new(8, 2, 2)]);
    assert!(fired_spikes(7, 2, &vec![false, false]).is_empty());
}

#[test]
fn output_table_records_by_neuron() {
    let mut out = new_output(3);
    assert_eq!(out, vec![(0, vec![]), (1, vec![]), (2, vec![])]);
    record_output(&mut out, &vec![Spike::new(4, 1, 2), Spike::new(4, 1, 0), Spike::new(5, 1, 7)]);
    record_output(&mut out, &vec![Spike::new(6, 1, 2)]);
    assert_eq!(out, vec![(0, vec![4]), (1, vec![]), (2, vec![4, 6])]);
}

#[test]
fn equal_tables() {
    let a: Vec<(u128, Vec<u128>)> = vec![(0, vec![1, 2]), (1, vec![])];
    let b = a.clone();
    assert!(are_equal(&a, &b));
    assert!(!are_equal(&a, &vec![(0, vec![1, 2]), (1, vec![3])]));
    assert!(!are_equal(&a, &vec![(0, vec![1, 2])]));
    assert!(!are_equal(&a, &vec![(0, vec![1, 3]), (1, vec![])]));
}
