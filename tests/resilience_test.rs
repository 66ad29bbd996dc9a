use spiking_nn_resilience::adder_tree::{create_tree, FullAdder, FullAdderTree, Node};
use spiking_nn_resilience::fault::Stuck;
use spiking_nn_resilience::matrix::WeightMatrix;
use spiking_nn_resilience::network::NN;
use spiking_nn_resilience::neuron::{Configuration, LifNeuron, NeuronField};
use spiking_nn_resilience::resilience::{
    stuck_from_lowercase, Component, Resilience, ResilienceJson, TrialTally,
};

fn json(stuck: &str) -> ResilienceJson {
    ResilienceJson { components: vec!["Full adder".to_string()], stuck: stuck.to_string(), times: 7 }
}

#[test]
fn stuck_names_in_any_case() {
    let r = json("Stuck_At_1").to_resilience().unwrap();
    assert_eq!(r.stuck_type, Stuck::One);
    assert_eq!(r.times, 7);
    assert_eq!(r.components, vec!["Full adder".to_string()]);
    assert_eq!(json("ZERO").to_resilience().unwrap().stuck_type, Stuck::Zero);
    assert_eq!(json("t").to_resilience().unwrap().stuck_type, Stuck::Transient);
    assert_eq!(json("2").to_resilience().unwrap().stuck_type, Stuck::Transient);
    assert_eq!(stuck_from_lowercase("o"), Some(Stuck::One));
    assert_eq!(stuck_from_lowercase("One"), None);
}

#[test]
fn unknown_stuck_name_is_an_error() {
    let e = json("Sideways").to_resilience().unwrap_err();
    assert_eq!(e.name, "Sideways");
}

#[test]
fn component_synonyms() {
    assert_eq!(Component::from_name("Full Adder"), Some(Component::FullAdder));
    assert_eq!(Component::from_name("fullAdder"), Some(Component::FullAdder));
    assert_eq!(Component::from_name("NEURONI"), Some(Component::Neurons));
    assert_eq!(Component::from_name("Membrane Potential"), Some(Component::MembranePotential));
    assert_eq!(Component::from_name("threshold"), Some(Component::Comparator));
    assert_eq!(Component::from_name("flux capacitor"), None);
    assert_eq!(Component::from_lowercase("Neuron"), None);
}

fn network() -> NN {
    let c = Configuration::new(2.0f64.to_bits(), 0.5f64.to_bits(), 2.1f64.to_bits(), 1.0f64.to_bits());
    let zero = |n: usize| WeightMatrix::from_vec(n, n, vec![0; n * n]);
    NN::new()
        .layer(LifNeuron::new_vec(c, 3), zero(3), zero(3))
        .unwrap()
        .layer(LifNeuron::new_vec(c, 2), WeightMatrix::from_vec(3, 2, vec![0; 6]), zero(2))
        .unwrap()
}

#[test]
fn one_fault_per_trial() {
    let res = Resilience::new(vec!["adder".to_string()], Stuck::One, 1);
    for _ in 0..10 {
        let mut nn = network();
        let site = res.inject_fault(&mut nn).unwrap();
        assert_eq!(site.field, NeuronField::FullAdder);
        assert!(site.layer < 2);
        let faulty: usize = nn
            .layers
            .iter()
            .map(|l| l.neurons.iter().filter(|n| n.heap_tree.is_some()).count())
            .sum();
        assert_eq!(faulty, 1);
        assert!(nn.layers[site.layer].neurons[site.neuron].heap_tree.is_some());
    }
}

#[test]
fn neuron_faults_target_parameters() {
    let res = Resilience::new(vec!["neurons".to_string()], Stuck::Transient, 1);
    for _ in 0..10 {
        let mut nn = network();
        let site = res.inject_fault(&mut nn).unwrap();
        assert!(matches!(
            site.field,
            NeuronField::RestPotential | NeuronField::ResetPotential | NeuronField::TimeConstant | NeuronField::Threshold
        ));
    }
}

#[test]
fn unknown_component_leaves_network() {
    let res = Resilience::new(vec!["gearbox".to_string()], Stuck::One, 1);
    let mut nn = network();
    assert!(res.inject_fault(&mut nn).is_none());
    assert!(nn.layers.iter().all(|l| l.neurons.iter().all(|n| n.heap_tree.is_none() && n.injection_vmem.is_none())));
    assert_eq!(res.get_rand_component(), "gearbox");
}

#[test]
fn tally_counts_matching_trials() {
    let base: Vec<(u128, Vec<u128>)> = vec![(0, vec![2, 3]), (1, vec![])];
    let other: Vec<(u128, Vec<u128>)> = vec![(0, vec![2]), (1, vec![])];
    let mut t = TrialTally::new();
    assert!(t.record_trial(&base, &base.clone()));
    assert!(!t.record_trial(&base, &other));
    assert!(t.record_trial(&base, &base.clone()));
    assert_eq!(t.trials(), 3);
    assert_eq!(t.matching(), 2);
    let pct = t.matching() as f64 / t.trials() as f64 * 100.0;
    assert!(pct >= 0.0 && pct <= 100.0);
}

fn leaves(n: &Node) -> usize {
    match n {
        Node::Value(_) => 1,
        Node::FullAdderNode(a) => leaves(a.left.as_ref().unwrap()) + leaves(a.right.as_ref().unwrap()),
    }
}

fn selectors(n: &Node, out: &mut Vec<Option<(u8, u64)>>) {
    if let Node::FullAdderNode(a) = n {
        selectors(a.left.as_ref().unwrap(), out);
        selectors(a.right.as_ref().unwrap(), out);
        out.push(a.full_adder.error_selector);
    }
}

#[test]
fn tree_marks_the_chosen_adder() {
    let mut idx = 0;
    let root = create_tree(5, &mut idx, 2, (3, 9));
    assert_eq!(idx, 4);
    assert_eq!(leaves(&root), 5);
    let mut sels = Vec::new();
    selectors(&root, &mut sels);
    assert_eq!(sels, vec![None, None, Some((3, 9)), None]);
}

#[test]
fn random_tree_has_one_faulty_adder() {
    for n in 2..9 {
        let tree = FullAdderTree::new(n);
        assert_eq!(leaves(&tree.root), n);
        let mut sels = Vec::new();
        selectors(&tree.root, &mut sels);
        assert_eq!(sels.len(), n - 1);
        let faulty: Vec<_> = sels.iter().flatten().collect();
        assert_eq!(faulty.len(), 1);
        assert!((1..=3).contains(&faulty[0].0) && faulty[0].1 < 64);
    }
}

#[test]
fn adder_fault_fields() {
    let one = 1.0f64.to_bits();
    let mut a = FullAdder::new(one, one);
    assert_eq!(a.operands(Stuck::One), (one, one));
    a.error_selector = Some((1, 63));
    assert_eq!(a.operands(Stuck::One), ((-1.0f64).to_bits(), one));
    a.error_selector = Some((2, 63));
    assert_eq!(a.operands(Stuck::Transient), (one, (-1.0f64).to_bits()));
    a.error_selector = Some((3, 63));
    assert_eq!(a.operands(Stuck::One), (one, one));
    assert_eq!(a.output_of(Stuck::One, 2.0f64.to_bits()), (-2.0f64).to_bits());
}

#[test]
fn one_input_tree_is_a_leaf() {
    let tree = FullAdderTree::new(1);
    assert!(matches!(tree.root, Node::Value(0)));
    assert_eq!(leaves(&tree.root), 1);
}

fn balanced(n: &Node) -> bool {
    match n {
        Node::Value(_) => true,
        Node::FullAdderNode(a) => {
            let (l, r) = (a.left.as_ref().unwrap(), a.right.as_ref().unwrap());
            leaves(l) == (leaves(n) + 1) / 2 && balanced(l) && balanced(r)
        }
    }
}

#[test]
fn trees_are_balanced() {
    for n in 1..12 {
        assert!(balanced(&FullAdderTree::new(n).root));
    }
    let mut idx = 0;
    let root = create_tree(7, &mut idx, 0, (1, 0));
    if let Node::FullAdderNode(a) = &root {
        assert_eq!(leaves(a.left.as_ref().unwrap()), 4);
        assert_eq!(leaves(a.right.as_ref().unwrap()), 3);
    } else {
        panic!("seven inputs need an adder");
    }
}

#[test]
fn campaign_tally_counts_matching_outputs() {
    let base: Vec<(u128, Vec<u128>)> = vec![(0, vec![2, 3]), (1, vec![])];
    let other: Vec<(u128, Vec<u128>)> = vec![(0, vec![2]), (1, vec![])];
    let t = TrialTally::of_trials(&base, &vec![base.clone(), other.clone(), base.clone(), other]);
    assert_eq!(t.trials(), 4);
    assert_eq!(t.matching(), 2);
    let empty = TrialTally::of_trials(&base, &vec![]);
    assert_eq!((empty.trials(), empty.matching()), (0, 0));
}

#[test]
fn all_valid_names_always_inject() {
    let res = Resilience::new(vec!["Neurons".to_string(), "VMEM".to_string(), "adder".to_string()], Stuck::Zero, 1);
    for _ in 0..20 {
        let mut nn = network();
        assert!(res.inject_fault(&mut nn).is_some());
    }
}
