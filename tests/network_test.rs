use spiking_nn_resilience::fault::Stuck;
use spiking_nn_resilience::matrix::WeightMatrix;
use spiking_nn_resilience::network::{NetworkError, NN};
use spiking_nn_resilience::neuron::{Configuration, LeakyIntegrateFire, LifNeuron, NeuronField};
use spiking_nn_resilience::spike::Spike;

fn m(rows: usize, cols: usize, data: Vec<f64>) -> WeightMatrix {
    WeightMatrix::from_vec(rows, cols, data.iter().map(|x| x.to_bits()).collect())
}

fn conf(v_rest: f64, v_reset: f64, v_th: f64, tau: f64) -> Configuration {
    Configuration::new(v_rest.to_bits(), v_reset.to_bits(), v_th.to_bits(), tau.to_bits())
}

fn two_layers() -> NN {
    let c = conf(2.0, 0.5, 2.1, 1.0);
    NN::new()
        .layer(
            LifNeuron::new_vec(c, 3),
            m(3, 3, vec![1.0, 0.0, 0.0, 0.0, 1.0, 0.0, 0.0, 0.0, 1.0]),
            m(3, 3, vec![0.0; 9]),
        )
        .unwrap()
        .layer(
            LifNeuron::new_vec(c, 2),
            m(3, 2, vec![0.0, 1.0, 0.5, 0.5, 0.0, 1.0]),
            m(2, 2, vec![0.0, 0.0, 0.0, 0.0]),
        )
        .unwrap()
}

#[test]
fn matrix_is_column_major() {
    let w = m(3, 2, vec![0.0, 1.0, 0.5, 0.5, 0.0, 1.0]);
    assert_eq!(w.get(1, 0), Some(1.0f64.to_bits()));
    assert_eq!(w.get(2, 0), Some(0.5f64.to_bits()));
    assert_eq!(w.get(0, 1), Some(0.5f64.to_bits()));
    assert_eq!(w.get(3, 0), None);
    assert_eq!(w.get(0, 2), None);
    assert_eq!(w.column(1), vec![0.5f64.to_bits(), 0.0f64.to_bits(), 1.0f64.to_bits()]);
}

#[test]
fn layers_are_appended() {
    let nn = two_layers();
    assert_eq!(nn.get_num_layers(), 2);
    assert_eq!(nn.layers[1].num_neurons(), 2);
    assert_eq!(NN::new().get_num_layers(), 0);
}

#[test]
fn empty_layer_is_rejected() {
    let r = NN::new().layer(vec![], m(0, 0, vec![]), m(0, 0, vec![]));
    assert_eq!(r.unwrap_err(), NetworkError::EmptyLayer);
}

#[test]
fn intra_weights_must_be_square() {
    let c = conf(2.0, 0.5, 2.1, 1.0);
    let r = NN::new().layer(LifNeuron::new_vec(c, 2), m(2, 2, vec![0.0; 4]), m(2, 1, vec![0.0; 2]));
    assert_eq!(r.unwrap_err(), NetworkError::IncompatibleIntraWeights);
}

#[test]
fn input_weights_must_match_previous_layer() {
    let c = conf(2.0, 0.5, 2.1, 1.0);
    let r = two_layers().layer(LifNeuron::new_vec(c, 2), m(3, 2, vec![0.0; 6]), m(2, 2, vec![0.0; 4]));
    assert_eq!(r.unwrap_err(), NetworkError::IncompatibleInputWeights);
    let first = NN::new().layer(LifNeuron::new_vec(c, 2), m(3, 2, vec![0.0; 6]), m(2, 2, vec![0.0; 4]));
    assert_eq!(first.unwrap_err(), NetworkError::IncompatibleInputWeights);
    assert_eq!(NetworkError::IncompatibleInputWeights.message(), "Incompatible input weight matrix");
}

#[test]
fn output_has_one_train_per_output_neuron() {
    let nn = two_layers();
    let out = nn.collect_output(&vec![vec![Spike::new(3, 1, 1)], vec![], vec![Spike::new(5, 1, 0), Spike::new(5, 1, 1)]]);
    assert_eq!(out, vec![(0, vec![5]), (1, vec![3, 5])]);
    assert_eq!(nn.collect_output(&vec![]).len(), 2);
}

#[test]
fn input_must_name_input_neurons() {
    let nn = two_layers();
    assert!(nn.accepts_input(&vec![Spike::new(1, 0, 2)]));
    assert!(!nn.accepts_input(&vec![Spike::new(1, 0, 3)]));
}

#[test]
fn input_terms_pick_weights_of_firing_neurons() {
    let nn = two_layers();
    let terms = nn.layers[1].input_terms(&vec![Spike::new(4, 0, 0), Spike::new(4, 0, 2)], 1);
    assert_eq!(terms, vec![0.5f64.to_bits(), 1.0f64.to_bits()]);
    assert_eq!(nn.layers[1].get_intra_weight(0, 1), Some(0.0f64.to_bits()));
    assert_eq!(nn.layers[1].get_intra_weight(2, 1), None);
}

#[test]
fn neuron_built_from_configuration() {
    let c = conf(2.0, 0.5, 2.1, 1.0);
    let n = LifNeuron::from_conf(&c);
    assert_eq!(n.v_th, 2.1f64.to_bits());
    assert_eq!(n.v_mem, 0.0f64.to_bits());
    assert_eq!(n.ts_old, 0);
    assert!(n.heap_tree.is_none() && n.injection_vmem.is_none());
}

#[test]
fn parameter_faults_change_one_bit() {
    let c = conf(2.0, 0.5, 2.1, 1.0);
    let mut n = LifNeuron::from_conf(&c);
    LeakyIntegrateFire::update_v_th(&mut n, Stuck::Transient);
    assert_eq!((n.v_th ^ 2.1f64.to_bits()).count_ones(), 1);
    LeakyIntegrateFire::update_tau(&mut n, Stuck::Transient);
    assert_eq!((n.tau ^ 1.0f64.to_bits()).count_ones(), 1);
    n.fault_parameter(NeuronField::RestPotential, Stuck::One, 63);
    assert_eq!(f64::from_bits(n.v_rest), -2.0);
    LeakyIntegrateFire::use_v_mem_with_injection(&mut n, Stuck::Zero);
    let inj = LeakyIntegrateFire::get_injection_vmem(&n).unwrap();
    assert_eq!(inj.stuck(), Stuck::Zero);
    assert!(inj.index() < 64);
}

#[test]
fn stuck_bit_neuron_by_name() {
    let mut nn = two_layers();
    assert_eq!(nn.layers[1].stuck_bit_neuron(Stuck::One, 1, "full adder"), Some(NeuronField::FullAdder));
    assert!(nn.layers[1].neurons[1].heap_tree.is_some());
    assert_eq!(nn.layers[1].neurons[1].heap_tree.as_ref().unwrap().len(), 8);
    assert!(nn.layers[1].neurons[0].heap_tree.is_none());
    assert_eq!(nn.layers[0].stuck_bit_neuron(Stuck::One, 0, "v_mem"), Some(NeuronField::MembranePotential));
    assert!(nn.layers[0].neurons[0].injection_vmem.is_some());
    assert_eq!(nn.layers[0].stuck_bit_neuron(Stuck::One, 0, "bogus"), None);
    assert_eq!(nn.layers[0].stuck_bit_neuron(Stuck::Zero, 2, "comparator"), Some(NeuronField::Comparator));
    assert_eq!(NeuronField::from_name("v_tau"), Some(NeuronField::TimeConstant));
}

#[test]
fn neuron_clock_and_membrane_fault() {
    let c = conf(2.0, 0.5, 2.1, 1.0);
    let mut nn = two_layers();
    let n = nn.layers[0].get_neuron_mut(1).unwrap();
    assert_eq!(n.advance_clock(5), 5);
    assert_eq!(n.advance_clock(7), 2);
    n.v_mem = 1.0f64.to_bits();
    n.inject_membrane_fault();
    assert_eq!(n.v_mem, 1.0f64.to_bits());
    n.injection_vmem = Some(spiking_nn_resilience::neuron::InjectionStruct::new(Stuck::One, 63));
    n.inject_membrane_fault();
    assert_eq!(f64::from_bits(n.v_mem), -1.0);
    assert_eq!(nn.layers[0].neurons[1].ts_old, 7);
    assert!(nn.layers[0].get_neuron_mut(3).is_none());
    assert!(nn.layers[0].get_neuron(2).is_some());
    assert_eq!(LifNeuron::from_conf(&c).ts_old, 0);
}

#[test]
fn unknown_field_name_ignores_neuron_index() {
    let mut nn = two_layers();
    assert_eq!(nn.layers[1].stuck_bit_neuron(Stuck::One, 99, "v_nothing"), None);
    assert!(nn.layers[1].neurons.iter().all(|n| n.heap_tree.is_none() && n.injection_vmem.is_none()));
}

#[test]
fn error_messages() {
    assert_eq!(NetworkError::EmptyLayer.message(), "The number of neurons should be at least 1");
    assert_eq!(NetworkError::IncompatibleIntraWeights.message(), "Incompatible intra weight matrix");
}
