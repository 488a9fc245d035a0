use learn::activation::{ReLU, Tanh};
use learn::baseline::BaselineStage;
use learn::fixed::{row_matches, FIXED_ONE};
use learn::pheno::{NeuralNetworkPhenotype, NeuralNetworkStrategy};
use learn::shape::{
    ActivationData, ActivationType, LayerShape, LayerType, NeuralNetworkShape,
};
use learn::stage::{Stage, TrainableStage};
use learn::store::ModelStore;
use learn::train::{build_escalation_targets, filter_confirmed, TrainableRetryNeuralNetwork};
use learn::utils::{Utils, WrappedUtils};

fn dense(input_size: usize, output_size: usize) -> LayerShape {
    LayerShape {
        layer_type: LayerType::Dense {
            input_size,
            output_size,
        },
        activation: ActivationData::new(ActivationType::ReLU),
    }
}

#[test]
fn escalation_labels_follow_the_probe() {
    let predictions = vec![vec![100i64, 100], vec![100, 400_000]];
    let targets = vec![vec![0i64, 0], vec![0, 0]];
    let augmented = build_escalation_targets(&predictions, &targets, 100_000);
    // the first prediction matched within tolerance: label 0; the second
    // missed on its last channel: label 1.0
    assert_eq!(augmented[0], vec![0, 0, 0]);
    assert_eq!(augmented[1], vec![0, 0, FIXED_ONE]);
}

#[test]
fn filtering_keeps_confirmed_examples_and_strips_labels() {
    let inputs = vec![vec![1i64, 2], vec![3, 4], vec![5, 6]];
    let aug_targets = vec![vec![10i64, 20, 0], vec![30, 40, 0], vec![50, 60, FIXED_ONE]];
    let predictions = vec![
        vec![10i64, 20, 0],           // confirmed in full
        vec![30, 40, 900_000],        // wrong escalation channel
        vec![50, 60, FIXED_ONE + 10], // confirmed, including the label
    ];
    let (kept_inputs, kept_targets) = filter_confirmed(&inputs, &aug_targets, &predictions, 1_000);
    assert_eq!(kept_inputs, vec![vec![1, 2], vec![5, 6]]);
    assert_eq!(kept_targets, vec![vec![10, 20], vec![50, 60]]);
}

#[test]
fn row_matching_needs_every_dimension() {
    assert!(row_matches(&vec![0, 0], &vec![50, -50], 51));
    assert!(!row_matches(&vec![0, 0], &vec![50, -51], 51));
    assert!(row_matches(&vec![], &vec![], 1));
}

#[test]
fn test_relu() {
    let relu = ReLU;
    let input = vec![-FIXED_ONE, 0, FIXED_ONE];
    let output = relu.forward(&input);
    assert_eq!(output, vec![0, 0, FIXED_ONE]);

    let grad_output = vec![500_000i64, 500_000, 500_000];
    let grad_input = relu.backward(&input, &grad_output);
    assert_eq!(grad_input, vec![0, 0, 500_000]);
}

#[test]
fn activation_markers_name_their_kind() {
    let tanh = Tanh::new();
    assert_eq!(
        tanh.get_activation_data().activation_type(),
        ActivationType::Tanh
    );
    let relu = ReLU;
    assert_eq!(
        relu.get_activation_data().activation_type(),
        ActivationType::ReLU
    );
    let softmax = ActivationData::new_softmax(2 * FIXED_ONE);
    assert_eq!(softmax.activation_type(), ActivationType::Softmax);
    assert_eq!(softmax.temperature(), Some(2 * FIXED_ONE));
}

#[test]
fn phenotype_wraps_an_independent_duplicate() {
    let utils = WrappedUtils::new(Utils::new(1000000000, 4));
    let mut store: ModelStore<BaselineStage> = ModelStore::new();
    let mut nn = TrainableRetryNeuralNetwork::<BaselineStage>::new(
        NeuralNetworkShape {
            layers: vec![dense(2, 2)],
        },
        0,
        "pheno_scratch".to_string(),
        utils.clone(),
    );
    nn.save(&mut store, "pheno_source".to_string()).unwrap();

    let mut pheno = NeuralNetworkPhenotype::new(&nn, &mut store).unwrap();
    assert!(pheno.get_nn().get_model_directory().is_internal());
    assert_eq!(pheno.get_number_mutates(), 0);
    assert_eq!(pheno.incr_number_mutates(), 1);
    assert_eq!(pheno.incr_number_mutates(), 2);
    assert_eq!(pheno.decr_number_mutates(), 1);
    assert_eq!(pheno.decr_number_mutates(), 0);
    assert_eq!(pheno.decr_number_mutates(), 0);
    pheno.allocate();

    pheno.set_left_half_shape(NeuralNetworkShape {
        layers: vec![dense(2, 3)],
    });
    pheno.set_right_half_shape(NeuralNetworkShape {
        layers: vec![dense(3, 2)],
    });
    assert!(pheno.left_half_shape.is_some());
    pheno.reset_half_shapes();
    assert!(pheno.left_half_shape.is_none());
    assert!(pheno.right_half_shape.is_none());

    let replacement = TrainableRetryNeuralNetwork::<BaselineStage>::new(
        NeuralNetworkShape {
            layers: vec![dense(2, 2)],
        },
        0,
        "pheno_other".to_string(),
        utils,
    );
    pheno.set_nn(replacement);
    assert!(!store
        .entries
        .iter()
        .any(|e| e.path.segments[0] == "pheno_other"));
}

#[test]
fn strategy_remembers_its_model_directory() {
    let strategy = NeuralNetworkStrategy::new("best_model".to_string());
    assert_eq!(strategy.model_directory().as_str(), "best_model");
}

#[test]
fn baseline_stage_reports_shape_and_learns() {
    let shape = NeuralNetworkShape {
        layers: vec![dense(2, 2)],
    };
    let utils = WrappedUtils::new(Utils::new(1000000000, 4));
    let mut stage = BaselineStage::fresh(&shape, &utils);
    assert_eq!(stage.shape().num_layers(), 1);
    assert_eq!(stage.predict(&vec![0, 0]), vec![0, 0]);

    let inputs = vec![vec![FIXED_ONE, FIXED_ONE]; 200];
    let targets = vec![vec![200_000i64, -200_000]; 200];
    let accuracy = stage.train(&inputs, &targets, 10_000, 100, 50_000, false, FIXED_ONE);
    let out = stage.predict(&vec![0, 0]);
    assert!((out[0] - 200_000).abs() < 100);
    assert!((out[1] + 200_000).abs() < 100);
    assert!(accuracy > 0);

    let copy = stage.duplicate_stage();
    assert_eq!(copy.response, stage.response);
}
