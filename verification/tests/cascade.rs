use learn::baseline::BaselineStage;
use learn::fixed::{escalates, within_tolerance, FIXED_ONE};
use learn::path::ModelPath;
use learn::retry::{Directory, RetryBackup, RetryNeuralNetwork};
use learn::shape::{
    add_internal_dimensions, ActivationData, ActivationType, LayerShape, LayerType,
    NeuralNetworkShape,
};
use learn::store::ModelStore;
use learn::train::TrainableRetryNeuralNetwork;
use learn::utils::{Utils, WrappedUtils};

fn dense(input_size: usize, output_size: usize, activation: ActivationType) -> LayerShape {
    LayerShape {
        layer_type: LayerType::Dense {
            input_size,
            output_size,
        },
        activation: ActivationData::new(activation),
    }
}

fn shape_3_3() -> NeuralNetworkShape {
    NeuralNetworkShape {
        layers: vec![
            dense(3, 3, ActivationType::ReLU),
            dense(3, 3, ActivationType::ReLU),
        ],
    }
}

fn test_utils() -> WrappedUtils {
    WrappedUtils::new(Utils::new(1000000000, 4))
}

#[test]
fn test_retry_neural_network_train() {
    let utils = WrappedUtils::new(Utils::new(1000000000, 4));
    let mut nn = TrainableRetryNeuralNetwork::<BaselineStage>::new(
        NeuralNetworkShape {
            layers: vec![
                LayerShape {
                    layer_type: LayerType::Dense {
                        input_size: 3,
                        output_size: 3,
                    },
                    activation: ActivationData::new(ActivationType::ReLU),
                },
                LayerShape {
                    layer_type: LayerType::Dense {
                        input_size: 3,
                        output_size: 3,
                    },
                    activation: ActivationData::new(ActivationType::ReLU),
                },
            ],
        },
        1,
        "internal_model".to_string(),
        utils.clone(),
    );

    let input = vec![FIXED_ONE, FIXED_ONE, FIXED_ONE];
    // put input 500 times in inputs
    let inputs = vec![input.clone(); 500];
    let target = vec![0i64, 0, 0];
    let targets = vec![target.clone(); 500];

    // 0.01, tolerance 0.1 and validation split 0.7 in fixed-point units
    nn.train(&inputs, &targets, 10_000, 100, 100_000, true, 700_000);

    let prediction = nn.predict(&inputs[0]);
    println!("{:?}", targets[0]);
    println!("{:?}", prediction);
    assert_eq!(prediction.len(), 3);
    // assert that the prediction is close to the target: within 1e-4
    for (p, t) in prediction.iter().zip(&targets[0]) {
        assert!((p - t).abs() < 100);
    }
}

#[test]
fn augment_preserves_layer_count_and_strips_back() {
    let shape = shape_3_3();
    let augmented = add_internal_dimensions(&shape);
    assert_eq!(augmented.num_layers(), shape.num_layers());
    assert_eq!(augmented.output_size(), shape.output_size() + 1);
    assert_eq!(augmented.input_size(), shape.input_size());
    // A value produced under the augmented final layer, truncated by its
    // trailing channel, has the original output width again.
    let produced = vec![0i64; augmented.output_size()];
    let truncated = &produced[0..produced.len() - 1];
    assert_eq!(truncated.len(), shape.output_size());
}

#[test]
fn augment_widens_inner_layers() {
    let shape = NeuralNetworkShape {
        layers: vec![
            dense(4, 5, ActivationType::Sigmoid),
            dense(5, 6, ActivationType::Tanh),
            dense(6, 2, ActivationType::ReLU),
        ],
    };
    let augmented = add_internal_dimensions(&shape);
    let dims: Vec<(usize, usize)> = augmented
        .layers
        .iter()
        .map(|l| (l.input_size(), l.output_size()))
        .collect();
    assert_eq!(dims, vec![(4, 6), (6, 7), (7, 3)]);
    assert!(augmented.is_valid());
    for (a, b) in augmented.layers.iter().zip(shape.layers.iter()) {
        assert_eq!(
            a.activation.activation_type(),
            b.activation.activation_type()
        );
    }
}

/// A depth-one cascade whose primary emits a chosen escalation signal and
/// whose leaf backup answers a sentinel value.
fn boundary_node(signal: i64) -> RetryNeuralNetwork<BaselineStage> {
    let shape = NeuralNetworkShape {
        layers: vec![dense(1, 1, ActivationType::ReLU)],
    };
    let augmented = add_internal_dimensions(&shape);
    let primary = BaselineStage::with_response(augmented, vec![111_000, signal]);
    let backup = BaselineStage::with_response(shape.clone(), vec![999_000]);
    RetryNeuralNetwork {
        primary_nn: primary,
        backup_nn: RetryBackup::Leaf(backup),
        shape,
        model_directory: Directory::Internal(ModelPath::root("boundary_model".to_string())),
        past_internal_model_directories: Vec::new(),
        utils: test_utils(),
    }
}

#[test]
fn escalation_is_a_strict_threshold() {
    // tolerance 0.2 around the reference 1.0: signals 0.79, 0.80, 0.81
    assert!(!escalates(790_000));
    assert!(!escalates(800_000)); // strictly-less semantics: the boundary stays
    assert!(escalates(810_000));
    assert!(escalates(1_000_000));
    assert!(escalates(1_190_000));
    assert!(!escalates(1_200_000));

    let input = vec![0i64];
    // 0.79 and 0.80 stay with the primary; 0.81 goes to the backup.
    assert_eq!(boundary_node(790_000).predict(&input), vec![111_000]);
    assert_eq!(boundary_node(800_000).predict(&input), vec![111_000]);
    assert_eq!(boundary_node(810_000).predict(&input), vec![999_000]);
}

#[test]
fn within_tolerance_is_exact() {
    assert!(within_tolerance(100, 150, 51));
    assert!(!within_tolerance(100, 150, 50));
    assert!(within_tolerance(-100, 100, 201));
    assert!(!within_tolerance(-100, 100, 200));
    // extremes never overflow: the full-range distance exceeds any i64 tolerance
    assert!(!within_tolerance(i64::MIN, i64::MAX, i64::MAX));
    assert!(within_tolerance(i64::MIN, i64::MIN + 1, 2));
}

fn chain_length(node: &RetryNeuralNetwork<BaselineStage>) -> usize {
    let mut count = 1usize; // this node's primary's chain position
    let mut backup = &node.backup_nn;
    loop {
        match backup {
            RetryBackup::Leaf(_) => return count,
            RetryBackup::Retry(inner) => {
                count += 1;
                backup = &inner.backup_nn;
            }
        }
    }
}

#[test]
fn construction_depth_matches_levels() {
    for levels in 0..4i32 {
        let node = RetryNeuralNetwork::<BaselineStage>::new(
            shape_3_3(),
            levels,
            "depth_model".to_string(),
            test_utils(),
        );
        // Following backups from the root reaches levels + 1 stages,
        // terminating in a leaf.
        assert_eq!(chain_length(&node), (levels + 1) as usize);
        assert_eq!(node.shape().num_layers(), 2);
    }
}

#[test]
fn train_with_fifty_examples_is_a_no_op() {
    let mut store: ModelStore<BaselineStage> = ModelStore::new();
    let mut nn = TrainableRetryNeuralNetwork::<BaselineStage>::new(
        shape_3_3(),
        1,
        "small_data_model".to_string(),
        test_utils(),
    );
    nn.save(&mut store, "small_data_saved".to_string()).unwrap();
    let entries_before: Vec<(usize, Vec<i64>)> = store
        .entries
        .iter()
        .enumerate()
        .map(|(i, e)| (i, e.stage.response.clone()))
        .collect();
    let primary_before = nn.network.primary_nn.response.clone();

    let inputs = vec![vec![FIXED_ONE, FIXED_ONE, FIXED_ONE]; 50];
    let targets = vec![vec![500_000i64, 500_000, 500_000]; 50];
    let accuracy = nn.train(&inputs, &targets, 10_000, 100, 100_000, true, 700_000);

    assert_eq!(accuracy, 0);
    assert_eq!(nn.network.primary_nn.response, primary_before);
    let entries_after: Vec<(usize, Vec<i64>)> = store
        .entries
        .iter()
        .enumerate()
        .map(|(i, e)| (i, e.stage.response.clone()))
        .collect();
    assert_eq!(entries_after, entries_before);
}

#[test]
fn train_batch_leaves_the_backup_alone() {
    let mut nn = TrainableRetryNeuralNetwork::<BaselineStage>::new(
        shape_3_3(),
        0,
        "batch_model".to_string(),
        test_utils(),
    );
    let backup_before = match &nn.network.backup_nn {
        RetryBackup::Leaf(s) => s.response.clone(),
        RetryBackup::Retry(_) => panic!("expected a leaf backup"),
    };
    let inputs = vec![vec![FIXED_ONE, FIXED_ONE, FIXED_ONE]; 120];
    let targets = vec![vec![400_000i64, 400_000, 400_000]; 120];
    nn.train_batch(&inputs, &targets, 10_000, 3, 100_000, 16);
    let backup_after = match &nn.network.backup_nn {
        RetryBackup::Leaf(s) => s.response.clone(),
        RetryBackup::Retry(_) => panic!("expected a leaf backup"),
    };
    assert_eq!(backup_after, backup_before);
    // The primary did move toward the targets on its task channels.
    let p = &nn.network.primary_nn.response;
    assert!((p[0] - 400_000).abs() < 100_000);
}

#[test]
fn cascade_learns_a_constant_mapping_end_to_end() {
    // depth-1 cascade over a 3-to-3 shape, 500 repeated examples of one
    // constant input mapped to one constant target
    let mut nn = TrainableRetryNeuralNetwork::<BaselineStage>::new(
        shape_3_3(),
        1,
        "end_to_end_model".to_string(),
        test_utils(),
    );
    let inputs = vec![vec![FIXED_ONE, 2 * FIXED_ONE, 3 * FIXED_ONE]; 500];
    let targets = vec![vec![250_000i64, 500_000, 750_000]; 500];
    let accuracy = nn.train(&inputs, &targets, 10_000, 200, 100_000, false, 700_000);
    assert!(accuracy >= 0);
    let prediction = nn.predict(&inputs[0]);
    assert_eq!(prediction.len(), 3);
    for (p, t) in prediction.iter().zip(targets[0].iter()) {
        assert!((p - t).abs() < 100, "prediction {p} too far from {t}");
    }
}
