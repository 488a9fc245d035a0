use learn::baseline::BaselineStage;
use learn::fixed::FIXED_ONE;
use learn::path::{append_dir, is_prefix, numbered_sibling, path_eq, ModelPath};
use learn::retry::{ModelError, RetryBackup, RetryNeuralNetwork};
use learn::shape::{ActivationData, ActivationType, LayerShape, LayerType, NeuralNetworkShape};
use learn::store::ModelStore;
use learn::train::TrainableRetryNeuralNetwork;
use learn::utils::{Utils, WrappedUtils};

fn dense(input_size: usize, output_size: usize) -> LayerShape {
    LayerShape {
        layer_type: LayerType::Dense {
            input_size,
            output_size,
        },
        activation: ActivationData::new(ActivationType::ReLU),
    }
}

fn small_shape() -> NeuralNetworkShape {
    NeuralNetworkShape {
        layers: vec![dense(2, 2)],
    }
}

fn test_utils() -> WrappedUtils {
    WrappedUtils::new(Utils::new(1000000000, 4))
}

#[test]
fn save_creates_primary_and_backup_and_no_prior_path() {
    let mut store: ModelStore<BaselineStage> = ModelStore::new();
    let mut node = RetryNeuralNetwork::<BaselineStage>::new(
        small_shape(),
        1,
        "scratch_model".to_string(),
        test_utils(),
    );
    node.save(&mut store, "saved_model".to_string()).unwrap();

    let root = ModelPath::root("saved_model".to_string());
    assert!(store.dir_exists(&root));
    assert!(store.contains(&append_dir(&root, "primary")));
    assert!(store.dir_exists(&append_dir(&root, "backup")));
    assert!(store.contains(&append_dir(&append_dir(&root, "backup"), "primary")));

    // nothing of the prior scratch path remains on disk
    let scratch = ModelPath::root("scratch_model".to_string());
    assert!(!store.dir_exists(&scratch));

    // teardown flushes the persisted tree and removes the scratch leftovers
    node.finalize(&mut store).unwrap();
    assert!(store.contains(&append_dir(&root, "primary")));
    assert!(!store.dir_exists(&scratch));
}

#[test]
fn finalize_deletes_scratch_trees() {
    let mut store: ModelStore<BaselineStage> = ModelStore::new();
    let mut node = RetryNeuralNetwork::<BaselineStage>::new(
        small_shape(),
        0,
        "ephemeral_model".to_string(),
        test_utils(),
    );
    // flush some state under the scratch directory, as repeated saves would
    let scratch = node.get_model_directory().path();
    node.flush_at(&mut store, &scratch);
    assert!(store.dir_exists(&scratch));
    node.finalize(&mut store).unwrap();
    assert!(!store.dir_exists(&ModelPath::root("ephemeral_model".to_string())));
    assert_eq!(store.entries.len(), 0);
}

#[test]
fn load_roundtrips_a_saved_cascade() {
    let mut store: ModelStore<BaselineStage> = ModelStore::new();
    let mut node = TrainableRetryNeuralNetwork::<BaselineStage>::new(
        small_shape(),
        1,
        "roundtrip_scratch".to_string(),
        test_utils(),
    );
    node.save(&mut store, "roundtrip_model".to_string()).unwrap();

    let loaded = TrainableRetryNeuralNetwork::<BaselineStage>::from_disk(
        &store,
        "roundtrip_model".to_string(),
        test_utils(),
    )
    .unwrap();
    assert_eq!(loaded.shape().num_layers(), 1);
    assert_eq!(
        loaded.network.primary_nn.response,
        node.network.primary_nn.response
    );
    let prediction = loaded.predict(&vec![0i64, 0]);
    assert_eq!(prediction.len(), 2);
}

#[test]
fn load_missing_model_fails() {
    let store: ModelStore<BaselineStage> = ModelStore::new();
    let r = RetryNeuralNetwork::<BaselineStage>::from_disk(
        &store,
        "no_such_model".to_string(),
        test_utils(),
    );
    assert_eq!(r.err(), Some(ModelError::MissingModel));
}

#[test]
fn load_foreign_primary_fails_with_shape_mismatch() {
    let mut store: ModelStore<BaselineStage> = ModelStore::new();
    let root = ModelPath::root("corrupt_model".to_string());
    // A primary whose dimensions are not the augmented form of the backup's
    // shape: foreign model data.
    let bad_primary = BaselineStage::with_response(small_shape(), vec![0, 0]);
    store.put(&append_dir(&root, "primary"), bad_primary);
    let backup = BaselineStage::with_response(small_shape(), vec![0, 0]);
    store.put(&append_dir(&root, "backup"), backup);

    let r = RetryNeuralNetwork::<BaselineStage>::from_disk(
        &store,
        "corrupt_model".to_string(),
        test_utils(),
    );
    assert_eq!(r.err(), Some(ModelError::ShapeMismatch));
}

#[test]
fn duplicate_is_independent_of_its_source() {
    let mut store: ModelStore<BaselineStage> = ModelStore::new();
    let mut source = TrainableRetryNeuralNetwork::<BaselineStage>::new(
        small_shape(),
        1,
        "dup_scratch".to_string(),
        test_utils(),
    );
    source.save(&mut store, "dup_source".to_string()).unwrap();

    // fingerprint every saved entry of the source before duplicating
    let fingerprint = |store: &ModelStore<BaselineStage>| -> Vec<(Vec<String>, Vec<i64>)> {
        let mut v: Vec<(Vec<String>, Vec<i64>)> = store
            .entries
            .iter()
            .map(|e| (e.path.segments.clone(), e.stage.response.clone()))
            .collect();
        v.sort();
        v
    };
    let before = fingerprint(&store);

    let mut dup = source.duplicate_trainable(&mut store).unwrap();
    assert!(dup.get_model_directory().is_internal());

    // training the duplicate must never mutate the source's persisted files
    let inputs = vec![vec![FIXED_ONE, FIXED_ONE]; 300];
    let targets = vec![vec![300_000i64, 600_000]; 300];
    dup.train(&inputs, &targets, 10_000, 50, 100_000, true, 700_000);

    let after: Vec<(Vec<String>, Vec<i64>)> = fingerprint(&store)
        .into_iter()
        .filter(|(p, _)| before.iter().any(|(q, _)| q == p))
        .collect();
    assert_eq!(after, before);
    // and the source network in memory is untouched as well
    assert_eq!(source.network.primary_nn.response, vec![0, 0, 0]);
}

#[test]
fn duplicate_without_saved_state_fails() {
    let mut store: ModelStore<BaselineStage> = ModelStore::new();
    let node = RetryNeuralNetwork::<BaselineStage>::new(
        small_shape(),
        0,
        "never_saved_model".to_string(),
        test_utils(),
    );
    let r = node.duplicate(&mut store);
    assert_eq!(r.err(), Some(ModelError::MissingModel));
    assert_eq!(store.entries.len(), 0);
}

#[test]
fn sibling_probing_finds_the_first_unused_directory() {
    let mut store: ModelStore<BaselineStage> = ModelStore::new();
    let base = ModelPath::root("probe_model".to_string());
    // occupy suffix 0 and 1
    store.put(
        &numbered_sibling(&base, 0),
        BaselineStage::with_response(small_shape(), vec![0, 0]),
    );
    store.put(
        &append_dir(&numbered_sibling(&base, 1), "primary"),
        BaselineStage::with_response(small_shape(), vec![0, 0]),
    );
    let free = store.first_free_model_directory(&base);
    assert!(path_eq(&free, &numbered_sibling(&base, 2)));
    assert!(!store.dir_exists(&free));
}

#[test]
fn path_prefix_and_equality_behave() {
    let root = ModelPath::root("tree_model".to_string());
    let primary = append_dir(&root, "primary");
    let backup = append_dir(&root, "backup");
    assert!(is_prefix(&root, &primary));
    assert!(is_prefix(&root, &backup));
    assert!(!is_prefix(&primary, &backup));
    assert!(!path_eq(&primary, &backup));
    assert!(path_eq(&root, &ModelPath::root("tree_model".to_string())));
    assert_eq!(primary.len(), 2);
}
