//! The training protocol of the cascade, and the trainable controller.
//!
//! Training partitions the examples between the stages: a disposable probe
//! stage estimates which examples a plain stage answers correctly, the
//! primary stage learns the task channels together with the escalation
//! label built from the probe, and the backup refines on exactly the
//! examples the trained primary handles in full.

use vstd::prelude::*;

use crate::fixed::{
    row_matches, spec_row_matches, ACCURACY_LIMIT, FIXED_ONE, MIN_TRAINING_EXAMPLES, VALUE_LIMIT,
};
use crate::retry::{
    backup_chain_len, backup_matches, node_matches, seg_primary, spec_cascade_predict, Directory,
    ModelError, RetryBackup, RetryNeuralNetwork,
};
use crate::shape::{
    lemma_augmented_shape_facts, spec_augmented_shape, spec_shape_input, spec_shape_output,
    NeuralNetworkShape,
};
use crate::stage::{
    spec_row_bounded, spec_rows_bounded, spec_rows_sized, Stage, TrainableStage,
};
use crate::store::{spec_dir_exists, ModelStore};
use crate::utils::WrappedUtils;

verus! {

/// An independent copy of one example row.
fn clone_row(v: &Vec<i64>) -> (r: Vec<i64>)
    ensures
        r@ == v@,
{
    let n = v.len();
    let mut r: Vec<i64> = Vec::new();
    let mut i: usize = 0;
    while i < n
        invariant
            n == v@.len(),
            0 <= i <= n,
            r@ =~= v@.take(i as int),
        decreases n - i,
    {
        r.push(v[i]);
        proof {
            assert(r@ =~= v@.take(i + 1));
        }
        i = i + 1;
    }
    proof {
        assert(v@.take(n as int) =~= v@);
    }
    r
}

/// What a stage answers on each example of a data set.
fn collect_predictions<S: Stage>(stage: &S, inputs: &Vec<Vec<i64>>) -> (r: Vec<Vec<i64>>)
    requires
        stage.swf(),
        spec_rows_sized(inputs.deep_view(), spec_shape_input(stage.sshape()) as nat),
    ensures
        r@.len() == inputs@.len(),
        forall|i: int|
            0 <= i < inputs@.len() ==> (#[trigger] r.deep_view()[i]) == stage.predict_of(
                inputs.deep_view()[i],
            ),
        spec_rows_sized(r.deep_view(), spec_shape_output(stage.sshape()) as nat),
{
    let n = inputs.len();
    let mut r: Vec<Vec<i64>> = Vec::new();
    let mut i: usize = 0;
    while i < n
        invariant
            stage.swf(),
            spec_rows_sized(inputs.deep_view(), spec_shape_input(stage.sshape()) as nat),
            n == inputs@.len(),
            inputs.deep_view().len() == n,
            0 <= i <= n,
            r@.len() == i,
            r.deep_view().len() == i,
            forall|j: int|
                0 <= j < i ==> (#[trigger] r.deep_view()[j]) == stage.predict_of(
                    inputs.deep_view()[j],
                ),
            spec_rows_sized(r.deep_view(), spec_shape_output(stage.sshape()) as nat),
        decreases n - i,
    {
        proof {
            assert(inputs.deep_view()[i as int] == inputs@[i as int]@);
        }
        let p = stage.predict(&inputs[i]);
        let ghost pv = p@;
        proof {
            assert(p.deep_view() =~= pv);
        }
        let ghost prev = r.deep_view();
        r.push(p);
        proof {
            assert(r.deep_view() =~= prev.push(pv));
            assert(r.deep_view()[i as int] == pv);
        }
        i = i + 1;
    }
    r
}

/// The escalation label an example gets: `0` when the probe's answer matched
/// the target on every dimension within `tol`, `1.0` (fixed-point) when it
/// did not.
pub open spec fn spec_escalation_label(pred: Seq<i64>, target: Seq<i64>, tol: int) -> i64 {
    if spec_row_matches(pred, target, tol) {
        0
    } else {
        FIXED_ONE
    }
}

/// Builds the augmented training targets: each target row gains one trailing
/// escalation label, `0` where the probe's prediction matched it within
/// `tolerance` and `1.0` where it did not.
pub fn build_escalation_targets(
    predictions: &Vec<Vec<i64>>,
    targets: &Vec<Vec<i64>>,
    tolerance: i64,
) -> (r: Vec<Vec<i64>>)
    requires
        predictions@.len() == targets@.len(),
        forall|i: int|
            0 <= i < targets@.len() ==> (#[trigger] predictions.deep_view()[i]).len()
                == targets.deep_view()[i].len(),
    ensures
        r@.len() == targets@.len(),
        forall|i: int|
            0 <= i < targets@.len() ==> (#[trigger] r.deep_view()[i]) == targets.deep_view()[i].push(
                spec_escalation_label(
                    predictions.deep_view()[i],
                    targets.deep_view()[i],
                    tolerance as int,
                ),
            ),
{
    let n = targets.len();
    let mut r: Vec<Vec<i64>> = Vec::new();
    let mut i: usize = 0;
    while i < n
        invariant
            n == targets@.len(),
            predictions@.len() == n,
            predictions.deep_view().len() == n,
            targets.deep_view().len() == n,
            forall|j: int|
                0 <= j < n ==> (#[trigger] predictions.deep_view()[j]).len()
                    == targets.deep_view()[j].len(),
            0 <= i <= n,
            r@.len() == i,
            r.deep_view().len() == i,
            forall|j: int|
                0 <= j < i ==> (#[trigger] r.deep_view()[j]) == targets.deep_view()[j].push(
                    spec_escalation_label(
                        predictions.deep_view()[j],
                        targets.deep_view()[j],
                        tolerance as int,
                    ),
                ),
        decreases n - i,
    {
        proof {
            assert(predictions.deep_view()[i as int] == predictions@[i as int]@);
            assert(targets.deep_view()[i as int] == targets@[i as int]@);
        }
        let mut row = clone_row(&targets[i]);
        let matched = row_matches(&predictions[i], &targets[i], tolerance);
        if matched {
            row.push(0);
        } else {
            row.push(FIXED_ONE);
        }
        let ghost rv = row@;
        proof {
            assert(row.deep_view() =~= rv);
        }
        let ghost prev = r.deep_view();
        r.push(row);
        proof {
            assert(r.deep_view() =~= prev.push(rv));
            assert(r.deep_view()[i as int] == targets.deep_view()[i as int].push(
                spec_escalation_label(
                    predictions.deep_view()[i as int],
                    targets.deep_view()[i as int],
                    tolerance as int,
                ),
            ));
        }
        i = i + 1;
    }
    r
}

/// The inputs, among the first `upto` examples, whose augmented target the
/// trained primary reproduced in full (task channels and escalation label
/// each within tolerance), in order.
pub open spec fn spec_kept_inputs(
    inputs: Seq<Seq<i64>>,
    aug_targets: Seq<Seq<i64>>,
    predictions: Seq<Seq<i64>>,
    tol: int,
    upto: int,
) -> Seq<Seq<i64>>
    decreases upto,
{
    if upto <= 0 {
        Seq::empty()
    } else {
        let rest = spec_kept_inputs(inputs, aug_targets, predictions, tol, upto - 1);
        if spec_row_matches(predictions[upto - 1], aug_targets[upto - 1], tol) {
            rest.push(inputs[upto - 1])
        } else {
            rest
        }
    }
}

/// The matching augmented targets of [`spec_kept_inputs`], each with its
/// escalation label stripped back off.
pub open spec fn spec_kept_targets(
    inputs: Seq<Seq<i64>>,
    aug_targets: Seq<Seq<i64>>,
    predictions: Seq<Seq<i64>>,
    tol: int,
    upto: int,
) -> Seq<Seq<i64>>
    decreases upto,
{
    if upto <= 0 {
        Seq::empty()
    } else {
        let rest = spec_kept_targets(inputs, aug_targets, predictions, tol, upto - 1);
        if spec_row_matches(predictions[upto - 1], aug_targets[upto - 1], tol) {
            rest.push(aug_targets[upto - 1].drop_last())
        } else {
            rest
        }
    }
}

/// Keeps exactly the examples whose augmented target the trained primary
/// answered in full — task channels and escalation label each within
/// `tolerance` — and strips the escalation label back off the kept targets.
pub fn filter_confirmed(
    inputs: &Vec<Vec<i64>>,
    aug_targets: &Vec<Vec<i64>>,
    predictions: &Vec<Vec<i64>>,
    tolerance: i64,
) -> (r: (Vec<Vec<i64>>, Vec<Vec<i64>>))
    requires
        inputs@.len() == aug_targets@.len(),
        predictions@.len() == aug_targets@.len(),
        forall|i: int|
            0 <= i < aug_targets@.len() ==> (#[trigger] predictions.deep_view()[i]).len()
                == aug_targets.deep_view()[i].len(),
        forall|i: int|
            0 <= i < aug_targets@.len() ==> (#[trigger] aug_targets.deep_view()[i]).len() >= 1,
    ensures
        r.0.deep_view() == spec_kept_inputs(
            inputs.deep_view(),
            aug_targets.deep_view(),
            predictions.deep_view(),
            tolerance as int,
            inputs@.len() as int,
        ),
        r.1.deep_view() == spec_kept_targets(
            inputs.deep_view(),
            aug_targets.deep_view(),
            predictions.deep_view(),
            tolerance as int,
            inputs@.len() as int,
        ),
        r.0@.len() == r.1@.len(),
        r.0@.len() <= inputs@.len(),
        forall|w: nat|
            spec_rows_sized(inputs.deep_view(), w) ==> #[trigger] spec_rows_sized(
                r.0.deep_view(),
                w,
            ),
        forall|w: nat|
            spec_rows_sized(aug_targets.deep_view(), w) && w >= 1 ==> #[trigger] spec_rows_sized(
                r.1.deep_view(),
                (w - 1) as nat,
            ),
        spec_rows_bounded(inputs.deep_view()) ==> spec_rows_bounded(r.0.deep_view()),
        spec_rows_bounded(aug_targets.deep_view()) ==> spec_rows_bounded(r.1.deep_view()),
{
    let n = inputs.len();
    let mut kept_in: Vec<Vec<i64>> = Vec::new();
    let mut kept_t: Vec<Vec<i64>> = Vec::new();
    let mut i: usize = 0;
    while i < n
        invariant
            n == inputs@.len(),
            aug_targets@.len() == n,
            predictions@.len() == n,
            inputs.deep_view().len() == n,
            aug_targets.deep_view().len() == n,
            predictions.deep_view().len() == n,
            forall|j: int|
                0 <= j < n ==> (#[trigger] predictions.deep_view()[j]).len()
                    == aug_targets.deep_view()[j].len(),
            forall|j: int| 0 <= j < n ==> (#[trigger] aug_targets.deep_view()[j]).len() >= 1,
            0 <= i <= n,
            kept_in@.len() == kept_t@.len(),
            kept_in@.len() <= i,
            kept_in.deep_view() == spec_kept_inputs(
                inputs.deep_view(),
                aug_targets.deep_view(),
                predictions.deep_view(),
                tolerance as int,
                i as int,
            ),
            kept_t.deep_view() == spec_kept_targets(
                inputs.deep_view(),
                aug_targets.deep_view(),
                predictions.deep_view(),
                tolerance as int,
                i as int,
            ),
            forall|w: nat|
                spec_rows_sized(inputs.deep_view(), w) ==> #[trigger] spec_rows_sized(
                    kept_in.deep_view(),
                    w,
                ),
            forall|w: nat|
                spec_rows_sized(aug_targets.deep_view(), w) && w >= 1
                    ==> #[trigger] spec_rows_sized(kept_t.deep_view(), (w - 1) as nat),
            spec_rows_bounded(inputs.deep_view()) ==> spec_rows_bounded(kept_in.deep_view()),
            spec_rows_bounded(aug_targets.deep_view()) ==> spec_rows_bounded(kept_t.deep_view()),
        decreases n - i,
    {
        proof {
            assert(predictions.deep_view()[i as int] == predictions@[i as int]@);
            assert(aug_targets.deep_view()[i as int] == aug_targets@[i as int]@);
            assert(inputs.deep_view()[i as int] == inputs@[i as int]@);
        }
        let ghost prev_in = kept_in.deep_view();
        let ghost prev_t = kept_t.deep_view();
        if row_matches(&predictions[i], &aug_targets[i], tolerance) {
            let row_in = clone_row(&inputs[i]);
            let mut row_t = clone_row(&aug_targets[i]);
            row_t.pop();
            proof {
                assert(row_in.deep_view() =~= row_in@);
                assert(row_t.deep_view() =~= row_t@);
            }
            kept_in.push(row_in);
            kept_t.push(row_t);
            proof {
                assert(kept_in.deep_view() =~= prev_in.push(inputs.deep_view()[i as int]));
                assert(kept_t.deep_view() =~= prev_t.push(
                    aug_targets.deep_view()[i as int].drop_last(),
                ));
                assert forall|w: nat|
                    spec_rows_sized(inputs.deep_view(), w) implies #[trigger] spec_rows_sized(
                    kept_in.deep_view(),
                    w,
                ) by {
                    assert(spec_rows_sized(prev_in, w));
                    assert forall|m: int|
                        0 <= m < kept_in.deep_view().len() implies (
                    #[trigger] kept_in.deep_view()[m]).len() == w by {
                        if m < prev_in.len() {
                            assert(kept_in.deep_view()[m] == prev_in[m]);
                        } else {
                            assert(kept_in.deep_view()[m] == inputs.deep_view()[i as int]);
                        }
                    }
                }
                assert forall|w: nat|
                    spec_rows_sized(aug_targets.deep_view(), w) && w >= 1
                        implies #[trigger] spec_rows_sized(kept_t.deep_view(), (w - 1) as nat) by {
                    assert(spec_rows_sized(prev_t, (w - 1) as nat));
                    assert forall|m: int|
                        0 <= m < kept_t.deep_view().len() implies (
                    #[trigger] kept_t.deep_view()[m]).len() == (w - 1) as nat by {
                        if m < prev_t.len() {
                            assert(kept_t.deep_view()[m] == prev_t[m]);
                        } else {
                            assert(kept_t.deep_view()[m] == aug_targets.deep_view()[
                                i as int
                            ].drop_last());
                        }
                    }
                }
                if spec_rows_bounded(inputs.deep_view()) {
                    assert(spec_rows_bounded(prev_in));
                    assert forall|m: int|
                        0 <= m < kept_in.deep_view().len() implies spec_row_bounded(
                        #[trigger] kept_in.deep_view()[m]) by {
                        if m < prev_in.len() {
                            assert(kept_in.deep_view()[m] == prev_in[m]);
                        } else {
                            assert(kept_in.deep_view()[m] == inputs.deep_view()[i as int]);
                        }
                    }
                }
                if spec_rows_bounded(aug_targets.deep_view()) {
                    assert(spec_rows_bounded(prev_t));
                    assert forall|m: int|
                        0 <= m < kept_t.deep_view().len() implies spec_row_bounded(
                        #[trigger] kept_t.deep_view()[m]) by {
                        if m < prev_t.len() {
                            assert(kept_t.deep_view()[m] == prev_t[m]);
                        } else {
                            assert(kept_t.deep_view()[m] == aug_targets.deep_view()[
                                i as int
                            ].drop_last());
                            assert(spec_row_bounded(aug_targets.deep_view()[i as int]));
                        }
                    }
                }
            }
        }
        i = i + 1;
    }
    (kept_in, kept_t)
}

impl<S: TrainableStage> RetryNeuralNetwork<S> {
    /// The cascade training protocol. With fewer than
    /// [`MIN_TRAINING_EXAMPLES`] examples nothing is trained and the
    /// accuracy is zero: routing statistics from too few examples are
    /// unreliable and must not corrupt the cascade. Otherwise a disposable
    /// probe stage is fitted to the full data set; each target gains an
    /// escalation label saying whether the probe answered it; the primary
    /// learns the labelled set; and the backup recursively refines on
    /// exactly the examples the trained primary answered in full. The
    /// result is the unweighted sum of the primary's and the backup's
    /// reported accuracies — a diagnostic scalar over possibly different
    /// subsets, not a normalised metric.
    pub fn train(
        &mut self,
        inputs: &Vec<Vec<i64>>,
        targets: &Vec<Vec<i64>>,
        learning_rate: i64,
        epochs: usize,
        tolerance: i64,
        use_adam: bool,
        validation_split: i64,
    ) -> (accuracy: i64)
        requires
            old(self).wf(),
            inputs@.len() == targets@.len(),
            spec_rows_sized(inputs.deep_view(), spec_shape_input(old(self).shape@) as nat),
            spec_rows_sized(targets.deep_view(), spec_shape_output(old(self).shape@) as nat),
            spec_rows_bounded(inputs.deep_view()),
            spec_rows_bounded(targets.deep_view()),
            0 <= learning_rate <= FIXED_ONE,
            0 <= tolerance,
            0 <= validation_split <= FIXED_ONE,
            backup_chain_len(&old(self).backup_nn) <= 1000000,
        ensures
            final(self).wf(),
            final(self).shape@ == old(self).shape@,
            final(self).model_directory == old(self).model_directory,
            final(self).past_internal_model_directories@ == old(
                self,
            ).past_internal_model_directories@,
            final(self).utils == old(self).utils,
            inputs@.len() < MIN_TRAINING_EXAMPLES ==> accuracy == 0 && *final(self) == *old(self),
            0 <= accuracy <= ACCURACY_LIMIT * (backup_chain_len(&old(self).backup_nn) as int + 1),
        decreases backup_chain_len(&old(self).backup_nn),
    {
        if inputs.len() < MIN_TRAINING_EXAMPLES {
            return 0;
        }
        proof {
            lemma_augmented_shape_facts(self.shape@);
        }
        let mut probe = S::fresh(&self.shape, &self.utils);
        let _ = probe.train(
            inputs,
            targets,
            learning_rate,
            epochs,
            tolerance,
            use_adam,
            validation_split,
        );
        let probe_predictions = collect_predictions(&probe, inputs);
        let aug_targets = build_escalation_targets(&probe_predictions, targets, tolerance);
        proof {
            assert forall|i: int|
                0 <= i < aug_targets@.len() implies (#[trigger] aug_targets.deep_view()[i]).len()
                    == spec_shape_output(spec_augmented_shape(self.shape@)) as nat by {
                assert(targets.deep_view()[i].len() == spec_shape_output(self.shape@) as nat);
            }
            assert forall|i: int|
                0 <= i < aug_targets@.len() implies spec_row_bounded(
                #[trigger] aug_targets.deep_view()[i]) by {
                let row = aug_targets.deep_view()[i];
                let base = targets.deep_view()[i];
                assert(spec_row_bounded(base));
                assert forall|j: int| 0 <= j < row.len() implies -VALUE_LIMIT <= #[trigger] row[j]
                    <= VALUE_LIMIT by {
                    if j < base.len() {
                        assert(row[j] == base[j]);
                    } else {
                        assert(row[j] == spec_escalation_label(
                            probe_predictions.deep_view()[i],
                            base,
                            tolerance as int,
                        ));
                    }
                }
            }
        }
        let primary_accuracy = self.primary_nn.train(
            inputs,
            &aug_targets,
            learning_rate,
            epochs,
            tolerance,
            use_adam,
            validation_split,
        );
        let primary_predictions = collect_predictions(&self.primary_nn, inputs);
        let (backup_inputs, backup_targets) = filter_confirmed(
            inputs,
            &aug_targets,
            &primary_predictions,
            tolerance,
        );
        proof {
            let w_out = spec_shape_output(self.shape@) as nat;
            assert(spec_rows_sized(inputs.deep_view(), spec_shape_input(self.shape@) as nat));
            assert(spec_rows_sized(aug_targets.deep_view(), (w_out + 1) as nat));
            assert(spec_rows_sized(backup_targets.deep_view(), ((w_out + 1) - 1) as nat));
            assert(spec_rows_sized(backup_targets.deep_view(), w_out));
            assert(spec_rows_sized(backup_inputs.deep_view(), spec_shape_input(self.shape@) as nat));
        }
        let backup_accuracy = match &mut self.backup_nn {
            RetryBackup::Leaf(s) => s.train(
                &backup_inputs,
                &backup_targets,
                learning_rate,
                epochs,
                tolerance,
                use_adam,
                validation_split,
            ),
            RetryBackup::Retry(r) => r.train(
                &backup_inputs,
                &backup_targets,
                learning_rate,
                epochs,
                tolerance,
                use_adam,
                validation_split,
            ),
        };
        proof {
            let chain = backup_chain_len(&old(self).backup_nn) as int;
            assert(1 <= chain <= 1000000);
            assert(backup_accuracy <= ACCURACY_LIMIT * chain) by {
                match &old(self).backup_nn {
                    RetryBackup::Leaf(_) => {
                        assert(backup_accuracy <= ACCURACY_LIMIT);
                        assert(ACCURACY_LIMIT * 1 <= ACCURACY_LIMIT * chain) by (nonlinear_arith)
                            requires 1 <= chain;
                    },
                    RetryBackup::Retry(r0) => {
                        let sub = backup_chain_len(&(*r0).backup_nn) as int;
                        assert(backup_accuracy <= ACCURACY_LIMIT * (sub + 1));
                        assert(chain == sub + 1);
                    },
                }
            }
            assert(primary_accuracy + backup_accuracy <= ACCURACY_LIMIT * (chain + 1)) by (
            nonlinear_arith)
                requires
                    primary_accuracy <= ACCURACY_LIMIT,
                    backup_accuracy <= ACCURACY_LIMIT * chain,
            ;
            assert(ACCURACY_LIMIT * (chain + 1) <= ACCURACY_LIMIT * 1000001) by (nonlinear_arith)
                requires chain <= 1000000;
        }
        primary_accuracy + backup_accuracy
    }

    /// The batched-training variant: it forwards directly to the primary
    /// stage's batch trainer only; the backup is not retrained on this
    /// path — a documented limitation of the protocol, kept as such.
    pub fn train_batch(
        &mut self,
        inputs: &Vec<Vec<i64>>,
        targets: &Vec<Vec<i64>>,
        learning_rate: i64,
        epochs: usize,
        tolerance: i64,
        batch_size: usize,
    )
        requires
            old(self).wf(),
            inputs@.len() == targets@.len(),
            spec_rows_sized(inputs.deep_view(), spec_shape_input(old(self).shape@) as nat),
            spec_rows_bounded(inputs.deep_view()),
            spec_rows_bounded(targets.deep_view()),
            0 <= learning_rate <= FIXED_ONE,
            0 <= tolerance,
            batch_size >= 1,
        ensures
            final(self).wf(),
            final(self).shape@ == old(self).shape@,
            final(self).backup_nn == old(self).backup_nn,
            final(self).model_directory == old(self).model_directory,
            final(self).past_internal_model_directories@ == old(
                self,
            ).past_internal_model_directories@,
            final(self).utils == old(self).utils,
    {
        proof {
            lemma_augmented_shape_facts(self.shape@);
        }
        self.primary_nn.train_batch(
            inputs,
            targets,
            learning_rate,
            epochs,
            tolerance,
            batch_size,
        );
    }

    /// Width of the cascade's input vectors.
    pub fn input_size(&self) -> (r: usize)
        requires
            self.wf(),
        ensures
            r == spec_shape_input(self.shape@),
    {
        self.shape.input_size()
    }

    /// Width of the cascade's output vectors.
    pub fn output_size(&self) -> (r: usize)
        requires
            self.wf(),
        ensures
            r == spec_shape_output(self.shape@),
    {
        self.shape.output_size()
    }
}

/// The trainable cascade controller: the inference cascade plus the
/// training protocol.
pub struct TrainableRetryNeuralNetwork<S> {
    pub network: RetryNeuralNetwork<S>,
}

impl<S: TrainableStage> TrainableRetryNeuralNetwork<S> {
    /// A fresh trainable cascade; see [`RetryNeuralNetwork::new`].
    pub fn new(
        shape: NeuralNetworkShape,
        levels: i32,
        internal_model_directory: String,
        utils: WrappedUtils,
    ) -> (r: Self)
        requires
            0 <= levels,
            crate::shape::spec_valid_shape(shape@),
            crate::shape::spec_shape_fits(shape@),
        ensures
            r.network.wf(),
            r.network.shape@ == shape@,
            r.network.spec_directory() == seq![internal_model_directory@],
            r.network.model_directory.spec_is_internal(),
            r.network.past_internal_model_directories@.len() == 0,
            backup_chain_len(&r.network.backup_nn) == levels + 1,
            r.network.utils == utils,
    {
        TrainableRetryNeuralNetwork {
            network: RetryNeuralNetwork::new(shape, levels, internal_model_directory, utils),
        }
    }

    /// Restores a trainable cascade from a saved model directory; the
    /// directory must hold a cascade (have a `primary` sub-path), not a bare
    /// leaf stage.
    pub fn from_disk(store: &ModelStore<S>, model_directory: String, utils: WrappedUtils) -> (r:
        Result<Self, ModelError>)
        requires
            store.store_wf(),
        ensures
            r is Ok <==> exists|n: RetryNeuralNetwork<S>|
                node_matches(&n, store@, seq![model_directory@]),
            r matches Ok(d) ==> d.network.wf() && node_matches(
                &d.network,
                store@,
                seq![model_directory@],
            ) && !d.network.model_directory.spec_is_internal() && d.network.spec_directory()
                == seq![model_directory@],
    {
        let ghost root = seq![model_directory@];
        match RetryNeuralNetwork::<S>::from_disk(store, model_directory, utils) {
            Result::Ok(RetryBackup::Retry(boxed)) => {
                let node = *boxed;
                proof {
                    assert(node_matches(&node, store@, root));
                }
                Ok(TrainableRetryNeuralNetwork { network: node })
            },
            Result::Ok(RetryBackup::Leaf(_)) => {
                proof {
                    if exists|n: RetryNeuralNetwork<S>| node_matches(&n, store@, root) {
                        let n = choose|n: RetryNeuralNetwork<S>| node_matches(&n, store@, root);
                        assert(store@.contains_key(root.push(seg_primary())));
                        assert(false);
                    }
                }
                Err(ModelError::ShapeMismatch)
            },
            Result::Err(e) => {
                proof {
                    if exists|n: RetryNeuralNetwork<S>| node_matches(&n, store@, root) {
                        let n = choose|n: RetryNeuralNetwork<S>| node_matches(&n, store@, root);
                        assert(backup_matches(&RetryBackup::Retry(Box::new(n)), store@, root));
                        assert(false);
                    }
                }
                Err(e)
            },
        }
    }

    /// See [`RetryNeuralNetwork::predict`].
    pub fn predict(&self, input: &Vec<i64>) -> (r: Vec<i64>)
        requires
            self.network.wf(),
            input@.len() == spec_shape_input(self.network.shape@),
        ensures
            r@ == spec_cascade_predict(&self.network, input@),
            r@.len() == spec_shape_output(self.network.shape@),
    {
        self.network.predict(input)
    }

    /// The shape this cascade shows to the outside world.
    pub fn shape(&self) -> (r: NeuralNetworkShape)
        ensures
            r@ == self.network.shape@,
    {
        self.network.shape()
    }

    /// See [`RetryNeuralNetwork::save`].
    pub fn save(&mut self, store: &mut ModelStore<S>, user_model_directory: String) -> (r: Result<
        (),
        ModelError,
    >)
        requires
            old(self).network.wf(),
            old(store).store_wf(),
        ensures
            r is Ok,
            final(self).network.wf(),
            final(store).store_wf(),
            final(self).network.primary_nn == old(self).network.primary_nn,
            final(self).network.backup_nn == old(self).network.backup_nn,
            final(self).network.shape@ == old(self).network.shape@,
            !final(self).network.model_directory.spec_is_internal(),
            final(self).network.spec_directory() == seq![user_model_directory@],
            crate::retry::saved_tree(
                &old(self).network,
                seq![user_model_directory@],
                final(store)@,
            ),
            forall|k: Seq<Seq<char>>|
                #[trigger] final(store)@.contains_key(k) <==> old(store)@.contains_key(k)
                    || crate::retry::node_keys(
                    &old(self).network,
                    seq![user_model_directory@],
                ).contains(k),
            forall|k: Seq<Seq<char>>|
                old(store)@.contains_key(k) && !crate::retry::node_keys(
                    &old(self).network,
                    seq![user_model_directory@],
                ).contains(k) ==> #[trigger] final(store)@[k] == old(store)@[k],
    {
        self.network.save(store, user_model_directory)
    }

    /// See [`RetryNeuralNetwork::finalize`].
    pub fn finalize(self, store: &mut ModelStore<S>) -> (r: Result<(), ModelError>)
        requires
            self.network.wf(),
            old(store).store_wf(),
        ensures
            r is Ok,
            final(store).store_wf(),
            forall|k: Seq<Seq<char>>|
                #[trigger] final(store)@.contains_key(k) <==> ((old(store)@.contains_key(k) || (
                !self.network.model_directory.spec_is_internal()
                    && crate::retry::node_keys(
                    &self.network,
                    self.network.spec_directory(),
                ).contains(k))) && !crate::retry::finalize_removes(&self.network, k)),
            (!self.network.model_directory.spec_is_internal() && crate::retry::past_disjoint(
                &self.network,
            )) ==> crate::retry::saved_tree(
                &self.network,
                self.network.spec_directory(),
                final(store)@,
            ),
    {
        self.network.finalize(store)
    }

    /// See [`RetryNeuralNetwork::duplicate`]; the duplicate is trainable
    /// and independent of this node from the moment it is returned.
    pub fn duplicate_trainable(&self, store: &mut ModelStore<S>) -> (r: Result<Self, ModelError>)
        requires
            self.network.wf(),
            self.network.spec_directory().len() > 0,
            old(store).store_wf(),
        ensures
            final(store).store_wf(),
            forall|k: Seq<Seq<char>>|
                old(store)@.contains_key(k) ==> #[trigger] final(store)@.contains_key(k)
                    && final(store)@[k] == old(store)@[k],
            r is Err ==> final(store)@ == old(store)@,
            r is Ok <==> exists|n: RetryNeuralNetwork<S>|
                node_matches(&n, old(store)@, self.network.spec_directory()),
            r matches Ok(d) ==> d.network.wf() && d.network.model_directory.spec_is_internal()
                && !spec_dir_exists(old(store)@, d.network.spec_directory()) && forall|
                k: Seq<Seq<char>>,
            |
                #[trigger] final(store)@.contains_key(k) && !old(store)@.contains_key(k)
                    ==> crate::path::spec_is_prefix(d.network.spec_directory(), k),
    {
        let dup = self.network.duplicate(store);
        proof {
            assert forall|k: Seq<Seq<char>>|
                old(store)@.contains_key(k) implies #[trigger] store@.contains_key(k) by {}
            assert forall|k: Seq<Seq<char>>|
                #[trigger] old(store)@.contains_key(k) implies store@[k] == old(store)@[k] by {
                assert(store@.contains_key(k));
            }
        }
        match dup {
            Result::Ok(node) => Ok(TrainableRetryNeuralNetwork { network: node }),
            Result::Err(e) => Err(e),
        }
    }

    /// See [`RetryNeuralNetwork::train`] in this module.
    pub fn train(
        &mut self,
        inputs: &Vec<Vec<i64>>,
        targets: &Vec<Vec<i64>>,
        learning_rate: i64,
        epochs: usize,
        tolerance: i64,
        use_adam: bool,
        validation_split: i64,
    ) -> (accuracy: i64)
        requires
            old(self).network.wf(),
            inputs@.len() == targets@.len(),
            spec_rows_sized(inputs.deep_view(), spec_shape_input(old(self).network.shape@) as nat),
            spec_rows_sized(
                targets.deep_view(),
                spec_shape_output(old(self).network.shape@) as nat,
            ),
            spec_rows_bounded(inputs.deep_view()),
            spec_rows_bounded(targets.deep_view()),
            0 <= learning_rate <= FIXED_ONE,
            0 <= tolerance,
            0 <= validation_split <= FIXED_ONE,
            backup_chain_len(&old(self).network.backup_nn) <= 1000000,
        ensures
            final(self).network.wf(),
            final(self).network.shape@ == old(self).network.shape@,
            final(self).network.model_directory == old(self).network.model_directory,
            inputs@.len() < MIN_TRAINING_EXAMPLES ==> accuracy == 0 && *final(self) == *old(self),
            0 <= accuracy <= ACCURACY_LIMIT * (backup_chain_len(&old(self).network.backup_nn) as int
                + 1),
    {
        self.network.train(
            inputs,
            targets,
            learning_rate,
            epochs,
            tolerance,
            use_adam,
            validation_split,
        )
    }

    /// See [`RetryNeuralNetwork::train_batch`] in this module.
    pub fn train_batch(
        &mut self,
        inputs: &Vec<Vec<i64>>,
        targets: &Vec<Vec<i64>>,
        learning_rate: i64,
        epochs: usize,
        tolerance: i64,
        batch_size: usize,
    )
        requires
            old(self).network.wf(),
            inputs@.len() == targets@.len(),
            spec_rows_sized(inputs.deep_view(), spec_shape_input(old(self).network.shape@) as nat),
            spec_rows_bounded(inputs.deep_view()),
            spec_rows_bounded(targets.deep_view()),
            0 <= learning_rate <= FIXED_ONE,
            0 <= tolerance,
            batch_size >= 1,
        ensures
            final(self).network.wf(),
            final(self).network.shape@ == old(self).network.shape@,
            final(self).network.backup_nn == old(self).network.backup_nn,
    {
        self.network.train_batch(inputs, targets, learning_rate, epochs, tolerance, batch_size)
    }

    /// Width of the cascade's input vectors.
    pub fn input_size(&self) -> (r: usize)
        requires
            self.network.wf(),
        ensures
            r == spec_shape_input(self.network.shape@),
    {
        self.network.input_size()
    }

    /// Width of the cascade's output vectors.
    pub fn output_size(&self) -> (r: usize)
        requires
            self.network.wf(),
        ensures
            r == spec_shape_output(self.network.shape@),
    {
        self.network.output_size()
    }

    /// The directory this node owns.
    pub fn get_model_directory(&self) -> (r: Directory)
        ensures
            r.spec_path() == self.network.spec_directory(),
            r.spec_is_internal() == self.network.model_directory.spec_is_internal(),
    {
        self.network.get_model_directory()
    }

    /// See [`RetryNeuralNetwork::set_internal`].
    pub fn set_internal(&mut self)
        ensures
            final(self).network.model_directory.spec_is_internal(),
            final(self).network.spec_directory() == old(self).network.spec_directory(),
            old(self).network.wf() ==> final(self).network.wf(),
    {
        self.network.set_internal()
    }
}

} // verus!
