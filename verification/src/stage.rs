//! The stage capability the cascade consumes.
//!
//! A stage is one feed-forward network in a primary or backup role. Its
//! arithmetic is not this library's business: the cascade only relies on the
//! interface below — predict, train, shape, duplicate — together with the
//! dimension guarantees each method states. Values are fixed-point `i64`
//! scalars (see [`crate::fixed`]).

use vstd::prelude::*;

use crate::fixed::{ACCURACY_LIMIT, FIXED_ONE, VALUE_LIMIT};
use crate::shape::{
    spec_shape_input, spec_shape_output, spec_valid_shape, LayerShape, NeuralNetworkShape,
};
use crate::utils::WrappedUtils;

verus! {

/// Every row of `rows` has exactly `width` entries.
pub open spec fn spec_rows_sized(rows: Seq<Seq<i64>>, width: nat) -> bool {
    forall|i: int| 0 <= i < rows.len() ==> (#[trigger] rows[i]).len() == width
}

/// Every entry of `row` lies in the fixed-point value range.
pub open spec fn spec_row_bounded(row: Seq<i64>) -> bool {
    forall|j: int| 0 <= j < row.len() ==> -VALUE_LIMIT <= #[trigger] row[j] <= VALUE_LIMIT
}

/// Every entry of every row lies in the fixed-point value range.
pub open spec fn spec_rows_bounded(rows: Seq<Seq<i64>>) -> bool {
    forall|i: int| 0 <= i < rows.len() ==> spec_row_bounded(#[trigger] rows[i])
}

/// A feed-forward stage network: the capability set the cascade consumes.
pub trait Stage: Sized {
    /// The layer structure this stage realises.
    spec fn sshape(&self) -> Seq<LayerShape>;

    /// Implementation-specific well-formedness.
    spec fn swf(&self) -> bool;

    /// What this stage currently predicts for an input.
    spec fn predict_of(&self, input: Seq<i64>) -> Seq<i64>;

    /// A well-formed stage always carries a valid shape.
    proof fn lemma_wf_shape(&self)
        requires
            self.swf(),
        ensures
            spec_valid_shape(self.sshape()),
    ;

    /// A new stage of the given shape. Implementations may initialise its
    /// parameters however they like (randomly, say), so nothing is promised
    /// about what it predicts.
    fn fresh(shape: &NeuralNetworkShape, utils: &WrappedUtils) -> (s: Self)
        requires
            spec_valid_shape(shape@),
        ensures
            s.swf(),
            s.sshape() == shape@,
    ;

    /// The stage's shape.
    fn shape(&self) -> (r: NeuralNetworkShape)
        requires
            self.swf(),
        ensures
            r@ == self.sshape(),
    ;

    /// Runs the stage on one input vector; the output width is the shape's
    /// output width.
    fn predict(&self, input: &Vec<i64>) -> (out: Vec<i64>)
        requires
            self.swf(),
            input@.len() == spec_shape_input(self.sshape()),
        ensures
            out@ == self.predict_of(input@),
            out@.len() == spec_shape_output(self.sshape()),
    ;

    /// An independent copy: same shape, same predictions, sharing no state
    /// with `self`.
    fn duplicate_stage(&self) -> (s: Self)
        requires
            self.swf(),
        ensures
            s.swf(),
            s.sshape() == self.sshape(),
            forall|input: Seq<i64>| #[trigger] s.predict_of(input) == self.predict_of(input),
    ;
}

/// Two stages that cannot be told apart from the outside: same shape and the
/// same prediction on every input.
pub open spec fn stage_equiv<S: Stage>(a: S, b: S) -> bool {
    &&& a.sshape() == b.sshape()
    &&& forall|input: Seq<i64>| #[trigger] a.predict_of(input) == b.predict_of(input)
}

/// A stage that can also learn from examples.
pub trait TrainableStage: Stage {
    /// Fits the stage to the given examples and reports an accuracy in
    /// `[0, 100]` (fixed-point percent). How well it learns is the
    /// implementation's business; the shape never changes.
    fn train(
        &mut self,
        inputs: &Vec<Vec<i64>>,
        targets: &Vec<Vec<i64>>,
        learning_rate: i64,
        epochs: usize,
        tolerance: i64,
        use_adam: bool,
        validation_split: i64,
    ) -> (accuracy: i64)
        requires
            old(self).swf(),
            inputs@.len() == targets@.len(),
            spec_rows_sized(inputs.deep_view(), spec_shape_input(old(self).sshape()) as nat),
            spec_rows_sized(targets.deep_view(), spec_shape_output(old(self).sshape()) as nat),
            spec_rows_bounded(inputs.deep_view()),
            spec_rows_bounded(targets.deep_view()),
            0 <= learning_rate <= FIXED_ONE,
            0 <= tolerance,
            0 <= validation_split <= FIXED_ONE,
        ensures
            final(self).swf(),
            final(self).sshape() == old(self).sshape(),
            0 <= accuracy <= ACCURACY_LIMIT,
    ;

    /// Fits the stage with batched weight updates.
    fn train_batch(
        &mut self,
        inputs: &Vec<Vec<i64>>,
        targets: &Vec<Vec<i64>>,
        learning_rate: i64,
        epochs: usize,
        tolerance: i64,
        batch_size: usize,
    )
        requires
            old(self).swf(),
            inputs@.len() == targets@.len(),
            spec_rows_sized(inputs.deep_view(), spec_shape_input(old(self).sshape()) as nat),
            spec_rows_bounded(inputs.deep_view()),
            spec_rows_bounded(targets.deep_view()),
            0 <= learning_rate <= FIXED_ONE,
            0 <= tolerance,
            batch_size >= 1,
        ensures
            final(self).swf(),
            final(self).sshape() == old(self).sshape(),
    ;
}

} // verus!
