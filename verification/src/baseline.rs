//! A minimal verified stage: a bias-only model.
//!
//! The stage keeps one learnable response vector and predicts it for every
//! input. Training pulls the response toward the targets by clamped
//! stochastic gradient descent. It is the simplest network the cascade can
//! drive end to end; richer stages (dense layers, real optimizers) plug in
//! through the same [`Stage`] traits from outside the verified core.

use vstd::prelude::*;

use crate::fixed::{row_matches, ACCURACY_LIMIT, FIXED_ONE, VALUE_LIMIT};
use crate::shape::{
    spec_shape_output, spec_valid_shape, LayerShape, NeuralNetworkShape,
};
use crate::stage::{
    spec_row_bounded, spec_rows_bounded, spec_rows_sized, Stage, TrainableStage,
};
use crate::utils::WrappedUtils;

verus! {

/// A bias-only stage: its prediction is its response vector, whatever the
/// input.
pub struct BaselineStage {
    pub shape: NeuralNetworkShape,
    pub response: Vec<i64>,
}

impl BaselineStage {
    /// A stage with a fixed response vector; handy for building primaries
    /// whose escalation signal takes a chosen value.
    pub fn with_response(shape: NeuralNetworkShape, response: Vec<i64>) -> (r: BaselineStage)
        requires
            spec_valid_shape(shape@),
            response@.len() == spec_shape_output(shape@),
            spec_row_bounded(response@),
        ensures
            r.swf(),
            r.sshape() == shape@,
            forall|input: Seq<i64>| #[trigger] r.predict_of(input) == response@,
    {
        BaselineStage { shape, response }
    }

    /// One clamped gradient step of every response channel toward a target
    /// row, with step size `learning_rate`.
    fn step_towards(&mut self, target: &Vec<i64>, learning_rate: i64)
        requires
            old(self).swf(),
            spec_row_bounded(target@),
            0 <= learning_rate <= FIXED_ONE,
        ensures
            final(self).swf(),
            final(self).shape == old(self).shape,
            final(self).response@.len() == old(self).response@.len(),
    {
        let w = self.response.len();
        let mut d: usize = 0;
        while d < w
            invariant
                w == self.response@.len(),
                0 <= d <= w,
                self.shape == old(self).shape,
                spec_row_bounded(self.response@),
                spec_row_bounded(target@),
                0 <= learning_rate <= FIXED_ONE,
            decreases w - d,
        {
            proof {
                assert(-VALUE_LIMIT <= self.response@[d as int] <= VALUE_LIMIT);
            }
            let r = self.response[d] as i128;
            let t: i128 = if d < target.len() {
                target[d] as i128
            } else {
                0
            };
            proof {
                assert(-VALUE_LIMIT as i128 <= r <= VALUE_LIMIT as i128);
                assert(-VALUE_LIMIT as i128 <= t <= VALUE_LIMIT as i128);
                assert(-4000000000000000000 <= 2 * (learning_rate as i128) * (r - t)
                    <= 4000000000000000000) by (nonlinear_arith)
                    requires
                        0 <= learning_rate as i128 <= 1000000,
                        -2000000000000 <= r - t <= 2000000000000,
                ;
            }
            let delta = (2 * (learning_rate as i128) * (r - t)) / (FIXED_ONE as i128);
            let moved = r - delta;
            let clamped: i64 = if moved > VALUE_LIMIT as i128 {
                VALUE_LIMIT
            } else if moved < -VALUE_LIMIT as i128 {
                -VALUE_LIMIT
            } else {
                moved as i64
            };
            self.response.set(d, clamped);
            d = d + 1;
        }
    }

    /// The share of `targets` rows the current response answers in full,
    /// as a fixed-point percentage.
    fn accuracy_on(&self, targets: &Vec<Vec<i64>>, tolerance: i64) -> (acc: i64)
        requires
            self.swf(),
            spec_rows_sized(targets.deep_view(), self.response@.len() as nat),
        ensures
            0 <= acc <= ACCURACY_LIMIT,
    {
        let n = targets.len();
        if n == 0 {
            return 0;
        }
        let mut count: usize = 0;
        let mut i: usize = 0;
        while i < n
            invariant
                self.swf(),
                n == targets@.len(),
                spec_rows_sized(targets.deep_view(), self.response@.len() as nat),
                0 <= i <= n,
                count <= i,
            decreases n - i,
        {
            proof {
                assert(targets.deep_view()[i as int] == targets@[i as int]@);
            }
            if row_matches(&self.response, &targets[i], tolerance) {
                count = count + 1;
            }
            i = i + 1;
        }
        proof {
            assert((count as int) * (ACCURACY_LIMIT as int) / (n as int) <= ACCURACY_LIMIT as int
                && 0 <= (count as int) * (ACCURACY_LIMIT as int) / (n as int)) by (nonlinear_arith)
                requires
                    0 <= count as int <= n as int,
                    n as int > 0,
            ;
        }
        let acc = ((count as u128) * (ACCURACY_LIMIT as u128) / (n as u128)) as i64;
        acc
    }
}

impl Stage for BaselineStage {
    open spec fn sshape(&self) -> Seq<LayerShape> {
        self.shape@
    }

    open spec fn swf(&self) -> bool {
        &&& spec_valid_shape(self.shape@)
        &&& self.response@.len() == spec_shape_output(self.shape@)
        &&& spec_row_bounded(self.response@)
    }

    open spec fn predict_of(&self, input: Seq<i64>) -> Seq<i64> {
        self.response@
    }

    proof fn lemma_wf_shape(&self) {
    }

    fn fresh(shape: &NeuralNetworkShape, utils: &WrappedUtils) -> (s: Self) {
        let w = shape.output_size();
        let mut response: Vec<i64> = Vec::new();
        let mut i: usize = 0;
        while i < w
            invariant
                0 <= i <= w,
                response@.len() == i,
                forall|j: int| 0 <= j < i ==> #[trigger] response@[j] == 0,
            decreases w - i,
        {
            response.push(0);
            i = i + 1;
        }
        BaselineStage { shape: shape.clone(), response }
    }

    fn shape(&self) -> (r: NeuralNetworkShape) {
        self.shape.clone()
    }

    fn predict(&self, input: &Vec<i64>) -> (out: Vec<i64>) {
        let w = self.response.len();
        let mut out: Vec<i64> = Vec::new();
        let mut i: usize = 0;
        while i < w
            invariant
                w == self.response@.len(),
                0 <= i <= w,
                out@ =~= self.response@.take(i as int),
            decreases w - i,
        {
            out.push(self.response[i]);
            proof {
                assert(out@ =~= self.response@.take(i + 1));
            }
            i = i + 1;
        }
        proof {
            assert(self.response@.take(w as int) =~= self.response@);
        }
        out
    }

    fn duplicate_stage(&self) -> (s: Self) {
        let shape = self.shape.clone();
        let w = self.response.len();
        let mut response: Vec<i64> = Vec::new();
        let mut i: usize = 0;
        while i < w
            invariant
                w == self.response@.len(),
                0 <= i <= w,
                response@ =~= self.response@.take(i as int),
            decreases w - i,
        {
            response.push(self.response[i]);
            proof {
                assert(response@ =~= self.response@.take(i + 1));
            }
            i = i + 1;
        }
        proof {
            assert(self.response@.take(w as int) =~= self.response@);
        }
        let s = BaselineStage { shape, response };
        proof {
            assert forall|input: Seq<i64>| #[trigger] s.predict_of(input) == self.predict_of(
                input,
            ) by {}
        }
        s
    }
}

impl TrainableStage for BaselineStage {
    fn train(
        &mut self,
        inputs: &Vec<Vec<i64>>,
        targets: &Vec<Vec<i64>>,
        learning_rate: i64,
        epochs: usize,
        tolerance: i64,
        use_adam: bool,
        validation_split: i64,
    ) -> (accuracy: i64) {
        let n = targets.len();
        proof {
            assert((n as int) * (validation_split as int) / (FIXED_ONE as int) <= n as int && 0 <= (
            n as int) * (validation_split as int) / (FIXED_ONE as int)) by (nonlinear_arith)
                requires
                    0 <= validation_split as int <= FIXED_ONE as int,
                    0 <= n as int,
                    FIXED_ONE as int > 0,
            ;
        }
        let split = (((n as u128) * (validation_split as u128)) / (FIXED_ONE as u128)) as usize;
        let mut e: usize = 0;
        while e < epochs
            invariant
                self.swf(),
                self.shape == old(self).shape,
                split <= n,
                n == targets@.len(),
                spec_rows_bounded(targets.deep_view()),
                0 <= learning_rate <= FIXED_ONE,
            decreases epochs - e,
        {
            let mut i: usize = 0;
            while i < split
                invariant
                    self.swf(),
                    self.shape == old(self).shape,
                    split <= n,
                    n == targets@.len(),
                    spec_rows_bounded(targets.deep_view()),
                    0 <= learning_rate <= FIXED_ONE,
                    0 <= i <= split,
                decreases split - i,
            {
                proof {
                    assert(targets.deep_view()[i as int] == targets@[i as int]@);
                }
                self.step_towards(&targets[i], learning_rate);
                i = i + 1;
            }
            e = e + 1;
        }
        self.accuracy_on(targets, tolerance)
    }

    fn train_batch(
        &mut self,
        inputs: &Vec<Vec<i64>>,
        targets: &Vec<Vec<i64>>,
        learning_rate: i64,
        epochs: usize,
        tolerance: i64,
        batch_size: usize,
    ) {
        let n = targets.len();
        let mut e: usize = 0;
        while e < epochs
            invariant
                self.swf(),
                self.shape == old(self).shape,
                n == targets@.len(),
                spec_rows_bounded(targets.deep_view()),
                0 <= learning_rate <= FIXED_ONE,
            decreases epochs - e,
        {
            let mut i: usize = 0;
            while i < n
                invariant
                    self.swf(),
                    self.shape == old(self).shape,
                    n == targets@.len(),
                    spec_rows_bounded(targets.deep_view()),
                    0 <= learning_rate <= FIXED_ONE,
                    0 <= i <= n,
                decreases n - i,
            {
                proof {
                    assert(targets.deep_view()[i as int] == targets@[i as int]@);
                }
                self.step_towards(&targets[i], learning_rate);
                i = i + 1;
            }
            e = e + 1;
        }
    }
}

} // verus!
