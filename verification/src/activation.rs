//! Activation markers and the one activation the fixed-point core can
//! evaluate itself.

use vstd::prelude::*;

use crate::shape::{ActivationData, ActivationType};

verus! {

/// Marker for the hyperbolic-tangent activation. Evaluating it takes real
/// arithmetic, which lives outside the verified core; the marker lets shapes
/// and stage implementations name it.
#[derive(Clone, Copy, Debug)]
pub struct Tanh;

impl Tanh {
    /// Creates a new Tanh instance.
    pub fn new() -> (r: Self) {
        Tanh
    }

    pub fn get_activation_data(&self) -> (r: ActivationData)
        ensures
            r.activation_type == ActivationType::Tanh,
    {
        ActivationData::new(ActivationType::Tanh)
    }
}

impl Default for Tanh {
    fn default() -> (r: Self) {
        Tanh::new()
    }
}

/// The rectified linear unit. Unlike the smooth activations it is pure
/// integer arithmetic, so the fixed-point core evaluates it exactly.
#[derive(Clone, Copy, Debug)]
pub struct ReLU;

impl ReLU {
    /// Elementwise `max(0, x)`.
    pub fn forward(&self, input: &Vec<i64>) -> (r: Vec<i64>)
        ensures
            r@.len() == input@.len(),
            forall|i: int|
                0 <= i < input@.len() ==> #[trigger] r@[i] == (if input@[i] > 0 {
                    input@[i]
                } else {
                    0
                }),
    {
        let n = input.len();
        let mut r: Vec<i64> = Vec::new();
        let mut i: usize = 0;
        while i < n
            invariant
                n == input@.len(),
                0 <= i <= n,
                r@.len() == i,
                forall|j: int|
                    0 <= j < i ==> #[trigger] r@[j] == (if input@[j] > 0 {
                        input@[j]
                    } else {
                        0
                    }),
            decreases n - i,
        {
            let x = input[i];
            if x > 0 {
                r.push(x);
            } else {
                r.push(0);
            }
            i = i + 1;
        }
        r
    }

    /// Gradient of the loss with respect to the input: the incoming
    /// gradient passes through exactly where the input was positive.
    pub fn backward(&self, input: &Vec<i64>, grad_output: &Vec<i64>) -> (r: Vec<i64>)
        requires
            input@.len() == grad_output@.len(),
        ensures
            r@.len() == grad_output@.len(),
            forall|i: int|
                0 <= i < grad_output@.len() ==> #[trigger] r@[i] == (if input@[i] > 0 {
                    grad_output@[i]
                } else {
                    0
                }),
    {
        let n = grad_output.len();
        let mut r: Vec<i64> = Vec::new();
        let mut i: usize = 0;
        while i < n
            invariant
                n == grad_output@.len(),
                input@.len() == n,
                0 <= i <= n,
                r@.len() == i,
                forall|j: int|
                    0 <= j < i ==> #[trigger] r@[j] == (if input@[j] > 0 {
                        grad_output@[j]
                    } else {
                        0
                    }),
            decreases n - i,
        {
            if input[i] > 0 {
                r.push(grad_output[i]);
            } else {
                r.push(0);
            }
            i = i + 1;
        }
        r
    }

    pub fn get_activation_data(&self) -> (r: ActivationData)
        ensures
            r.activation_type == ActivationType::ReLU,
    {
        ActivationData::new(ActivationType::ReLU)
    }
}

} // verus!
