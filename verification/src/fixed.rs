//! Fixed-point scalars and the escalation threshold test.
//!
//! Every numeric value the cascade logic reads — network inputs and outputs,
//! tolerances, learning rates, accuracies — is an `i64` holding the real
//! quantity scaled by [`FIXED_ONE`].

use vstd::prelude::*;

verus! {

/// One whole unit in the fixed-point encoding: the `i64` value `1_000_000`
/// stands for the real number `1.0`.
pub const FIXED_ONE: i64 = 1_000_000;

/// Largest magnitude a stage value (input, target, prediction) may take.
/// Keeping values in `[-VALUE_LIMIT, VALUE_LIMIT]` lets the stage update
/// arithmetic stay inside `i64`.
pub const VALUE_LIMIT: i64 = 1_000_000_000_000;

/// Reference value of the escalation channel: a primary stage signals "hand
/// this input to the backup" by emitting a value close to `1.0`.
pub const ESCALATION_REFERENCE: i64 = FIXED_ONE;

/// How close (strictly) to [`ESCALATION_REFERENCE`] the escalation signal
/// must come for an input to be routed to the backup: `0.2` in real units.
pub const ESCALATION_TOLERANCE: i64 = 200_000;

/// Training sets smaller than this are rejected: routing statistics drawn
/// from too few examples are unreliable and must not corrupt the cascade.
pub const MIN_TRAINING_EXAMPLES: usize = 100;

/// Upper bound of a stage-reported accuracy: `100.0` (a percentage) in the
/// fixed-point encoding.
pub const ACCURACY_LIMIT: i64 = 100 * FIXED_ONE;

/// Distance between two unbounded integers.
pub open spec fn abs_diff(a: int, b: int) -> int {
    if a >= b {
        a - b
    } else {
        b - a
    }
}

/// `a` lies strictly within `tol` of `b`.
pub open spec fn spec_within(a: int, b: int, tol: int) -> bool {
    abs_diff(a, b) < tol
}

/// Strict threshold test: does `a` lie within `tolerance` of `b`?
pub fn within_tolerance(a: i64, b: i64, tolerance: i64) -> (r: bool)
    ensures
        r == spec_within(a as int, b as int, tolerance as int),
{
    let d: i128 = a as i128 - b as i128;
    let m: i128 = if d >= 0 {
        d
    } else {
        -d
    };
    m < tolerance as i128
}

/// The escalation decision on a primary stage's last output channel.
pub open spec fn spec_escalates(signal: int) -> bool {
    spec_within(signal, ESCALATION_REFERENCE as int, ESCALATION_TOLERANCE as int)
}

/// Routing test of the cascade: an input escalates to the backup exactly
/// when the primary's escalation signal lies strictly within
/// [`ESCALATION_TOLERANCE`] of [`ESCALATION_REFERENCE`].
pub fn escalates(signal: i64) -> (r: bool)
    ensures
        r == spec_escalates(signal as int),
{
    within_tolerance(signal, ESCALATION_REFERENCE, ESCALATION_TOLERANCE)
}

/// Every output dimension of `pred` lies strictly within `tol` of `target`.
pub open spec fn spec_row_matches(pred: Seq<i64>, target: Seq<i64>, tol: int) -> bool {
    &&& pred.len() == target.len()
    &&& forall|i: int|
        0 <= i < pred.len() ==> spec_within(pred[i] as int, target[i] as int, tol)
}

/// Does a prediction match a target on every dimension, each within
/// `tolerance`?
pub fn row_matches(prediction: &Vec<i64>, target: &Vec<i64>, tolerance: i64) -> (r: bool)
    requires
        prediction@.len() == target@.len(),
    ensures
        r == spec_row_matches(prediction@, target@, tolerance as int),
{
    let n = prediction.len();
    let mut i: usize = 0;
    while i < n
        invariant
            n == prediction@.len(),
            prediction@.len() == target@.len(),
            0 <= i <= n,
            forall|j: int|
                0 <= j < i ==> spec_within(prediction@[j] as int, target@[j] as int, tolerance as int),
        decreases n - i,
    {
        if !within_tolerance(prediction[i], target[i], tolerance) {
            return false;
        }
        i = i + 1;
    }
    true
}

} // verus!
