//! A verified core for cascading "retry" neural networks.
//!
//! A cascade node pairs a primary stage network, widened by one learned
//! escalation channel, with a backup that is either a plain leaf stage or
//! another cascade. Prediction routes each input through the primary and
//! forwards it to the backup when the escalation signal fires; training
//! partitions the examples between the stages with the help of a disposable
//! probe stage. Stage arithmetic itself is consumed through the [`stage`]
//! traits; all values are fixed-point integers (see [`fixed`]).

pub mod activation;
pub mod baseline;
pub mod fixed;
pub mod pheno;
pub mod path;
pub mod retry;
pub mod shape;
pub mod stage;
pub mod store;
pub mod train;
pub mod utils;

use vstd::prelude::*;

verus! {

} // verus!
