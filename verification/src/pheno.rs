//! Phenotype and breeding-strategy shells around the trainable cascade.
//!
//! Architecture search treats a network as a phenotype: an owned, freely
//! mutable copy of a cascade plus bookkeeping for crossover and mutation
//! counts. The search loop itself (random mutation, breeding) draws random
//! numbers and lives outside the verified core; these types carry the state
//! it works on.

use vstd::prelude::*;

use crate::retry::{node_matches, ModelError, RetryNeuralNetwork};
use crate::shape::NeuralNetworkShape;
use crate::stage::TrainableStage;
use crate::store::{spec_dir_exists, ModelStore};
use crate::train::TrainableRetryNeuralNetwork;

verus! {

/// A cascade wrapped for architecture search: an independent duplicate of
/// the source network, the half shapes staged by crossover, and the number
/// of mutations applied.
pub struct NeuralNetworkPhenotype<S> {
    pub nn: TrainableRetryNeuralNetwork<S>,
    pub left_half_shape: Option<NeuralNetworkShape>,
    pub right_half_shape: Option<NeuralNetworkShape>,
    pub nb_mutates: usize,
}

impl<S: TrainableStage> NeuralNetworkPhenotype<S> {
    /// Wraps an independent duplicate of `nn`, so that training or mutating
    /// the phenotype never touches the source network or its saved state.
    pub fn new(nn: &TrainableRetryNeuralNetwork<S>, store: &mut ModelStore<S>) -> (r: Result<
        Self,
        ModelError,
    >)
        requires
            nn.network.wf(),
            nn.network.spec_directory().len() > 0,
            old(store).store_wf(),
        ensures
            final(store).store_wf(),
            forall|k: Seq<Seq<char>>|
                old(store)@.contains_key(k) ==> #[trigger] final(store)@.contains_key(k)
                    && final(store)@[k] == old(store)@[k],
            r is Ok <==> exists|n: RetryNeuralNetwork<S>|
                node_matches(&n, old(store)@, nn.network.spec_directory()),
            r matches Ok(p) ==> p.nn.network.wf()
                && p.nn.network.model_directory.spec_is_internal() && !spec_dir_exists(
                old(store)@,
                p.nn.network.spec_directory(),
            ) && p.left_half_shape is None && p.right_half_shape is None && p.nb_mutates == 0,
    {
        match nn.duplicate_trainable(store) {
            Result::Ok(dup) => Ok(
                NeuralNetworkPhenotype {
                    nn: dup,
                    left_half_shape: None,
                    right_half_shape: None,
                    nb_mutates: 0,
                },
            ),
            Result::Err(e) => Err(e),
        }
    }

    /// The phenotype's network.
    pub fn get_nn(&self) -> (r: &TrainableRetryNeuralNetwork<S>)
        ensures
            r == &self.nn,
    {
        &self.nn
    }

    /// Replaces the phenotype's network.
    pub fn set_nn(&mut self, nn: TrainableRetryNeuralNetwork<S>)
        ensures
            final(self).nn == nn,
            final(self).left_half_shape == old(self).left_half_shape,
            final(self).right_half_shape == old(self).right_half_shape,
            final(self).nb_mutates == old(self).nb_mutates,
    {
        self.nn = nn;
    }

    /// Stages the left half shape a crossover picked.
    pub fn set_left_half_shape(&mut self, shape: NeuralNetworkShape)
        ensures
            final(self).left_half_shape matches Some(s) && s@ == shape@,
            final(self).nn == old(self).nn,
            final(self).right_half_shape == old(self).right_half_shape,
            final(self).nb_mutates == old(self).nb_mutates,
    {
        self.left_half_shape = Some(shape);
    }

    /// Stages the right half shape a crossover picked.
    pub fn set_right_half_shape(&mut self, shape: NeuralNetworkShape)
        ensures
            final(self).right_half_shape matches Some(s) && s@ == shape@,
            final(self).nn == old(self).nn,
            final(self).left_half_shape == old(self).left_half_shape,
            final(self).nb_mutates == old(self).nb_mutates,
    {
        self.right_half_shape = Some(shape);
    }

    /// Clears both staged half shapes.
    pub fn reset_half_shapes(&mut self)
        ensures
            final(self).left_half_shape is None,
            final(self).right_half_shape is None,
            final(self).nn == old(self).nn,
            final(self).nb_mutates == old(self).nb_mutates,
    {
        self.left_half_shape = None;
        self.right_half_shape = None;
    }

    /// Pins the phenotype's network in memory. Stages stay resident in this
    /// design, so there is nothing left to do; the call is kept so search
    /// code can hold the same protocol as with paged-out networks.
    pub fn allocate(&mut self)
        ensures
            *final(self) == *old(self),
    {
    }

    /// Counts one more applied mutation.
    pub fn incr_number_mutates(&mut self) -> (r: usize)
        requires
            old(self).nb_mutates < usize::MAX,
        ensures
            final(self).nb_mutates == old(self).nb_mutates + 1,
            r == final(self).nb_mutates,
            final(self).nn == old(self).nn,
    {
        self.nb_mutates = self.nb_mutates + 1;
        self.nb_mutates
    }

    /// Counts one mutation down, stopping at zero.
    pub fn decr_number_mutates(&mut self) -> (r: usize)
        ensures
            final(self).nb_mutates == (if old(self).nb_mutates > 0 {
                (old(self).nb_mutates - 1) as usize
            } else {
                0usize
            }),
            r == final(self).nb_mutates,
            final(self).nn == old(self).nn,
    {
        if self.nb_mutates > 0 {
            self.nb_mutates = self.nb_mutates - 1;
        }
        self.nb_mutates
    }

    /// How many mutations this phenotype has taken.
    pub fn get_number_mutates(&self) -> (r: usize)
        ensures
            r == self.nb_mutates,
    {
        self.nb_mutates
    }
}

/// The breeding strategy's persistent configuration: where the best network
/// of each generation is saved.
pub struct NeuralNetworkStrategy {
    pub model_directory: String,
}

impl NeuralNetworkStrategy {
    pub fn new(model_directory: String) -> (r: Self)
        ensures
            r.model_directory@ == model_directory@,
    {
        NeuralNetworkStrategy { model_directory }
    }

    /// Where this strategy saves each generation's best network.
    pub fn model_directory(&self) -> (r: &String)
        ensures
            r@ == self.model_directory@,
    {
        &self.model_directory
    }
}

} // verus!
