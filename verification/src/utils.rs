//! Resource limits handed to stage implementations.

use vstd::prelude::*;

verus! {

/// Resource limits a stage implementation may consult: a memory budget in
/// bytes and a number of worker threads for batch work.
#[derive(Clone, Copy, Debug)]
pub struct Utils {
    pub max_memory: usize,
    pub threads: usize,
}

impl Utils {
    pub fn new(max_memory: usize, threads: usize) -> (r: Utils)
        ensures
            r.max_memory == max_memory,
            r.threads == threads,
    {
        Utils { max_memory, threads }
    }
}

/// A copyable handle on [`Utils`], passed along to every stage a cascade
/// creates.
#[derive(Clone, Copy, Debug)]
pub struct WrappedUtils {
    pub utils: Utils,
}

impl WrappedUtils {
    pub fn new(utils: Utils) -> (r: WrappedUtils)
        ensures
            r.utils == utils,
    {
        WrappedUtils { utils }
    }

    pub fn max_memory(&self) -> (r: usize)
        ensures
            r == self.utils.max_memory,
    {
        self.utils.max_memory
    }

    pub fn threads(&self) -> (r: usize)
        ensures
            r == self.utils.threads,
    {
        self.utils.threads
    }
}

} // verus!
