//! The configuration of one simulation engine and its workers.

use vstd::prelude::*;

verus! {

/// The position of a worker among the workers of an engine.
pub type WorkerIndex = usize;

/// The workers allotted to an engine.
pub type WorkerAllocation = Vec<Worker>;

/// The configuration of a single simulation engine.
#[derive(Debug, Clone)]
pub struct Config {
    pub worker_allocation: WorkerAllocation,
    pub num_workers: usize,
}

/// One worker, known by its index.
#[derive(Clone, Copy, Debug, Eq, PartialEq, PartialOrd, Ord)]
pub struct Worker(WorkerIndex);

impl Worker {
    /// The index of the worker.
    pub closed spec fn index_spec(self) -> WorkerIndex {
        self.0
    }

    /// The worker with the given index.
    pub fn new(index: WorkerIndex) -> (r: Worker)
        ensures
            r.index_spec() == index,
    {
        Worker(index)
    }

    /// The index of the worker.
    pub fn index(&self) -> (r: WorkerIndex)
        ensures
            r == self.index_spec(),
    {
        self.0
    }
}

} // verus!
