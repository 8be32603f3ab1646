//! Chunk planning for the fork-join phases.
//!
//! Every parallelizable phase partitions its index range into near-equal
//! contiguous chunks and processes each chunk independently; correctness
//! relies only on the chunks covering disjoint ranges. The chunk size is
//! derived from the worker's parallelism so that results are provably the
//! same whatever that parallelism is.

use vstd::prelude::*;

verus! {

/// A handle on the shared fork-join facility. It only chooses chunk
/// granularity; each phase walks its own chunks over disjoint ranges.
pub struct Worker {
    pub cpus: usize,
}

impl Worker {
    pub open spec fn wf(&self) -> bool {
        self.cpus >= 1
    }

    /// A worker for one execution lane.
    pub fn new() -> (r: Worker)
        ensures
            r.wf(),
    {
        Worker { cpus: 1 }
    }

    /// A worker that plans chunks for the given hardware parallelism.
    pub fn with_cpus(cpus: usize) -> (r: Worker)
        requires
            cpus >= 1,
        ensures
            r.wf(),
            r.cpus == cpus,
    {
        Worker { cpus }
    }

    /// How many items each chunk of a phase over `elements` items gets:
    /// a near-equal share per lane, never empty.
    pub fn get_chunk_size(&self, elements: usize) -> (r: usize)
        requires
            self.wf(),
        ensures
            r >= 1,
            r == if elements <= self.cpus {
                1int
            } else {
                elements as int / self.cpus as int
            },
    {
        if elements <= self.cpus {
            1
        } else {
            proof {
                vstd::arithmetic::div_mod::lemma_div_by_self(self.cpus as int);
                vstd::arithmetic::div_mod::lemma_div_is_ordered(
                    self.cpus as int,
                    elements as int,
                    self.cpus as int,
                );
            }
            elements / self.cpus
        }
    }
}

} // verus!
