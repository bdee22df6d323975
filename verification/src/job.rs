use vstd::prelude::*;
use crate::range::{effective_workers, plan_ranges, spec_effective_workers, spec_plan, ByteRange};

verus! {

/// One copy job: where the bytes come from and go to, how many there are,
/// and how many workers move them.  Created once at job start, its size read
/// from the source's metadata, and immutable afterwards.
pub struct CopyJob {
    /// Path of the file read from.
    pub source: String,
    /// Path of the file written to.
    pub dest: String,
    /// Total byte size of the file.
    pub size: u64,
    /// Worker count the job runs with, already clamped.
    pub workers: u32,
}

impl CopyJob {
    /// A job's worker count is already the effective one for its size: at
    /// least one, and exactly one for a small file.
    pub open spec fn wf(self) -> bool {
        self.workers == spec_effective_workers(self.size, self.workers)
    }

    /// Set up a job: the requested worker count is clamped to at least one,
    /// and to one when the file is below the small-file threshold.
    pub fn new(source: String, dest: String, size: u64, requested: u32) -> (job: CopyJob)
        ensures
            job.wf(),
            job.source == source,
            job.dest == dest,
            job.size == size,
            job.workers == spec_effective_workers(size, requested),
    {
        let workers = effective_workers(size, requested);
        CopyJob { source, dest, size, workers }
    }

    /// The ranges the job's workers copy, one each.
    pub fn plan(&self) -> (ranges: Vec<ByteRange>)
        requires
            self.wf(),
        ensures
            ranges@ == spec_plan(self.size, self.workers),
    {
        plan_ranges(self.size, self.workers)
    }
}

} // verus!
