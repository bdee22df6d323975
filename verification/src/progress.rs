use vstd::prelude::*;
use vstd::arithmetic::div_mod::{lemma_div_is_ordered, lemma_div_multiples_vanish};

verus! {

/// How often the background aggregator samples the progress counter, in
/// milliseconds.
pub const PROGRESS_POLL_MILLIS: u64 = 50;

/// Completion in tenths of a percent: `done` bytes out of `total`, rounded
/// down.  Pure integer arithmetic on a sampled counter value; the caller
/// formats the figure.
pub fn progress_permille(done: u64, total: u64) -> (p: u64)
    requires
        1 <= total,
        done <= total,
    ensures
        p == done as int * 1000 / total as int,
        p <= 1000,
{
    let wide: u128 = (done as u128) * 1000 / (total as u128);
    proof {
        lemma_div_is_ordered(done as int * 1000, total as int * 1000, total as int);
        lemma_div_multiples_vanish(1000, total as int);
        assert(total as int * 1000 == 1000 * total as int);
    }
    wide as u64
}

/// The aggregator's stop condition: it ends once the counter it samples has
/// reached or passed the total size.
pub fn aggregator_done(sampled: u64, total: u64) -> (stop: bool)
    ensures
        stop == (sampled >= total),
{
    sampled >= total
}

} // verus!
