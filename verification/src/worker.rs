use vstd::prelude::*;
use vstd::math::min;
use vstd::pervasive::VecAdditionalExecFns;
use crate::error::CopyError;
use crate::range::{lemma_plan_partitions, plan_ranges, ranges_cover, spec_plan, ByteRange};

verus! {

/// Size of each worker's private transfer buffer.
pub const BUFFER_SIZE: usize = 1024 * 1024;

/// Length of the next positional read: a full buffer, bounded by what is left
/// of the worker's range.
pub fn read_len(cursor: u64, end: u64) -> (n: usize)
    requires
        cursor < end,
    ensures
        n as int == min(BUFFER_SIZE as int, end - cursor),
        1 <= n,
{
    if end - cursor < BUFFER_SIZE as u64 {
        (end - cursor) as usize
    } else {
        BUFFER_SIZE
    }
}

/// What a worker does with the outcome of one positional read: zero bytes
/// returned before the end of the range means the source shrank or changed
/// under the copy, and fails the worker with a short read; any other count
/// advances the cursor by the bytes transferred.
pub fn worker_advance(cursor: u64, end: u64, n: usize) -> (r: Result<u64, CopyError>)
    requires
        cursor < end,
        n as int <= end - cursor,
    ensures
        n == 0 ==> r == Err::<u64, CopyError>(CopyError::ShortRead),
        1 <= n ==> r == Ok::<u64, CopyError>((cursor + n) as u64),
{
    if n == 0 {
        Err(CopyError::ShortRead)
    } else {
        Ok(cursor + n as u64)
    }
}

/// Positional read from an in-memory image of a file: the `len` bytes of
/// `data` starting at `offset`, independent of any shared cursor.
pub fn read_at(data: &Vec<u8>, offset: u64, len: usize) -> (buf: Vec<u8>)
    requires
        offset + len <= data@.len(),
    ensures
        buf@ == data@.subrange(offset as int, offset as int + len as int),
{
    let dlen: usize = data.len();
    proof {
        assert(offset <= dlen);
    }
    let base: usize = offset as usize;
    let mut buf: Vec<u8> = Vec::new();
    let mut k: usize = 0;
    while k < len
        invariant
            k <= len,
            base == offset,
            base + len <= usize::MAX,
            offset + len <= data@.len(),
            buf@.len() == k as nat,
            forall|j: int| 0 <= j < k as int ==> buf@[j] == data@[offset + j],
        decreases len - k,
    {
        buf.push(data[base + k]);
        k = k + 1;
    }
    proof {
        assert(buf@ =~= data@.subrange(offset as int, offset as int + len as int));
    }
    buf
}

/// Positional write into an in-memory image of a file: `bytes` replaces the
/// bytes starting at `offset`; the length and everything outside the window
/// are untouched.
pub fn write_at(data: &mut Vec<u8>, offset: u64, bytes: &Vec<u8>)
    requires
        offset + bytes@.len() <= old(data)@.len(),
    ensures
        final(data)@.len() == old(data)@.len(),
        forall|j: int|
            offset <= j < offset + bytes@.len() ==> final(data)@[j] == bytes@[j - offset],
        forall|j: int|
            0 <= j < old(data)@.len() && !(offset <= j < offset + bytes@.len())
                ==> final(data)@[j] == old(data)@[j],
{
    let dlen: usize = data.len();
    proof {
        assert(offset <= dlen);
    }
    let base: usize = offset as usize;
    let mut k: usize = 0;
    while k < bytes.len()
        invariant
            k <= bytes@.len(),
            base == offset,
            base + bytes@.len() <= usize::MAX,
            offset + bytes@.len() <= old(data)@.len(),
            data@.len() == old(data)@.len(),
            forall|j: int| offset <= j < offset + k as int ==> data@[j] == bytes@[j - offset],
            forall|j: int|
                0 <= j < old(data)@.len() && !(offset <= j < offset + k as int)
                    ==> data@[j] == old(data)@[j],
        decreases bytes@.len() - k,
    {
        data.set(base + k, bytes[k]);
        k = k + 1;
    }
}

/// One worker's whole loop, on an in-memory image: copy `range` from `src`
/// into `dst` by positional reads of at most [`BUFFER_SIZE`] bytes, each
/// followed by a positional write at the same offset, the cursor and the
/// shared progress counter advancing by the bytes transferred.  Bytes outside
/// the range are left alone, which is why disjoint ranges need no locking.
pub fn copy_range(src: &Vec<u8>, dst: &mut Vec<u8>, range: ByteRange, progress: &mut u64)
    requires
        range.wf(),
        range.end <= src@.len(),
        old(dst)@.len() == src@.len(),
        *old(progress) + range.size() <= u64::MAX,
    ensures
        final(dst)@.len() == old(dst)@.len(),
        forall|j: int| range.start <= j < range.end ==> final(dst)@[j] == src@[j],
        forall|j: int|
            0 <= j < old(dst)@.len() && !range.holds_offset(j)
                ==> final(dst)@[j] == old(dst)@[j],
        *final(progress) == *old(progress) + range.size(),
{
    let mut cursor: u64 = range.start;
    while cursor < range.end
        invariant
            range.wf(),
            range.start <= cursor <= range.end,
            range.end <= src@.len(),
            dst@.len() == src@.len(),
            src@.len() == old(dst)@.len(),
            forall|j: int| range.start <= j < cursor ==> dst@[j] == src@[j],
            forall|j: int|
                0 <= j < old(dst)@.len() && !(range.start <= j < cursor)
                    ==> dst@[j] == old(dst)@[j],
            *old(progress) + range.size() <= u64::MAX,
            *progress == *old(progress) + (cursor - range.start),
        decreases range.end - cursor,
    {
        let n: usize = read_len(cursor, range.end);
        let buf = read_at(src, cursor, n);
        write_at(dst, cursor, &buf);
        match worker_advance(cursor, range.end, n) {
            Ok(next) => {
                cursor = next;
            },
            Err(_) => {
                // A read from an in-memory image returns every byte asked
                // for, so the short-read arm is unreachable here.
                proof {
                    assert(false);
                }
            },
        }
        *progress = *progress + n as u64;
    }
}

/// The whole data path of one copy job, run on an in-memory image of the
/// source: plan the ranges, preallocate a zeroed destination of exactly the
/// source's length, run every worker's loop over its own range, and tally
/// the progress counter.  Whatever worker count is requested, the
/// destination comes back with the source's exact length and contents, and
/// the counter equals the size.
pub fn copy_with_plan(src: &Vec<u8>, workers: u32) -> (r: (Vec<u8>, u64))
    ensures
        r.0@ == src@,
        r.0@.len() == src@.len(),
        r.1 == src@.len(),
{
    let size: u64 = src.len() as u64;
    let ranges = plan_ranges(size, workers);
    proof {
        lemma_plan_partitions(size, workers);
    }
    let mut dst: Vec<u8> = Vec::new();
    let mut z: usize = 0;
    while z < src.len()
        invariant
            z <= src@.len(),
            dst@.len() == z as nat,
        decreases src@.len() - z,
    {
        dst.push(0);
        z = z + 1;
    }
    let mut progress: u64 = 0;
    let mut t: usize = 0;
    while t < ranges.len()
        invariant
            ranges@ == spec_plan(size, workers),
            ranges@.len() >= 1,
            size == src@.len(),
            t <= ranges@.len(),
            dst@.len() == src@.len(),
            ranges_cover(ranges@, size),
            ranges@.first().start == 0,
            ranges@.last().end == size,
            forall|i: int|
                0 <= i < ranges@.len() - 1 ==> (#[trigger] ranges@[i]).end == ranges@[i + 1].start,
            progress == if t == 0 { 0int } else { ranges@[t as int - 1].end as int },
            forall|j: int|
                0 <= j < (if t == 0 { 0int } else { ranges@[t as int - 1].end as int })
                    ==> dst@[j] == src@[j],
        decreases ranges@.len() - t,
    {
        let range = ranges[t];
        proof {
            assert(ranges@[t as int].wf() && ranges@[t as int].end <= size);
            if t > 0 {
                assert(ranges@[t as int - 1].end == ranges@[t as int].start);
            }
        }
        copy_range(src, &mut dst, range, &mut progress);
        proof {
            let tt = t as int;
            assert forall|j: int| 0 <= j < ranges@[tt].end as int implies dst@[j] == src@[j] by {
                if j < ranges@[tt].start {
                    assert(!ranges@[tt].holds_offset(j));
                } else {
                    assert(ranges@[tt].holds_offset(j));
                }
            }
        }
        t = t + 1;
    }
    proof {
        assert(dst@ =~= src@);
    }
    (dst, progress)
}

/// Any two finished copies of the same source are byte-identical to each
/// other, whatever worker count each job used: the contract of
/// [`copy_with_plan`] pins every destination to the source's bytes, so the
/// destinations agree — with all-zero contents as much as with any other.
pub proof fn lemma_copies_identical(src: Seq<u8>, first_copy: Seq<u8>, second_copy: Seq<u8>)
    requires
        first_copy == src,
        second_copy == src,
    ensures
        first_copy == second_copy,
        first_copy.len() == src.len(),
{
}

/// Sum of the byte counts of the successful outcomes of `rs` from index `k`
/// on.
pub open spec fn spec_ok_total_from(rs: Seq<Result<u64, CopyError>>, k: int) -> int
    decreases rs.len() - k,
{
    if k < 0 || k >= rs.len() {
        0
    } else {
        (match rs[k] {
            Ok(n) => n as int,
            Err(_) => 0,
        }) + spec_ok_total_from(rs, k + 1)
    }
}

/// Sum of the byte counts of all successful outcomes.
pub open spec fn spec_ok_total(rs: Seq<Result<u64, CopyError>>) -> int {
    spec_ok_total_from(rs, 0)
}

/// First error among the outcomes of `rs` from index `k` on, if any.
pub open spec fn spec_first_error_from(rs: Seq<Result<u64, CopyError>>, k: int) -> Option<
    CopyError,
>
    decreases rs.len() - k,
{
    if k < 0 || k >= rs.len() {
        None
    } else {
        match rs[k] {
            Err(e) => Some(e),
            Ok(_) => spec_first_error_from(rs, k + 1),
        }
    }
}

/// First error among all outcomes, if any worker failed.
pub open spec fn spec_first_error(rs: Seq<Result<u64, CopyError>>) -> Option<CopyError> {
    spec_first_error_from(rs, 0)
}

/// The tail sums of successful byte counts are never negative.
proof fn lemma_ok_total_nonneg(rs: Seq<Result<u64, CopyError>>, k: int)
    ensures
        0 <= spec_ok_total_from(rs, k),
    decreases rs.len() - k,
{
    if 0 <= k < rs.len() {
        lemma_ok_total_nonneg(rs, k + 1);
    }
}

/// Collect the workers' outcomes at the join barrier: the job fails with the
/// first error any worker reported, and otherwise succeeds with the total
/// number of bytes the workers copied.
pub fn collect_outcomes(rs: &Vec<Result<u64, CopyError>>) -> (r: Result<u64, CopyError>)
    requires
        spec_ok_total(rs@) <= u64::MAX,
    ensures
        match spec_first_error(rs@) {
            Some(e) => r == Err::<u64, CopyError>(e),
            None => r == Ok::<u64, CopyError>(spec_ok_total(rs@) as u64),
        },
{
    let mut total: u64 = 0;
    let mut k: usize = 0;
    while k < rs.len()
        invariant
            k <= rs@.len(),
            spec_ok_total(rs@) <= u64::MAX,
            spec_first_error(rs@) == spec_first_error_from(rs@, k as int),
            spec_ok_total(rs@) == total + spec_ok_total_from(rs@, k as int),
        decreases rs@.len() - k,
    {
        proof {
            lemma_ok_total_nonneg(rs@, k as int + 1);
        }
        match rs[k] {
            Ok(n) => {
                total = total + n;
            },
            Err(e) => {
                return Err(e);
            },
        }
        k = k + 1;
    }
    Ok(total)
}

} // verus!
