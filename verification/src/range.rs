use vstd::prelude::*;
use vstd::arithmetic::div_mod::{
    lemma_div_pos_is_pos, lemma_fundamental_div_mod, lemma_mod_division_less_than_divisor,
};
use vstd::arithmetic::mul::{lemma_mul_inequality, lemma_mul_nonnegative};

verus! {

/// Files below this size are copied by a single worker: under it the cost of
/// scheduling extra workers outweighs any gain from concurrent I/O.
pub const SMALL_FILE_THRESHOLD: u64 = 1024 * 1024;

/// A contiguous half-open interval `[start, end)` of the file, assigned to
/// exactly one worker.
#[derive(Clone, Copy, Debug, PartialEq, Eq, Structural)]
pub struct ByteRange {
    pub start: u64,
    pub end: u64,
}

impl ByteRange {
    /// A range is well formed when it does not run backwards.
    pub open spec fn wf(self) -> bool {
        self.start <= self.end
    }

    /// Number of bytes the range covers.
    pub open spec fn size(self) -> int {
        self.end - self.start
    }

    /// True when byte offset `off` lies inside the range.
    pub open spec fn holds_offset(self, off: int) -> bool {
        self.start <= off < self.end
    }
}

/// Worker count the plan actually uses: at least one, and exactly one for
/// files below [`SMALL_FILE_THRESHOLD`].
pub open spec fn spec_effective_workers(size: u64, workers: u32) -> u32 {
    if size < SMALL_FILE_THRESHOLD || workers == 0 {
        1u32
    } else {
        workers
    }
}

/// Bytes given to each worker before the final range absorbs the remainder
/// of the integer division.
pub open spec fn spec_slice_len(size: u64, w: u32) -> int {
    size as int / w as int
}

/// Range of worker `i` out of `w`: `[i * slice, (i + 1) * slice)`, except that
/// the final range runs to `size`.
pub open spec fn spec_planned_range(size: u64, w: u32, i: int) -> ByteRange {
    let slice = spec_slice_len(size, w);
    ByteRange {
        start: (i * slice) as u64,
        end: if i == w as int - 1 {
            size
        } else {
            ((i + 1) * slice) as u64
        },
    }
}

/// The whole plan for a file of `size` bytes and a requested worker count.
pub open spec fn spec_plan(size: u64, workers: u32) -> Seq<ByteRange> {
    Seq::new(
        spec_effective_workers(size, workers) as nat,
        |i: int| spec_planned_range(size, spec_effective_workers(size, workers), i),
    )
}

/// Ranges appear in order and never overlap.
pub open spec fn ranges_disjoint(p: Seq<ByteRange>) -> bool {
    forall|i: int, j: int|
        0 <= i < j < p.len() ==> (#[trigger] p[i]).end <= (#[trigger] p[j]).start
}

/// Some range of `p` holds byte offset `off`.
pub open spec fn offset_covered(p: Seq<ByteRange>, off: int) -> bool {
    exists|i: int| 0 <= i < p.len() && (#[trigger] p[i]).holds_offset(off)
}

/// The ranges lie inside `[0, size)` and every offset below `size` falls in
/// one of them: their union is exactly `[0, size)`.
pub open spec fn ranges_cover(p: Seq<ByteRange>, size: u64) -> bool {
    &&& forall|i: int| 0 <= i < p.len() ==> (#[trigger] p[i]).wf() && p[i].end <= size
    &&& forall|off: int| 0 <= off < size ==> #[trigger] offset_covered(p, off)
}

/// `i` slices of `size / w` bytes never reach past `size` itself.
proof fn lemma_scaled_slice_bounds(size: u64, w: u32, i: int)
    requires
        1 <= w,
        0 <= i <= w,
    ensures
        0 <= i * spec_slice_len(size, w) <= size,
{
    let s = size as int;
    let wi = w as int;
    let slice = spec_slice_len(size, w);
    lemma_fundamental_div_mod(s, wi);
    lemma_mod_division_less_than_divisor(s, wi);
    lemma_div_pos_is_pos(s, wi);
    assert(wi * slice <= s);
    lemma_mul_nonnegative(i, slice);
    lemma_mul_inequality(i, wi, slice);
    assert(i * slice <= wi * slice);
}

/// Worker count the copy will actually use (see [`spec_effective_workers`]).
pub fn effective_workers(size: u64, workers: u32) -> (w: u32)
    ensures
        w == spec_effective_workers(size, workers),
        1 <= w,
{
    if size < SMALL_FILE_THRESHOLD || workers == 0 {
        1
    } else {
        workers
    }
}

/// Split `[0, size)` into one range per worker: all but the last are
/// `size / workers` bytes long, and the last runs to `size`, absorbing the
/// remainder of the division.  Deterministic; a zero `size` yields ranges
/// that are all empty.
pub fn plan_ranges(size: u64, workers: u32) -> (ranges: Vec<ByteRange>)
    ensures
        ranges@ == spec_plan(size, workers),
{
    let w: u32 = effective_workers(size, workers);
    let slice: u64 = size / (w as u64);
    let mut ranges: Vec<ByteRange> = Vec::new();
    let mut start: u64 = 0;
    let mut i: u32 = 0;
    while i < w
        invariant
            1 <= w,
            i <= w,
            w == spec_effective_workers(size, workers),
            slice as int == spec_slice_len(size, w),
            ranges@.len() == i as nat,
            start as int == i as int * slice as int,
            start <= size,
            forall|k: int| 0 <= k < i as int ==> ranges@[k] == spec_planned_range(size, w, k),
        decreases w - i,
    {
        proof {
            lemma_scaled_slice_bounds(size, w, i as int);
            lemma_scaled_slice_bounds(size, w, i as int + 1);
            assert((i as int + 1) * slice as int == i as int * slice as int + slice as int)
                by (nonlinear_arith);
        }
        let end: u64 = if i == w - 1 {
            size
        } else {
            start + slice
        };
        ranges.push(ByteRange { start, end });
        start = start + slice;
        i = i + 1;
    }
    proof {
        assert(ranges@ =~= spec_plan(size, workers));
    }
    ranges
}

/// The planner partitions the file: its ranges are well formed, ordered,
/// pairwise disjoint, contiguous, and their union is exactly `[0, size)`,
/// each offset below `size` lying in exactly one range.
pub proof fn lemma_plan_partitions(size: u64, workers: u32)
    ensures
        spec_plan(size, workers).len() == spec_effective_workers(size, workers),
        spec_plan(size, workers).first().start == 0,
        spec_plan(size, workers).last().end == size,
        forall|i: int|
            0 <= i < spec_plan(size, workers).len() - 1
                ==> (#[trigger] spec_plan(size, workers)[i]).end
                    == spec_plan(size, workers)[i + 1].start,
        ranges_disjoint(spec_plan(size, workers)),
        ranges_cover(spec_plan(size, workers), size),
        forall|i: int, j: int, off: int|
            0 <= i < spec_plan(size, workers).len() && 0 <= j < spec_plan(size, workers).len()
                && #[trigger] spec_plan(size, workers)[i].holds_offset(off)
                && #[trigger] spec_plan(size, workers)[j].holds_offset(off) ==> i == j,
{
    let w = spec_effective_workers(size, workers);
    let wi = w as int;
    let slice = spec_slice_len(size, w);
    let p = spec_plan(size, workers);
    lemma_fundamental_div_mod(size as int, wi);
    lemma_mod_division_less_than_divisor(size as int, wi);
    lemma_div_pos_is_pos(size as int, wi);

    assert forall|i: int| 0 <= i < p.len() implies (#[trigger] p[i]).wf() && p[i].end <= size by {
        lemma_scaled_slice_bounds(size, w, i);
        lemma_scaled_slice_bounds(size, w, i + 1);
        assert(i * slice <= (i + 1) * slice) by (nonlinear_arith)
            requires 0 <= slice;
    }

    assert forall|i: int| 0 <= i < p.len() - 1 implies (#[trigger] p[i]).end == p[i + 1].start by {
        lemma_scaled_slice_bounds(size, w, i + 1);
    }

    assert forall|i: int, j: int| 0 <= i < j < p.len() implies (#[trigger] p[i]).end
        <= (#[trigger] p[j]).start by {
        lemma_scaled_slice_bounds(size, w, i + 1);
        lemma_scaled_slice_bounds(size, w, j);
        lemma_mul_inequality(i + 1, j, slice);
    }

    assert forall|off: int| 0 <= off < size implies #[trigger] offset_covered(p, off) by {
        if slice == 0 {
            lemma_scaled_slice_bounds(size, w, wi - 1);
            assert(p[wi - 1].holds_offset(off));
        } else {
            let q = off / slice;
            lemma_fundamental_div_mod(off, slice);
            lemma_mod_division_less_than_divisor(off, slice);
            lemma_div_pos_is_pos(off, slice);
            if q < wi - 1 {
                lemma_scaled_slice_bounds(size, w, q);
                lemma_scaled_slice_bounds(size, w, q + 1);
                assert(q * slice <= off < (q + 1) * slice) by (nonlinear_arith)
                    requires off == slice * q + off % slice, 0 <= off % slice < slice;
                assert(p[q].holds_offset(off));
            } else {
                lemma_scaled_slice_bounds(size, w, wi - 1);
                lemma_mul_inequality(wi - 1, q, slice);
                assert(slice * q <= off) by (nonlinear_arith)
                    requires off == slice * q + off % slice, 0 <= off % slice;
                assert((wi - 1) * slice <= q * slice) by (nonlinear_arith)
                    requires wi - 1 <= q, 0 <= slice;
                assert(p[wi - 1].holds_offset(off));
            }
        }
    }

    assert forall|i: int, j: int, off: int|
        0 <= i < p.len() && 0 <= j < p.len() && #[trigger] p[i].holds_offset(off)
            && #[trigger] p[j].holds_offset(off) implies i == j by {
        if i < j {
            lemma_scaled_slice_bounds(size, w, i + 1);
            lemma_scaled_slice_bounds(size, w, j);
            lemma_mul_inequality(i + 1, j, slice);
        }
        if j < i {
            lemma_scaled_slice_bounds(size, w, j + 1);
            lemma_scaled_slice_bounds(size, w, i);
            lemma_mul_inequality(j + 1, i, slice);
        }
    }
}

} // verus!
