use vstd::prelude::*;
use vstd::math::{max, min};
use vstd::arithmetic::div_mod::{lemma_fundamental_div_mod, lemma_mod_division_less_than_divisor};
use vstd::arithmetic::mul::{lemma_mul_inequality, lemma_mul_nonnegative};
use crate::error::VerificationOutcome;
use crate::worker::read_at;

verus! {

/// Chunk length used when streaming the two files after a copy.
pub const VERIFY_CHUNK_SIZE: usize = 10 * 1024 * 1024;

/// The bytes a sequential read of at most `chunk` bytes returns at offset
/// `off` of a file holding `s`: empty once `off` is at or past the end.
pub open spec fn spec_read_chunk(s: Seq<u8>, off: int, chunk: int) -> Seq<u8>
    recommends
        0 <= off,
        1 <= chunk,
{
    if off >= s.len() {
        Seq::empty()
    } else {
        s.subrange(off, min(off + chunk, s.len() as int))
    }
}

/// Outcome of the chunked comparison from offset `off` on, the walk driven
/// by the first file's length: a chunk pair of equal length must match byte
/// for byte, and the first one that does not stops the comparison with its
/// starting offset; a pair of unequal length is skipped (the caller only
/// warns about it).
pub open spec fn spec_verify_from(
    s1: Seq<u8>,
    s2: Seq<u8>,
    chunk: int,
    off: int,
) -> VerificationOutcome
    decreases max(s1.len() - off, 0)
        when 1 <= chunk && 0 <= off
{
    if off >= s1.len() {
        VerificationOutcome::Identical
    } else {
        let c1 = spec_read_chunk(s1, off, chunk);
        let c2 = spec_read_chunk(s2, off, chunk);
        if c1.len() == c2.len() && c1 != c2 {
            VerificationOutcome::Mismatch { offset: off as u64 }
        } else {
            spec_verify_from(s1, s2, chunk, off + chunk)
        }
    }
}

/// The whole post-copy comparison, from the start of both files.
pub open spec fn spec_verify(s1: Seq<u8>, s2: Seq<u8>, chunk: int) -> VerificationOutcome
    recommends
        1 <= chunk,
{
    spec_verify_from(s1, s2, chunk, 0)
}

/// Verdict of one chunk-pair comparison.
#[derive(Clone, Copy, Debug, PartialEq, Eq, Structural)]
pub enum ChunkStep {
    /// Same length, same bytes.
    Matched,
    /// Same length, differing bytes.
    Differs,
    /// The two reads returned different lengths.
    Uneven,
}

/// Compare one pair of chunks the way the verifier does: chunks of equal
/// length byte for byte, a pair of unequal length set aside.
pub fn check_chunk_pair(c1: &Vec<u8>, c2: &Vec<u8>) -> (r: ChunkStep)
    ensures
        c1@.len() != c2@.len() ==> r == ChunkStep::Uneven,
        c1@.len() == c2@.len() && c1@ == c2@ ==> r == ChunkStep::Matched,
        c1@.len() == c2@.len() && c1@ != c2@ ==> r == ChunkStep::Differs,
{
    if c1.len() != c2.len() {
        return ChunkStep::Uneven;
    }
    let mut j: usize = 0;
    while j < c1.len()
        invariant
            c1@.len() == c2@.len(),
            j <= c1@.len(),
            forall|i: int| 0 <= i < j as int ==> c1@[i] == c2@[i],
        decreases c1@.len() - j,
    {
        if c1[j] != c2[j] {
            return ChunkStep::Differs;
        }
        j = j + 1;
    }
    proof {
        assert(c1@ =~= c2@);
    }
    ChunkStep::Matched
}

/// Stream two in-memory images in fixed-size chunks and compare them the way
/// the post-copy verifier streams the two files: the walk is driven by the
/// first image's length, a mismatching equal-length chunk pair stops it with
/// the chunk's starting byte offset, and chunk pairs of unequal length are
/// skipped.
pub fn verify_bytes(f1: &Vec<u8>, f2: &Vec<u8>, chunk: usize) -> (r: VerificationOutcome)
    requires
        1 <= chunk,
    ensures
        r == spec_verify(f1@, f2@, chunk as int),
{
    let len1: usize = f1.len();
    let len2: usize = f2.len();
    let mut off: usize = 0;
    while off < len1
        invariant
            1 <= chunk,
            len1 == f1@.len(),
            len2 == f2@.len(),
            spec_verify(f1@, f2@, chunk as int) == spec_verify_from(
                f1@,
                f2@,
                chunk as int,
                off as int,
            ),
        decreases len1 - off,
    {
        let n1: usize = if len1 - off < chunk {
            len1 - off
        } else {
            chunk
        };
        let c1 = read_at(f1, off as u64, n1);
        let c2 = if off >= len2 {
            Vec::new()
        } else {
            let n2: usize = if len2 - off < chunk {
                len2 - off
            } else {
                chunk
            };
            read_at(f2, off as u64, n2)
        };
        proof {
            assert(c1@ == spec_read_chunk(f1@, off as int, chunk as int));
            assert(c2@ =~= spec_read_chunk(f2@, off as int, chunk as int));
        }
        match check_chunk_pair(&c1, &c2) {
            ChunkStep::Differs => {
                proof {
                    assert(spec_verify_from(f1@, f2@, chunk as int, off as int)
                        == (VerificationOutcome::Mismatch { offset: off as u64 }));
                }
                return VerificationOutcome::Mismatch { offset: off as u64 };
            },
            ChunkStep::Matched => {},
            ChunkStep::Uneven => {},
        }
        let next: usize = if len1 - off <= chunk {
            len1
        } else {
            off + chunk
        };
        proof {
            assert(spec_verify_from(f1@, f2@, chunk as int, off as int) == spec_verify_from(
                f1@,
                f2@,
                chunk as int,
                off as int + chunk as int,
            ));
            if off as int + chunk as int >= f1@.len() {
                assert(spec_verify_from(f1@, f2@, chunk as int, off as int + chunk as int)
                    == VerificationOutcome::Identical);
                assert(spec_verify_from(f1@, f2@, chunk as int, next as int)
                    == VerificationOutcome::Identical);
            }
        }
        off = next;
    }
    VerificationOutcome::Identical
}

/// Comparing contents with themselves succeeds from any starting offset.
proof fn lemma_verify_from_identical(s: Seq<u8>, chunk: int, off: int)
    requires
        1 <= chunk,
        0 <= off,
    ensures
        spec_verify_from(s, s, chunk, off) == VerificationOutcome::Identical,
    decreases max(s.len() - off, 0),
{
    if off < s.len() {
        lemma_verify_from_identical(s, chunk, off + chunk);
    }
}

/// An unmodified copy verifies: the chunked comparison of equal contents
/// yields `Identical`, whatever the chunk size.
pub proof fn lemma_verify_identical(s: Seq<u8>, chunk: int)
    requires
        1 <= chunk,
    ensures
        spec_verify(s, s, chunk) == VerificationOutcome::Identical,
{
    lemma_verify_from_identical(s, chunk, 0);
}

/// From the chunk boundary `m * chunk` on, with the first differing byte at
/// `k` further along, the comparison walks chunk by chunk to the chunk that
/// holds `k` and fails with that chunk's starting offset.
proof fn lemma_verify_from_mismatch(s1: Seq<u8>, s2: Seq<u8>, chunk: int, k: int, m: int)
    requires
        1 <= chunk,
        s1.len() == s2.len(),
        s1.len() <= u64::MAX,
        0 <= k < s1.len(),
        s1[k] != s2[k],
        forall|j: int| 0 <= j < k ==> s1[j] == s2[j],
        0 <= m <= k / chunk,
    ensures
        spec_verify_from(s1, s2, chunk, m * chunk) == (VerificationOutcome::Mismatch {
            offset: ((k / chunk) * chunk) as u64,
        }),
    decreases k / chunk - m,
{
    let q = k / chunk;
    lemma_fundamental_div_mod(k, chunk);
    lemma_mod_division_less_than_divisor(k, chunk);
    assert(q * chunk <= k < (q + 1) * chunk) by (nonlinear_arith)
        requires
            k == chunk * q + k % chunk,
            0 <= k % chunk < chunk,
    ;
    let off = m * chunk;
    lemma_mul_nonnegative(m, chunk);
    lemma_mul_inequality(m, q, chunk);
    let c1 = spec_read_chunk(s1, off, chunk);
    let c2 = spec_read_chunk(s2, off, chunk);
    assert(c1.len() == c2.len());
    if m == q {
        assert(c1[k - off] != c2[k - off]);
        assert(c1 != c2);
        assert(spec_verify_from(s1, s2, chunk, off) == (VerificationOutcome::Mismatch {
            offset: off as u64,
        }));
    } else {
        lemma_mul_inequality(m + 1, q, chunk);
        assert((m + 1) * chunk == m * chunk + chunk) by (nonlinear_arith);
        assert(off + chunk <= k);
        assert(c1 =~= c2);
        lemma_verify_from_mismatch(s1, s2, chunk, k, m + 1);
    }
}

/// On same-length contents that differ, verification fails and reports the
/// starting offset of the chunk that holds the first differing byte `k` —
/// the largest chunk boundary at or below `k`.
pub proof fn lemma_verify_mismatch(s1: Seq<u8>, s2: Seq<u8>, chunk: int, k: int)
    requires
        1 <= chunk,
        s1.len() == s2.len(),
        s1.len() <= u64::MAX,
        0 <= k < s1.len(),
        s1[k] != s2[k],
        forall|j: int| 0 <= j < k ==> s1[j] == s2[j],
    ensures
        spec_verify(s1, s2, chunk) == (VerificationOutcome::Mismatch {
            offset: ((k / chunk) * chunk) as u64,
        }),
{
    lemma_verify_from_mismatch(s1, s2, chunk, k, 0);
}

/// Index of the first position at or after `j` where the two contents
/// differ, or the common length when they never do.
spec fn spec_first_diff_from(s1: Seq<u8>, s2: Seq<u8>, j: int) -> int
    decreases max(s1.len() - j, 0)
        when 0 <= j
{
    if j >= s1.len() {
        s1.len() as int
    } else if s1[j] != s2[j] {
        j
    } else {
        spec_first_diff_from(s1, s2, j + 1)
    }
}

/// What [`spec_first_diff_from`] finds: nothing differs before it, and it is
/// either a differing position or the end.
proof fn lemma_first_diff_from(s1: Seq<u8>, s2: Seq<u8>, j: int)
    requires
        s1.len() == s2.len(),
        0 <= j <= s1.len(),
    ensures
        j <= spec_first_diff_from(s1, s2, j) <= s1.len(),
        forall|i: int| j <= i < spec_first_diff_from(s1, s2, j) ==> s1[i] == s2[i],
        spec_first_diff_from(s1, s2, j) < s1.len() ==> s1[spec_first_diff_from(s1, s2, j)]
            != s2[spec_first_diff_from(s1, s2, j)],
    decreases max(s1.len() - j, 0),
{
    if j < s1.len() && s1[j] == s2[j] {
        lemma_first_diff_from(s1, s2, j + 1);
    }
}

/// Verification on same-length contents never reports a false success:
/// `Identical` means the contents are equal byte for byte.
pub proof fn lemma_verify_exact(s1: Seq<u8>, s2: Seq<u8>, chunk: int)
    requires
        1 <= chunk,
        s1.len() == s2.len(),
        s1.len() <= u64::MAX,
        spec_verify(s1, s2, chunk) == VerificationOutcome::Identical,
    ensures
        s1 == s2,
{
    let f = spec_first_diff_from(s1, s2, 0);
    lemma_first_diff_from(s1, s2, 0);
    if f < s1.len() {
        lemma_verify_mismatch(s1, s2, chunk, f);
        assert(false);
    } else {
        assert(s1 =~= s2);
    }
}

} // verus!
