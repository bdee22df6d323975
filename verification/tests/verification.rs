use parcopy::error::{CopyError, VerificationOutcome};
use parcopy::verify::{check_chunk_pair, verify_bytes, ChunkStep, VERIFY_CHUNK_SIZE};
use parcopy::worker::copy_with_plan;

fn pattern_bytes(len: usize) -> Vec<u8> {
    let mut out = Vec::with_capacity(len);
    for i in 0..len {
        out.push((i % 251) as u8);
    }
    out
}

#[test]
fn unmodified_copy_verifies() {
    let src = pattern_bytes(100_000);
    let (dst, _) = copy_with_plan(&src, 8);
    assert_eq!(
        verify_bytes(&src, &dst, VERIFY_CHUNK_SIZE),
        VerificationOutcome::Identical
    );
    assert_eq!(
        verify_bytes(&src, &dst, 1024),
        VerificationOutcome::Identical
    );
}

#[test]
fn empty_files_verify() {
    let empty: Vec<u8> = Vec::new();
    assert_eq!(
        verify_bytes(&empty, &empty, VERIFY_CHUNK_SIZE),
        VerificationOutcome::Identical
    );
}

#[test]
fn one_byte_corruption_reported_at_exact_offset() {
    let src = pattern_bytes(10_000);
    let (mut dst, _) = copy_with_plan(&src, 4);
    dst[1234] ^= 0x40;
    // Streaming in single-byte chunks pins the failure to the corrupted byte
    // itself.
    assert_eq!(
        verify_bytes(&src, &dst, 1),
        VerificationOutcome::Mismatch { offset: 1234 }
    );
}

#[test]
fn corruption_reported_at_chunk_start() {
    let src = pattern_bytes(10_000);
    let (mut dst, _) = copy_with_plan(&src, 1);
    dst[1234] ^= 0x01;
    // With 100-byte chunks the report names the holding chunk's first byte.
    assert_eq!(
        verify_bytes(&src, &dst, 100),
        VerificationOutcome::Mismatch { offset: 1200 }
    );
    // A corruption sitting exactly on a chunk boundary is reported at its
    // own offset.
    let (mut aligned, _) = copy_with_plan(&src, 1);
    aligned[1300] ^= 0x01;
    assert_eq!(
        verify_bytes(&src, &aligned, 100),
        VerificationOutcome::Mismatch { offset: 1300 }
    );
    // The default chunk is far larger than this file, so the report falls
    // back to the start of the single chunk.
    let (mut big_chunk, _) = copy_with_plan(&src, 1);
    big_chunk[1234] ^= 0x01;
    assert_eq!(
        verify_bytes(&src, &big_chunk, VERIFY_CHUNK_SIZE),
        VerificationOutcome::Mismatch { offset: 0 }
    );
}

#[test]
fn first_of_several_corruptions_wins() {
    let src = pattern_bytes(5_000);
    let mut dst = src.clone();
    dst[900] ^= 0x02;
    dst[4000] ^= 0x02;
    assert_eq!(
        verify_bytes(&src, &dst, 100),
        VerificationOutcome::Mismatch { offset: 900 }
    );
}

#[test]
fn uneven_reads_are_skipped_not_failed() {
    // The second file is shorter; once the chunk pairs stop having equal
    // lengths they are skipped with a warning, so the walk ends with
    // success — the documented design gap.
    let longer = pattern_bytes(10);
    let shorter = pattern_bytes(7);
    assert_eq!(
        verify_bytes(&longer, &shorter, 4),
        VerificationOutcome::Identical
    );
    // But differing bytes inside equal-length chunk pairs still fail.
    let mut other = pattern_bytes(6);
    other[1] ^= 0x10;
    assert_eq!(
        verify_bytes(&pattern_bytes(8), &other, 2),
        VerificationOutcome::Mismatch { offset: 0 }
    );
}

#[test]
fn chunk_pair_verdicts() {
    assert_eq!(
        check_chunk_pair(&vec![1u8, 2, 3], &vec![1u8, 2, 3]),
        ChunkStep::Matched
    );
    assert_eq!(
        check_chunk_pair(&vec![1u8, 2, 3], &vec![1u8, 9, 3]),
        ChunkStep::Differs
    );
    assert_eq!(
        check_chunk_pair(&vec![1u8, 2, 3], &vec![1u8, 2]),
        ChunkStep::Uneven
    );
    let empty: Vec<u8> = Vec::new();
    assert_eq!(check_chunk_pair(&empty, &empty), ChunkStep::Matched);
}

#[test]
fn outcome_maps_to_job_error() {
    assert_eq!(VerificationOutcome::Identical.to_error(), None);
    assert_eq!(
        (VerificationOutcome::Mismatch { offset: 96 }).to_error(),
        Some(CopyError::ContentMismatch { offset: 96 })
    );
}
