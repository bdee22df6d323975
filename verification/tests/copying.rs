use parcopy::error::CopyError;
use parcopy::range::plan_ranges;
use parcopy::worker::{
    collect_outcomes, copy_range, copy_with_plan, read_at, read_len, worker_advance, write_at,
    BUFFER_SIZE,
};

const MIB: usize = 1024 * 1024;

fn pseudo_random_bytes(len: usize, seed: u64) -> Vec<u8> {
    let mut state = seed;
    let mut out = Vec::with_capacity(len);
    for _ in 0..len {
        state = state
            .wrapping_mul(6364136223846793005)
            .wrapping_add(1442695040888963407);
        out.push((state >> 33) as u8);
    }
    out
}

#[test]
fn copy_produces_exact_length() {
    for &size in &[0usize, 1, 1000, MIB, MIB + 1, 2 * MIB + 3] {
        for &workers in &[1u32, 2, 8] {
            let src = pseudo_random_bytes(size, 7);
            let (dst, counter) = copy_with_plan(&src, workers);
            assert_eq!(dst.len(), size);
            assert_eq!(counter as usize, size);
            assert_eq!(dst, src);
        }
    }
}

#[test]
fn all_zero_file_identical_for_one_and_eight_workers() {
    let size = 2 * MIB + 1;
    let src = vec![0u8; size];
    let (one, _) = copy_with_plan(&src, 1);
    let (eight, _) = copy_with_plan(&src, 8);
    assert_eq!(one, eight);
    assert_eq!(one, src);
    assert_eq!(one.len(), size);
}

#[test]
fn random_50_mib_identical_for_one_and_eight_workers() {
    let size = 50 * MIB;
    let src = pseudo_random_bytes(size, 42);
    let (one, counter_one) = copy_with_plan(&src, 1);
    let (eight, counter_eight) = copy_with_plan(&src, 8);
    assert_eq!(one, eight);
    assert_eq!(one, src);
    assert_eq!(eight, src);
    assert_eq!(counter_one as usize, size);
    assert_eq!(counter_eight as usize, size);
}

#[test]
fn zero_length_copy_does_no_work() {
    let src: Vec<u8> = Vec::new();
    let (dst, counter) = copy_with_plan(&src, 8);
    assert!(dst.is_empty());
    // The counter grows with every transferred block, so zero means the
    // workers performed no read or write at all.
    assert_eq!(counter, 0);
    for r in &plan_ranges(0, 8) {
        assert_eq!(r.start, r.end);
    }
}

#[test]
fn copy_range_touches_only_its_range() {
    let src = pseudo_random_bytes(100, 3);
    let mut dst = vec![0u8; 100];
    let mut progress = 5u64;
    let ranges = plan_ranges(100, 1);
    assert_eq!(ranges.len(), 1);
    let mid = parcopy::range::ByteRange { start: 10, end: 60 };
    copy_range(&src, &mut dst, mid, &mut progress);
    assert_eq!(progress, 55);
    for j in 0..100 {
        if (10..60).contains(&j) {
            assert_eq!(dst[j], src[j]);
        } else {
            assert_eq!(dst[j], 0);
        }
    }
}

#[test]
fn read_len_is_bounded_by_buffer_and_range() {
    assert_eq!(read_len(0, 10), 10);
    assert_eq!(read_len(4, 10), 6);
    assert_eq!(read_len(0, (3 * MIB) as u64), BUFFER_SIZE);
    assert_eq!(read_len(0, BUFFER_SIZE as u64), BUFFER_SIZE);
}

#[test]
fn worker_advance_short_read_fails() {
    assert_eq!(worker_advance(3, 10, 0), Err(CopyError::ShortRead));
    assert_eq!(worker_advance(3, 10, 4), Ok(7));
    assert_eq!(worker_advance(3, 10, 7), Ok(10));
}

#[test]
fn positional_read_and_write() {
    let data = vec![10u8, 11, 12, 13, 14, 15];
    assert_eq!(read_at(&data, 2, 3), vec![12u8, 13, 14]);
    assert_eq!(read_at(&data, 0, 0), Vec::<u8>::new());

    let mut out = vec![0u8; 6];
    write_at(&mut out, 1, &vec![9u8, 8]);
    assert_eq!(out, vec![0u8, 9, 8, 0, 0, 0]);
}

#[test]
fn join_barrier_reports_first_error() {
    let outcomes = vec![
        Ok(4u64),
        Err(CopyError::ShortRead),
        Err(CopyError::IOError),
        Ok(2u64),
    ];
    assert_eq!(collect_outcomes(&outcomes), Err(CopyError::ShortRead));
}

#[test]
fn join_barrier_totals_success() {
    let outcomes: Vec<Result<u64, CopyError>> = vec![Ok(4), Ok(0), Ok(38)];
    assert_eq!(collect_outcomes(&outcomes), Ok(42));
    let none: Vec<Result<u64, CopyError>> = Vec::new();
    assert_eq!(collect_outcomes(&none), Ok(0));
}
