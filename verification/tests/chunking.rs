use bounded_tasks::chunking::{chunk_bounds, count_chunks};

#[test]
fn count_chunks_rounds_up() {
    assert_eq!(count_chunks(0, 1), 0);
    assert_eq!(count_chunks(0, 12), 0);
    assert_eq!(count_chunks(1, 12), 1);
    assert_eq!(count_chunks(12, 12), 1);
    assert_eq!(count_chunks(13, 12), 2);
    assert_eq!(count_chunks(17, 12), 2);
    assert_eq!(count_chunks(17, 1), 17);
    assert_eq!(count_chunks(17, 2), 9);
    assert_eq!(count_chunks(17, 8), 3);
    assert_eq!(count_chunks(17, 100), 1);
    assert_eq!(count_chunks(24, 8), 3);
}

#[test]
fn count_chunks_at_the_largest_length() {
    assert_eq!(count_chunks(usize::MAX, 1), usize::MAX);
    assert_eq!(count_chunks(usize::MAX, usize::MAX), 1);
    assert_eq!(count_chunks(usize::MAX, 2), usize::MAX / 2 + 1);
    assert_eq!(count_chunks(usize::MAX - 1, usize::MAX), 1);
}

#[test]
fn chunk_bounds_tile_the_items() {
    assert_eq!(chunk_bounds(17, 8, 0), (0, 8));
    assert_eq!(chunk_bounds(17, 8, 1), (8, 16));
    assert_eq!(chunk_bounds(17, 8, 2), (16, 17));
    assert_eq!(chunk_bounds(16, 8, 1), (8, 16));
}

#[test]
fn chunk_bounds_past_the_last_chunk_are_empty() {
    assert_eq!(chunk_bounds(17, 8, 3), (17, 17));
    assert_eq!(chunk_bounds(16, 8, 2), (16, 16));
    assert_eq!(chunk_bounds(0, 8, 0), (0, 0));
    assert_eq!(chunk_bounds(5, 2, usize::MAX), (5, 5));
    assert_eq!(chunk_bounds(usize::MAX, usize::MAX, 1), (usize::MAX, usize::MAX));
}

#[test]
fn chunk_bounds_cover_every_index_once() {
    for len in 0..40usize {
        for chunk_size in 1..12usize {
            let count = count_chunks(len, chunk_size);
            let mut next = 0usize;
            for k in 0..count {
                let (start, end) = chunk_bounds(len, chunk_size, k);
                assert_eq!(start, next);
                assert!(start < end);
                assert!(end - start <= chunk_size);
                if k + 1 < count {
                    assert_eq!(end - start, chunk_size);
                }
                next = end;
            }
            assert_eq!(next, len);
        }
    }
}
