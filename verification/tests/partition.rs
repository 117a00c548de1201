use par_io::partition::{div_round_up, Partition};

/// All chunks of a partition, producer by producer.
fn chunks(part: &Partition) -> Vec<(u64, u64)> {
    let mut all: Vec<(u64, u64)> = Vec::new();
    for i in 0..part.num_producers {
        for j in 0..part.chunks_per_producer {
            all.push(part.chunk(i, j));
        }
    }
    all
}

#[test]
fn rounds_up() {
    assert_eq!(div_round_up(0, 3), 0);
    assert_eq!(div_round_up(1, 3), 1);
    assert_eq!(div_round_up(3, 3), 1);
    assert_eq!(div_round_up(4, 3), 2);
    assert_eq!(div_round_up(12, 3), 4);
    assert_eq!(div_round_up(10, 3), 4);
    assert_eq!(div_round_up(u64::MAX, 1), u64::MAX);
    assert_eq!(div_round_up(u64::MAX, 2), 1 << 63);
    assert_eq!(div_round_up(u64::MAX, u64::MAX), 1);
}

#[test]
fn small_balanced_partition() {
    let part = Partition::new(12, 3, 2);
    assert_eq!(part.producer_chunk_size, 4);
    assert_eq!(part.last_producer_chunk_size, 4);
    assert_eq!(part.task_chunk_size, 2);
    assert_eq!(part.last_task_chunk_size, 2);
    assert_eq!(part.last_prod_task_chunk_size, 2);
    assert_eq!(part.last_last_prod_task_chunk_size, 2);
    assert_eq!(part.producer_range(0), (0, 4));
    assert_eq!(part.producer_range(1), (4, 8));
    assert_eq!(part.producer_range(2), (8, 12));
    assert_eq!(chunks(&part), vec![(0, 2), (2, 2), (4, 2), (6, 2), (8, 2), (10, 2)]);
}

#[test]
fn remainder_goes_to_last_producer() {
    let part = Partition::new(10, 3, 2);
    assert_eq!(part.producer_chunk_size, 4);
    assert_eq!(part.last_producer_chunk_size, 2);
    assert_eq!(part.task_chunk_size, 2);
    assert_eq!(part.last_prod_task_chunk_size, 1);
    assert_eq!(part.last_last_prod_task_chunk_size, 1);
    assert_eq!(part.task_chunk(0), 2);
    assert_eq!(part.task_chunk(2), 1);
    assert_eq!(chunks(&part), vec![(0, 2), (2, 2), (4, 2), (6, 2), (8, 1), (9, 1)]);
}

#[test]
fn single_chunk_partition() {
    let part = Partition::new(1000, 1, 1);
    assert_eq!(chunks(&part), vec![(0, 1000)]);
    assert_eq!(part.reserved_size(), 1000);
}

#[test]
fn empty_file_has_only_empty_chunks() {
    let part = Partition::new(0, 3, 2);
    assert_eq!(part.producer_chunk_size, 0);
    assert_eq!(part.reserved_size(), 0);
    assert!(chunks(&part).iter().all(|chunk| *chunk == (0, 0)));
}

#[test]
fn last_task_absorbs_the_remainder() {
    let part = Partition::new(7, 1, 3);
    assert_eq!(part.task_chunk_size, 3);
    assert_eq!(part.last_task_chunk_size, 1);
    assert_eq!(chunks(&part), vec![(0, 3), (3, 3), (6, 1)]);
}

#[test]
fn late_tasks_are_empty_when_chunks_outnumber_bytes() {
    let part = Partition::new(5, 1, 4);
    assert_eq!(part.task_chunk_size, 2);
    assert_eq!(part.last_task_chunk_size, 0);
    assert_eq!(chunks(&part), vec![(0, 2), (2, 2), (4, 1), (5, 0)]);
}

#[test]
fn late_producers_are_empty_when_producers_outnumber_bytes() {
    let part = Partition::new(2, 4, 1);
    assert_eq!(part.producer_chunk_size, 1);
    assert_eq!(part.last_producer_chunk_size, 0);
    assert_eq!(chunks(&part), vec![(0, 1), (1, 1), (2, 0), (2, 0)]);
}

#[test]
fn last_share_is_zero_when_earlier_producers_take_all() {
    let part = Partition::new(10, 8, 1);
    assert_eq!(part.producer_chunk_size, 2);
    assert_eq!(part.last_producer_chunk_size, 0);
    assert_eq!(part.last_prod_task_chunk_size, 0);
    assert_eq!(part.producer_range(4), (8, 10));
    assert_eq!(part.producer_range(5), (10, 10));
    assert_eq!(part.producer_range(7), (10, 10));
}

#[test]
fn chunks_cover_the_file_exactly_once() {
    for n in 0u64..60 {
        for p in 1u64..7 {
            for k in 1u64..7 {
                let part = Partition::new(n, p, k);
                let mut next: u64 = 0;
                for (offset, len) in chunks(&part) {
                    assert_eq!(offset, next);
                    assert!(len <= part.reserved_size());
                    next = offset + len;
                }
                assert_eq!(next, n);
                if n > 0 {
                    assert_eq!(part.chunk(0, 0).1, part.reserved_size());
                }
            }
        }
    }
}

#[test]
fn reserved_size_is_the_largest_chunk() {
    let part = Partition::new(1_000_000, 4, 32);
    assert_eq!(part.producer_chunk_size, 250_000);
    assert_eq!(part.task_chunk_size, 7813);
    assert_eq!(part.last_task_chunk_size, 250_000 - 31 * 7813);
    assert_eq!(part.reserved_size(), 7813);
    let largest = chunks(&part).iter().map(|chunk| chunk.1).max().unwrap();
    assert_eq!(largest, 7813);
}

#[test]
fn chunks_are_numbered_by_producer_and_task() {
    let part = Partition::new(100, 3, 4);
    for i in 0..3u64 {
        for j in 0..4u64 {
            let (offset, len) = part.chunk(i, j);
            if len > 0 {
                assert_eq!(part.chunk_id_at(i, offset), i * 4 + j);
                assert_eq!(part.chunk_id_at(i, offset + len - 1), i * 4 + j);
            }
        }
    }
    assert_eq!(part.chunk_id_at(2, 99), 11);
    assert_eq!(part.chunk_id_at(0, 0), 0);
}

#[test]
fn huge_numbers_do_not_overflow() {
    let part = Partition::new(u64::MAX, 3 << 62, u64::MAX);
    assert_eq!(part.producer_chunk_size, 2);
    assert_eq!(part.task_chunk_size, 1);
    assert_eq!(part.producer_range(0), (0, 2));
    assert_eq!(part.producer_range((1 << 63) - 1), (u64::MAX - 1, u64::MAX));
    assert_eq!(part.producer_range(1 << 63), (u64::MAX, u64::MAX));
    assert_eq!(part.last_producer_chunk_size, 0);
    assert_eq!(part.chunk(0, 1), (1, 1));
    assert_eq!(part.chunk(0, u64::MAX - 1), (2, 0));
    let whole = Partition::new(u64::MAX, 1, 1);
    assert_eq!(whole.chunk(0, 0), (0, u64::MAX));
}
