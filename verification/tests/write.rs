use par_io::consumer::Consumer;
use par_io::message::{Config, Message};
use par_io::partition::Partition;
use par_io::producer::{Producer, ProducerPhase};
use par_io::write::{
    adds_up, build_consumers, build_producers, bytes_consumed, can_launch, launch, to_write_err,
    ProducerError, WriteError,
};

#[test]
fn string_becomes_other_error() {
    match to_write_err("no such file".to_string()) {
        WriteError::Other(message) => assert_eq!(message, "no such file"),
        other => panic!("unexpected {:?}", other),
    }
}

#[test]
fn producers_start_at_their_ranges() {
    let producers: Vec<Producer> = build_producers(3, 10, 2);
    assert_eq!(producers.len(), 3);
    let starts: Vec<(u64, u64, u64)> =
        producers.iter().map(|producer| (producer.id, producer.offset, producer.end_offset)).collect();
    assert_eq!(starts, vec![(0, 0, 4), (1, 4, 8), (2, 8, 10)]);
    for producer in &producers {
        assert_eq!(producer.partition, Partition::new(10, 3, 2));
        assert_eq!(producer.prev_consumer as u64, producer.id);
        assert_eq!(producer.dispatched, 0);
        assert_eq!(producer.phase, ProducerPhase::Idle);
    }
}

#[test]
fn consumers_start_empty() {
    let consumers = build_consumers(4);
    assert_eq!(consumers.len(), 4);
    assert!(consumers.iter().all(|consumer| *consumer == Consumer::new()));
    assert!(build_consumers(0).is_empty());
}

#[test]
fn pool_has_the_smaller_of_buffers_and_chunks_per_producer() {
    let partition = Partition::new(100, 3, 4);
    assert_eq!(launch(&partition, 2, 2).iter().map(|queue| queue.len()).collect::<Vec<usize>>(), vec![2, 2, 2]);
    assert_eq!(launch(&partition, 2, 9).iter().map(|queue| queue.len()).collect::<Vec<usize>>(), vec![4, 4, 4]);
    assert_eq!(launch(&partition, 2, 0).iter().map(|queue| queue.len()).collect::<Vec<usize>>(), vec![0, 0, 0]);
}

#[test]
fn pool_buffers_have_room_for_two_largest_chunks() {
    let partition = Partition::new(100, 3, 4);
    // producer_chunk = 34, task_chunk = 9
    assert_eq!(partition.reserved_size(), 9);
    let queues = launch(&partition, 5, 2);
    let mut total_room: usize = 0;
    for (i, queue) in queues.iter().enumerate() {
        for message in queue {
            match message {
                Message::Produce(config, buffer) => {
                    assert_eq!(
                        *config,
                        Config { offset: 34 * i as u64, producer: i as u64, consumers: 5 }
                    );
                    assert_eq!(buffer.reserved, 18);
                    assert!(buffer.bytes.is_empty());
                    assert!(buffer.bytes.capacity() >= 18);
                    total_room += buffer.reserved;
                }
                other => panic!("unexpected {:?}", other),
            }
        }
    }
    assert_eq!(total_room, 3 * 2 * 2 * 9);
}

#[test]
fn byte_counts_add_up() {
    assert_eq!(bytes_consumed(vec![Ok(3), Ok(0), Ok(39)]).unwrap(), 42);
    assert_eq!(bytes_consumed(Vec::new()).unwrap(), 0);
    assert_eq!(bytes_consumed(vec![Ok(usize::MAX - 1), Ok(1)]).unwrap(), usize::MAX);
}

#[test]
fn first_error_wins() {
    let results = vec![
        Ok(3),
        Err(WriteError::Producer(ProducerError { msg: "first".to_string(), offset: 7 })),
        Ok(usize::MAX),
        Err(WriteError::Other("second".to_string())),
    ];
    match bytes_consumed(results) {
        Err(WriteError::Producer(error)) => {
            assert_eq!(error.msg, "first");
            assert_eq!(error.offset, 7);
        }
        other => panic!("unexpected {:?}", other),
    }
    let results = vec![
        Err(WriteError::IO(std::io::Error::new(std::io::ErrorKind::NotFound, "gone"))),
        Err(WriteError::Other("later".to_string())),
    ];
    match bytes_consumed(results) {
        Err(WriteError::IO(error)) => assert_eq!(error.kind(), std::io::ErrorKind::NotFound),
        other => panic!("unexpected {:?}", other),
    }
}

#[test]
fn launch_guard_tells_when_the_pool_can_be_counted() {
    assert!(can_launch(&Partition::new(100, 3, 4), 2));
    assert!(can_launch(&Partition::new(0, 1, 1), u64::MAX));
    assert!(!can_launch(&Partition::new(u64::MAX, 1, 1), 1));
    assert!(can_launch(&Partition::new(u64::MAX, 2, 2), 1) == (usize::MAX as u64 == u64::MAX));
}

#[test]
fn sum_guard_tells_when_the_counts_add_up() {
    assert!(adds_up(&vec![Ok(1), Ok(2)]));
    assert!(adds_up(&vec![Ok(usize::MAX), Ok(0)]));
    assert!(!adds_up(&vec![Ok(usize::MAX), Ok(1)]));
    assert!(adds_up(&vec![
        Ok(usize::MAX),
        Err(WriteError::Other("stop".to_string())),
        Ok(1)
    ]));
    assert!(adds_up(&Vec::new()));
}
