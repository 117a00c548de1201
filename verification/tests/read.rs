use par_io::consumer::ConsumerPhase;
use par_io::message::{Buffer, Config, Message};
use par_io::partition::Partition;
use par_io::read::{results_collected, ReadAction, ReadConsumer, ReadError};
use par_io::write::ProducerError;

fn loaded(offset: u64, producer: u64, bytes: &[u8]) -> Message {
    let mut buffer = Buffer::with_reserve(16);
    buffer.set_len(bytes.len());
    buffer.bytes.copy_from_slice(bytes);
    Message::Consume(Config { offset, producer, consumers: 2 }, buffer)
}

#[test]
fn read_consumer_numbers_the_chunk() {
    let mut consumer: ReadConsumer<usize> = ReadConsumer::new(Partition::new(12, 3, 2));
    match consumer.receive(Some(loaded(6, 1, &[6, 7]))) {
        ReadAction::Service { config, buffer, chunk_id, num_chunks } => {
            assert_eq!(chunk_id, 3);
            assert_eq!(num_chunks, 6);
            assert_eq!(config.offset, 6);
            assert_eq!(buffer.bytes, vec![6u8, 7]);
            match consumer.serviced(2, config, buffer) {
                ReadAction::Return { producer, message: Message::Produce(config, _) } => {
                    assert_eq!(producer, 1);
                    assert_eq!(config.producer, 1);
                }
                other => panic!("unexpected {:?}", other),
            }
        }
        other => panic!("unexpected {:?}", other),
    }
    assert_eq!(consumer.results, vec![(3, 2)]);
    assert_eq!(consumer.phase, ConsumerPhase::Waiting);
}

#[test]
fn read_consumer_passes_chunks_to_the_callback() {
    let callback = |bytes: &[u8], data: &u8, chunk_id: u64, num_chunks: u64, offset: u64| -> u64 {
        bytes.iter().map(|byte| *byte as u64).sum::<u64>()
            + 1000 * chunk_id
            + 10_000 * num_chunks
            + 100_000 * offset
            + 1_000_000 * *data as u64
    };
    let mut consumer: ReadConsumer<u64> = ReadConsumer::new(Partition::new(12, 3, 2));
    assert!(matches!(
        consumer.consume(Some(loaded(10, 2, &[1, 2])), &callback, &7u8),
        ReadAction::Return { producer: 2, .. }
    ));
    assert!(matches!(
        consumer.consume(Some(loaded(0, 0, &[5, 5])), &callback, &7u8),
        ReadAction::Return { producer: 0, .. }
    ));
    assert_eq!(consumer.results, vec![(5, 8_065_003), (0, 7_060_010)]);
    assert!(matches!(consumer.consume(Some(Message::End(0, 2)), &callback, &7u8), ReadAction::Receive));
    assert_eq!(consumer.phase, ConsumerPhase::Counting);
    match consumer.consume(Some(Message::End(1, 2)), &callback, &7u8) {
        ReadAction::Exit(Ok(results)) => assert_eq!(results, vec![(5, 8_065_003), (0, 7_060_010)]),
        other => panic!("unexpected {:?}", other),
    }
    assert_eq!(consumer.phase, ConsumerPhase::Done);
}

#[test]
fn read_consumer_stops_on_closed_queue_and_on_error() {
    let mut consumer: ReadConsumer<u8> = ReadConsumer::new(Partition::new(12, 3, 2));
    match consumer.receive(Some(loaded(0, 0, &[1, 2]))) {
        ReadAction::Service { config, buffer, .. } => {
            consumer.serviced(9, config, buffer);
        }
        other => panic!("unexpected {:?}", other),
    }
    match consumer.receive(None) {
        ReadAction::Exit(Ok(results)) => assert_eq!(results, vec![(0, 9)]),
        other => panic!("unexpected {:?}", other),
    }
    let mut failing: ReadConsumer<u8> = ReadConsumer::new(Partition::new(12, 3, 2));
    let error = ProducerError { msg: "broken".to_string(), offset: 4 };
    match failing.receive(Some(Message::Error(error))) {
        ReadAction::Exit(Err(ReadError::Other(message))) => assert_eq!(message, "broken"),
        other => panic!("unexpected {:?}", other),
    }
    assert_eq!(failing.phase, ConsumerPhase::Failed);
}

#[test]
fn collected_values_follow_one_another() {
    let results: Vec<Result<Vec<(u64, char)>, ReadError>> =
        vec![Ok(vec![(3, 'c'), (0, 'a')]), Ok(Vec::new()), Ok(vec![(1, 'b')])];
    assert_eq!(results_collected(results).unwrap(), vec![(3, 'c'), (0, 'a'), (1, 'b')]);
    let none: Vec<Result<Vec<(u64, char)>, ReadError>> = Vec::new();
    assert!(results_collected(none).unwrap().is_empty());
}

#[test]
fn first_read_error_wins() {
    let results: Vec<Result<Vec<(u64, char)>, ReadError>> = vec![
        Ok(vec![(0, 'a')]),
        Err(ReadError::Send("consumer gone".to_string())),
        Err(ReadError::Other("later".to_string())),
        Ok(vec![(1, 'b')]),
    ];
    match results_collected(results) {
        Err(ReadError::Send(message)) => assert_eq!(message, "consumer gone"),
        other => panic!("unexpected {:?}", other),
    }
    let results: Vec<Result<Vec<(u64, char)>, ReadError>> = vec![Err(ReadError::IO(
        std::io::Error::new(std::io::ErrorKind::UnexpectedEof, "short"),
    ))];
    match results_collected(results) {
        Err(ReadError::IO(error)) => assert_eq!(error.kind(), std::io::ErrorKind::UnexpectedEof),
        other => panic!("unexpected {:?}", other),
    }
}

#[test]
fn read_consumer_guard_refuses_chunks_outside_their_range() {
    let consumer: ReadConsumer<u8> = ReadConsumer::new(Partition::new(12, 3, 2));
    assert!(consumer.accepts(&Some(loaded(4, 1, &[1, 2]))));
    assert!(consumer.accepts(&Some(loaded(7, 1, &[1]))));
    assert!(!consumer.accepts(&Some(loaded(8, 1, &[1, 2]))));
    assert!(!consumer.accepts(&Some(loaded(3, 1, &[1, 2]))));
    assert!(!consumer.accepts(&Some(loaded(0, 3, &[1, 2]))));
    assert!(consumer.accepts(&None));
    assert!(!consumer.accepts(&Some(Message::Produce(
        Config { offset: 0, producer: 0, consumers: 2 },
        Buffer::with_reserve(4)
    ))));
}
