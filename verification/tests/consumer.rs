use par_io::consumer::{Consumer, ConsumerAction, ConsumerPhase};
use par_io::message::{Buffer, Config, Message};
use par_io::write::{ProducerError, WriteError};

fn filled(offset: u64, producer: u64, len: usize) -> Message {
    let mut buffer = Buffer::with_reserve(16);
    buffer.set_len(len);
    Message::Consume(Config { offset, producer, consumers: 2 }, buffer)
}

#[test]
fn new_consumer_waits() {
    let consumer = Consumer::new();
    assert_eq!(consumer, Consumer { end_count: 0, bytes: 0, phase: ConsumerPhase::Waiting });
}

#[test]
fn consumer_counts_bytes_and_returns_buffers() {
    let mut consumer = Consumer::new();
    let (config, buffer) = match consumer.receive(Some(filled(40, 3, 5))) {
        ConsumerAction::Service { config, buffer } => {
            assert_eq!(config.offset, 40);
            assert_eq!(buffer.bytes.len(), 5);
            (config, buffer)
        }
        other => panic!("unexpected {:?}", other),
    };
    assert_eq!(consumer.bytes, 5);
    assert_eq!(consumer.phase, ConsumerPhase::Servicing);
    match consumer.serviced(Ok(()), config, buffer) {
        ConsumerAction::Return { producer, message: Message::Produce(config, buffer) } => {
            assert_eq!(producer, 3);
            assert_eq!(config, Config { offset: 40, producer: 3, consumers: 2 });
            assert_eq!(buffer.reserved, 16);
        }
        other => panic!("unexpected {:?}", other),
    }
    assert_eq!(consumer.phase, ConsumerPhase::Waiting);
    consumer.receive(Some(filled(45, 3, 7)));
    assert_eq!(consumer.bytes, 12);
}

#[test]
fn consumer_stops_after_the_ends_of_all_producers() {
    let mut consumer = Consumer::new();
    consumer.receive(Some(filled(0, 0, 4)));
    consumer.serviced(Ok(()), Config { offset: 0, producer: 0, consumers: 2 }, Buffer::with_reserve(4));
    assert!(matches!(consumer.receive(Some(Message::End(0, 3))), ConsumerAction::Receive));
    assert_eq!(consumer.phase, ConsumerPhase::Counting);
    assert_eq!(consumer.end_count, 1);
    match consumer.receive(Some(filled(8, 2, 2))) {
        ConsumerAction::Service { config, buffer } => {
            consumer.serviced(Ok(()), config, buffer);
        }
        other => panic!("unexpected {:?}", other),
    }
    assert_eq!(consumer.phase, ConsumerPhase::Counting);
    assert!(matches!(consumer.receive(Some(Message::End(2, 3))), ConsumerAction::Receive));
    match consumer.receive(Some(Message::End(1, 3))) {
        ConsumerAction::Exit(Ok(bytes)) => assert_eq!(bytes, 6),
        other => panic!("unexpected {:?}", other),
    }
    assert_eq!(consumer.end_count, 3);
    assert_eq!(consumer.phase, ConsumerPhase::Done);
}

#[test]
fn single_producer_end_stops_the_consumer() {
    let mut consumer = Consumer::new();
    assert!(matches!(consumer.receive(Some(Message::End(0, 1))), ConsumerAction::Exit(Ok(0))));
    assert_eq!(consumer.phase, ConsumerPhase::Done);
}

#[test]
fn producer_error_stops_the_consumer() {
    let mut consumer = Consumer::new();
    consumer.receive(Some(filled(0, 0, 4)));
    consumer.serviced(Ok(()), Config { offset: 0, producer: 0, consumers: 2 }, Buffer::with_reserve(4));
    let error = ProducerError { msg: "boom".to_string(), offset: 16 };
    match consumer.receive(Some(Message::Error(error))) {
        ConsumerAction::Exit(Err(WriteError::Producer(error))) => {
            assert_eq!(error.msg, "boom");
            assert_eq!(error.offset, 16);
        }
        other => panic!("unexpected {:?}", other),
    }
    assert_eq!(consumer.phase, ConsumerPhase::Failed);
    assert_eq!(consumer.bytes, 4);
}

#[test]
fn closed_queue_stops_the_consumer_with_its_count() {
    let mut consumer = Consumer::new();
    consumer.receive(Some(filled(0, 0, 9)));
    consumer.serviced(Ok(()), Config { offset: 0, producer: 0, consumers: 2 }, Buffer::with_reserve(4));
    assert!(matches!(consumer.receive(None), ConsumerAction::Exit(Ok(9))));
    assert_eq!(consumer.phase, ConsumerPhase::Done);
}

#[test]
fn failed_service_stops_the_consumer_with_the_error() {
    let mut consumer = Consumer::new();
    let (config, buffer) = match consumer.receive(Some(filled(0, 0, 9))) {
        ConsumerAction::Service { config, buffer } => (config, buffer),
        other => panic!("unexpected {:?}", other),
    };
    let error = std::io::Error::new(std::io::ErrorKind::PermissionDenied, "read only");
    match consumer.serviced(Err(WriteError::IO(error)), config, buffer) {
        ConsumerAction::Exit(Err(WriteError::IO(error))) => {
            assert_eq!(error.kind(), std::io::ErrorKind::PermissionDenied)
        }
        other => panic!("unexpected {:?}", other),
    }
    assert_eq!(consumer.phase, ConsumerPhase::Failed);
}

#[test]
fn consumer_guard_refuses_what_cannot_be_taken() {
    let mut consumer = Consumer::new();
    assert!(consumer.accepts(&None));
    assert!(consumer.accepts(&Some(filled(0, 0, 4))));
    assert!(consumer.accepts(&Some(Message::End(0, 2))));
    assert!(!consumer.accepts(&Some(Message::Produce(
        Config { offset: 0, producer: 0, consumers: 2 },
        Buffer::with_reserve(4)
    ))));
    consumer.bytes = usize::MAX - 3;
    assert!(!consumer.accepts(&Some(filled(0, 0, 4))));
    assert!(consumer.accepts(&Some(filled(0, 0, 3))));
    consumer.end_count = u64::MAX;
    consumer.phase = ConsumerPhase::Counting;
    assert!(!consumer.accepts(&Some(Message::End(0, 2))));
    consumer.phase = ConsumerPhase::Servicing;
    assert!(!consumer.accepts(&None));
}
