use par_io::message::{Buffer, Config, Message};
use par_io::partition::Partition;
use par_io::producer::{select_tx, FnMove, Producer, ProducerAction, ProducerPhase};

fn seed(producer: u64, consumers: usize, room: usize) -> Message {
    Message::Produce(Config { offset: 0, producer, consumers }, Buffer::with_reserve(room))
}

#[test]
fn select_tx_goes_round() {
    assert_eq!(select_tx(0, 0, 3, 1), 1);
    assert_eq!(select_tx(0, 1, 3, 1), 2);
    assert_eq!(select_tx(0, 2, 3, 1), 0);
    assert_eq!(select_tx(7, 7, 3, 9), 2);
    assert_eq!(select_tx(0, 0, 1, 1), 0);
}

#[test]
fn select_tx_wraps_at_the_largest_number() {
    assert_eq!(select_tx(0, usize::MAX, 1, 1), 0);
    assert_eq!(select_tx(0, usize::MAX, 2, 1), 0);
    assert_eq!(select_tx(0, usize::MAX, 7, 1), ((usize::MAX % 7) + 1) % 7);
    assert_eq!(select_tx(0, usize::MAX, usize::MAX, 1), 1);
}

#[test]
fn fn_move_calls_the_callback() {
    let callback = FnMove {
        f: |buffer: &mut Vec<u8>, data: &u8, offset: u64| -> Result<(), String> {
            if offset == 9 {
                return Err("nine".to_string());
            }
            for byte in buffer.iter_mut() {
                *byte = *data;
            }
            Ok(())
        },
    };
    let mut buffer: Vec<u8> = vec![0u8; 3];
    assert_eq!(callback.call(&mut buffer, &5u8, 0), Ok(()));
    assert_eq!(buffer, vec![5u8, 5, 5]);
    assert_eq!(callback.call(&mut buffer, &6u8, 9), Err("nine".to_string()));
    assert_eq!(buffer, vec![5u8, 5, 5]);
}

#[test]
fn new_producer_stands_at_the_start_of_its_range() {
    let producer = Producer::new(Partition::new(10, 3, 2), 2);
    assert_eq!(producer.id, 2);
    assert_eq!(producer.offset, 8);
    assert_eq!(producer.end_offset, 10);
    assert_eq!(producer.prev_consumer, 2);
    assert_eq!(producer.dispatched, 0);
    assert_eq!(producer.phase, ProducerPhase::Idle);
}

#[test]
fn producer_walks_through_its_chunks() {
    let mut producer = Producer::new(Partition::new(10, 3, 2), 1);
    // first chunk
    let (config, buffer) = match producer.receive(Some(seed(1, 2, 4))) {
        ProducerAction::Fill { config, buffer, offset, consumer } => {
            assert_eq!(offset, 4);
            assert_eq!(consumer, 0);
            assert_eq!(buffer.bytes.len(), 2);
            assert_eq!(buffer.reserved, 4);
            (config, buffer)
        }
        other => panic!("unexpected {:?}", other),
    };
    assert_eq!(producer.phase, ProducerPhase::Working);
    match producer.filled(Ok(()), config, buffer) {
        ProducerAction::Forward { consumer, message: Message::Consume(config, buffer) } => {
            assert_eq!(consumer, 0);
            assert_eq!(config, Config { offset: 4, producer: 1, consumers: 2 });
            assert_eq!(buffer.bytes.len(), 2);
        }
        other => panic!("unexpected {:?}", other),
    }
    assert_eq!(producer.phase, ProducerPhase::Forwarding);
    assert_eq!(producer.offset, 6);
    assert_eq!(producer.dispatched, 1);
    assert!(matches!(producer.forwarded(true), ProducerAction::Receive));
    assert_eq!(producer.phase, ProducerPhase::Idle);
    // second and last chunk
    let (config, buffer) = match producer.receive(Some(seed(1, 2, 4))) {
        ProducerAction::Fill { config, buffer, offset, consumer } => {
            assert_eq!(offset, 6);
            assert_eq!(consumer, 1);
            (config, buffer)
        }
        other => panic!("unexpected {:?}", other),
    };
    assert!(matches!(producer.filled(Ok(()), config, buffer), ProducerAction::Forward { .. }));
    assert_eq!(producer.offset, 8);
    match producer.forwarded(true) {
        ProducerAction::BroadcastEnd { producer: id, num_producers } => {
            assert_eq!(id, 1);
            assert_eq!(num_producers, 3);
        }
        other => panic!("unexpected {:?}", other),
    }
    assert_eq!(producer.phase, ProducerPhase::Draining);
    assert!(matches!(producer.drained(), ProducerAction::Exit(Ok(()))));
    assert_eq!(producer.phase, ProducerPhase::Done);
}

#[test]
fn buffer_is_cut_to_the_chunk_and_keeps_its_bytes() {
    let mut producer = Producer::new(Partition::new(3, 1, 1), 0);
    let mut buffer = Buffer::with_reserve(8);
    buffer.set_len(5);
    buffer.bytes.copy_from_slice(&[1, 2, 3, 4, 5]);
    let message = Message::Produce(Config { offset: 0, producer: 0, consumers: 1 }, buffer);
    match producer.receive(Some(message)) {
        ProducerAction::Fill { buffer, .. } => assert_eq!(buffer.bytes, vec![1u8, 2, 3]),
        other => panic!("unexpected {:?}", other),
    }
    let mut grown = Buffer::with_reserve(8);
    grown.set_len(2);
    grown.bytes.copy_from_slice(&[9, 8]);
    grown.set_len(4);
    assert_eq!(grown.bytes, vec![9u8, 8, 0, 0]);
    assert_eq!(grown.len(), 4);
    assert_eq!(grown.reserved, 8);
}

#[test]
fn failed_callback_is_reported_with_the_chunk_offset() {
    let mut producer = Producer::new(Partition::new(12, 3, 2), 2);
    let (config, buffer) = match producer.receive(Some(seed(2, 2, 4))) {
        ProducerAction::Fill { config, buffer, .. } => (config, buffer),
        other => panic!("unexpected {:?}", other),
    };
    match producer.filled(Err("boom".to_string()), config, buffer) {
        ProducerAction::BroadcastError(error) => {
            assert_eq!(error.msg, "boom");
            assert_eq!(error.offset, 8);
        }
        other => panic!("unexpected {:?}", other),
    }
    assert_eq!(producer.phase, ProducerPhase::Failed);
    assert_eq!(producer.offset, 8);
    assert_eq!(producer.dispatched, 0);
}

#[test]
fn lost_consumer_ends_the_producer_with_an_error() {
    let mut producer = Producer::new(Partition::new(12, 3, 2), 0);
    let (config, buffer) = match producer.receive(Some(seed(0, 2, 4))) {
        ProducerAction::Fill { config, buffer, .. } => (config, buffer),
        other => panic!("unexpected {:?}", other),
    };
    producer.filled(Ok(()), config, buffer);
    match producer.forwarded(false) {
        ProducerAction::Exit(Err(message)) => {
            assert_eq!(message, "Cannot send buffer to consumer - sending on a closed channel")
        }
        other => panic!("unexpected {:?}", other),
    }
    assert_eq!(producer.phase, ProducerPhase::Failed);
}

#[test]
fn closed_queue_ends_the_producer() {
    let mut producer = Producer::new(Partition::new(12, 3, 2), 0);
    assert!(matches!(producer.receive(None), ProducerAction::Exit(Ok(()))));
    assert_eq!(producer.phase, ProducerPhase::Done);
    let mut other = Producer::new(Partition::new(12, 3, 2), 0);
    assert!(matches!(other.receive(Some(Message::End(0, 3))), ProducerAction::Exit(Ok(()))));
    assert_eq!(other.phase, ProducerPhase::Done);
}

#[test]
fn producer_without_bytes_announces_its_end_at_once() {
    let mut producer = Producer::new(Partition::new(2, 4, 3), 3);
    assert_eq!(producer.offset, producer.end_offset);
    match producer.receive(Some(seed(3, 2, 4))) {
        ProducerAction::BroadcastEnd { producer: id, num_producers } => {
            assert_eq!(id, 3);
            assert_eq!(num_producers, 4);
        }
        other => panic!("unexpected {:?}", other),
    }
    assert_eq!(producer.phase, ProducerPhase::Draining);
    assert_eq!(producer.dispatched, 0);
}

#[test]
fn aborted_producer_stays_where_it_is() {
    let mut producer = Producer::new(Partition::new(12, 3, 2), 1);
    producer.receive(Some(seed(1, 2, 4)));
    producer.abort();
    assert_eq!(producer.phase, ProducerPhase::Failed);
    assert_eq!(producer.offset, 4);
    assert_eq!(producer.dispatched, 0);
}

#[test]
fn produce_fills_through_the_callback() {
    let callback = FnMove {
        f: |buffer: &mut Vec<u8>, data: &u8, offset: u64| -> Result<(), String> {
            for (position, byte) in buffer.iter_mut().enumerate() {
                *byte = *data + offset as u8 + position as u8;
            }
            Ok(())
        },
    };
    let mut producer = Producer::new(Partition::new(12, 3, 2), 1);
    match producer.produce(Some(seed(1, 5, 4)), &callback, &100u8) {
        ProducerAction::Forward { consumer, message: Message::Consume(config, buffer) } => {
            assert_eq!(consumer, 2);
            assert_eq!(config.offset, 4);
            assert_eq!(config.producer, 1);
            assert_eq!(buffer.bytes, vec![104u8, 105]);
        }
        other => panic!("unexpected {:?}", other),
    }
    assert_eq!(producer.offset, 6);
    let failing = FnMove {
        f: |_buffer: &mut Vec<u8>, _data: &u8, _offset: u64| -> Result<(), String> {
            Err("no data".to_string())
        },
    };
    producer.forwarded(true);
    match producer.produce(Some(seed(1, 5, 4)), &failing, &0u8) {
        ProducerAction::BroadcastError(error) => {
            assert_eq!(error.msg, "no data");
            assert_eq!(error.offset, 6);
        }
        other => panic!("unexpected {:?}", other),
    }
    let mut closed = Producer::new(Partition::new(12, 3, 2), 1);
    assert!(matches!(closed.produce(None, &failing, &0u8), ProducerAction::Exit(Ok(()))));
}

#[test]
fn producer_guard_refuses_small_buffers_and_missing_consumers() {
    let producer = Producer::new(Partition::new(12, 3, 2), 1);
    assert!(producer.accepts(&Some(seed(1, 2, 2))));
    assert!(producer.accepts(&Some(seed(1, 2, 4))));
    assert!(!producer.accepts(&Some(seed(1, 2, 1))));
    assert!(!producer.accepts(&Some(seed(1, 0, 4))));
    assert!(producer.accepts(&None));
    assert!(producer.accepts(&Some(Message::End(0, 3))));
    let mut working = Producer::new(Partition::new(12, 3, 2), 1);
    working.receive(Some(seed(1, 2, 4)));
    assert!(!working.accepts(&Some(seed(1, 2, 4))));
    let empty = Producer::new(Partition::new(2, 4, 3), 3);
    assert!(empty.accepts(&Some(seed(3, 2, 0))));
}
