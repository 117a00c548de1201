//! Whole runs of the pipeline, in memory and on one thread: the workers take
//! turns, queues stand for the channels, and a byte vector stands for the
//! file.
use par_io::consumer::{Consumer, ConsumerAction};
use par_io::io::Transfer;
use par_io::message::Message;
use par_io::partition::Partition;
use par_io::producer::{FnMove, Producer, ProducerAction};
use par_io::read::{results_collected, ReadAction, ReadConsumer, ReadError};
use par_io::write::{
    build_consumers, build_producers, bytes_consumed, launch, to_write_err, WriteError,
};
use std::cell::Cell;
use std::collections::VecDeque;

/// What a run of the write path left behind.
struct WriteRun {
    result: Result<usize, WriteError>,
    file: Vec<u8>,
    written: Vec<(u64, usize)>,
    routes: Vec<(u64, usize)>,
    peak_buffers: usize,
    seeded_buffers: usize,
    migrations: usize,
    producer_results: Vec<Result<(), String>>,
}

fn buffers_in(queues: &Vec<VecDeque<Message>>) -> usize {
    let mut count: usize = 0;
    for queue in queues {
        for message in queue {
            match message {
                Message::Produce(_, _) | Message::Consume(_, _) => count += 1,
                _ => {}
            }
        }
    }
    count
}

/// Runs the write path on a file of `n` bytes. `fail_write_at` makes the
/// write of the chunk at that offset fail.
fn run_write<F>(
    n: usize,
    p: u64,
    c: u64,
    k: u64,
    b: u64,
    callback: F,
    fail_write_at: Option<u64>,
) -> WriteRun
where
    F: Fn(&mut Vec<u8>, &u8, u64) -> Result<(), String>,
{
    let partition = Partition::new(n as u64, p, k);
    let mut producers: Vec<Producer> = build_producers(p, n as u64, k);
    let mut consumers: Vec<Consumer> = build_consumers(c);
    let mut to_producer: Vec<VecDeque<Message>> = launch(&partition, c as usize, b)
        .into_iter()
        .map(VecDeque::from)
        .collect();
    let mut to_consumer: Vec<VecDeque<Message>> = (0..c).map(|_| VecDeque::new()).collect();
    let mut producer_results: Vec<Option<Result<(), String>>> = (0..p).map(|_| None).collect();
    let mut consumer_results: Vec<Option<Result<usize, WriteError>>> =
        (0..c).map(|_| None).collect();
    let callback = FnMove { f: callback };
    let data: u8 = 0;
    let mut run = WriteRun {
        result: Ok(0),
        file: vec![0u8; n],
        written: Vec::new(),
        routes: Vec::new(),
        peak_buffers: 0,
        seeded_buffers: buffers_in(&to_producer),
        migrations: 0,
        producer_results: Vec::new(),
    };
    loop {
        let mut progress = false;
        for i in 0..p as usize {
            if producer_results[i].is_some() {
                continue;
            }
            let message = match to_producer[i].pop_front() {
                Some(message) => message,
                None => continue,
            };
            progress = true;
            let mut action = producers[i].produce(Some(message), &callback, &data);
            loop {
                action = match action {
                    ProducerAction::Forward { consumer, message } => {
                        run.routes.push((i as u64, consumer));
                        let delivered = consumer_results[consumer].is_none();
                        if delivered {
                            to_consumer[consumer].push_back(message);
                        }
                        producers[i].forwarded(delivered)
                    }
                    ProducerAction::BroadcastEnd { producer, num_producers } => {
                        for x in 0..c as usize {
                            if consumer_results[x].is_none() {
                                to_consumer[x].push_back(Message::End(producer, num_producers));
                            }
                        }
                        producers[i].drained()
                    }
                    ProducerAction::BroadcastError(error) => {
                        for x in 0..c as usize {
                            if consumer_results[x].is_none() {
                                to_consumer[x].push_back(Message::Error(error.clone()));
                            }
                        }
                        ProducerAction::Exit(Err(error.msg))
                    }
                    ProducerAction::Exit(result) => {
                        producer_results[i] = Some(result);
                        to_producer[i].clear();
                        break;
                    }
                    ProducerAction::Receive => break,
                    ProducerAction::Fill { .. } => unreachable!(),
                };
            }
        }
        run.peak_buffers = run
            .peak_buffers
            .max(buffers_in(&to_producer) + buffers_in(&to_consumer));
        for x in 0..c as usize {
            if consumer_results[x].is_some() {
                continue;
            }
            let message = match to_consumer[x].pop_front() {
                Some(message) => message,
                None => continue,
            };
            progress = true;
            let mut action = consumers[x].receive(Some(message));
            loop {
                action = match action {
                    ConsumerAction::Service { config, buffer } => {
                        let outcome = if fail_write_at == Some(config.offset) {
                            Err(WriteError::IO(std::io::Error::new(
                                std::io::ErrorKind::Other,
                                "disk full",
                            )))
                        } else {
                            let start = config.offset as usize;
                            run.file[start..start + buffer.bytes.len()]
                                .copy_from_slice(&buffer.bytes);
                            run.written.push((config.offset, buffer.bytes.len()));
                            Ok(())
                        };
                        consumers[x].serviced(outcome, config, buffer)
                    }
                    ConsumerAction::Return { producer, message } => {
                        match &message {
                            Message::Produce(config, _) => {
                                if config.producer != producer {
                                    run.migrations += 1;
                                }
                            }
                            _ => run.migrations += 1,
                        }
                        if producer_results[producer as usize].is_none() {
                            to_producer[producer as usize].push_back(message);
                        }
                        break;
                    }
                    ConsumerAction::Exit(result) => {
                        consumer_results[x] = Some(result);
                        to_consumer[x].clear();
                        break;
                    }
                    ConsumerAction::Receive => break,
                };
            }
        }
        run.peak_buffers = run
            .peak_buffers
            .max(buffers_in(&to_producer) + buffers_in(&to_consumer));
        if !progress {
            break;
        }
    }
    for i in 0..p as usize {
        let result = match producer_results[i].take() {
            Some(result) => result,
            None => match producers[i].produce(None, &callback, &data) {
                ProducerAction::Exit(result) => result,
                _ => unreachable!(),
            },
        };
        run.producer_results.push(result);
    }
    let mut results: Vec<Result<usize, WriteError>> = Vec::new();
    for x in 0..c as usize {
        let result = match consumer_results[x].take() {
            Some(result) => result,
            None => match consumers[x].receive(None) {
                ConsumerAction::Exit(result) => result,
                _ => unreachable!(),
            },
        };
        results.push(result);
    }
    run.result = bytes_consumed(results);
    run
}

/// What a run of the read path left behind.
struct ReadRun {
    result: Result<Vec<(u64, (u64, Vec<u8>))>, ReadError>,
    seen: Vec<(u64, u64, u64, usize)>,
}

/// Runs the read path on `file`: the callback returns the offset and a copy
/// of the bytes it was given.
fn run_read(file: &Vec<u8>, p: u64, c: u64, k: u64, b: u64) -> ReadRun {
    let n = file.len();
    let partition = Partition::new(n as u64, p, k);
    let mut producers: Vec<Producer> = build_producers(p, n as u64, k);
    let mut consumers: Vec<ReadConsumer<(u64, Vec<u8>)>> =
        (0..c).map(|_| ReadConsumer::new(partition)).collect();
    let mut to_producer: Vec<VecDeque<Message>> = launch(&partition, c as usize, b)
        .into_iter()
        .map(VecDeque::from)
        .collect();
    let mut to_consumer: Vec<VecDeque<Message>> = (0..c).map(|_| VecDeque::new()).collect();
    let mut producer_done: Vec<bool> = (0..p).map(|_| false).collect();
    let mut results: Vec<Option<Result<Vec<(u64, (u64, Vec<u8>))>, ReadError>>> =
        (0..c).map(|_| None).collect();
    let seen: std::cell::RefCell<Vec<(u64, u64, u64, usize)>> = std::cell::RefCell::new(Vec::new());
    let callback = |bytes: &[u8], _data: &u8, chunk_id: u64, num_chunks: u64, offset: u64| {
        seen.borrow_mut().push((chunk_id, num_chunks, offset, bytes.len()));
        (offset, bytes.to_vec())
    };
    let data: u8 = 0;
    loop {
        let mut progress = false;
        for i in 0..p as usize {
            if producer_done[i] {
                continue;
            }
            let message = match to_producer[i].pop_front() {
                Some(message) => message,
                None => continue,
            };
            progress = true;
            let mut action = producers[i].receive(Some(message));
            loop {
                action = match action {
                    ProducerAction::Fill { config, mut buffer, offset, consumer: _ } => {
                        let mut transfer = Transfer::new(buffer.bytes.len(), offset);
                        while let Some(request) = transfer.request() {
                            let from = request.offset as usize;
                            // a file that hands out at most three bytes at a time
                            let moved = request.len.min(3);
                            buffer.bytes[request.start..request.start + moved]
                                .copy_from_slice(&file[from..from + moved]);
                            transfer.advance(moved).unwrap();
                        }
                        producers[i].filled(Ok(()), config, buffer)
                    }
                    ProducerAction::Forward { consumer, message } => {
                        to_consumer[consumer].push_back(message);
                        producers[i].forwarded(true)
                    }
                    ProducerAction::BroadcastEnd { producer, num_producers } => {
                        for x in 0..c as usize {
                            to_consumer[x].push_back(Message::End(producer, num_producers));
                        }
                        producers[i].drained()
                    }
                    ProducerAction::Exit(_) => {
                        producer_done[i] = true;
                        break;
                    }
                    ProducerAction::Receive => break,
                    ProducerAction::BroadcastError(_) => unreachable!(),
                };
            }
        }
        for x in 0..c as usize {
            if results[x].is_some() {
                continue;
            }
            let message = match to_consumer[x].pop_front() {
                Some(message) => message,
                None => continue,
            };
            progress = true;
            match consumers[x].consume(Some(message), &callback, &data) {
                ReadAction::Return { producer, message } => {
                    if !producer_done[producer as usize] {
                        to_producer[producer as usize].push_back(message);
                    }
                }
                ReadAction::Exit(result) => results[x] = Some(result),
                ReadAction::Receive => {}
                ReadAction::Service { .. } => unreachable!(),
            }
        }
        if !progress {
            break;
        }
    }
    let mut joined: Vec<Result<Vec<(u64, (u64, Vec<u8>))>, ReadError>> = Vec::new();
    for x in 0..c as usize {
        joined.push(match results[x].take() {
            Some(result) => result,
            None => match consumers[x].consume(None, &callback, &data) {
                ReadAction::Exit(result) => result,
                _ => unreachable!(),
            },
        });
    }
    let result = results_collected(joined);
    ReadRun { result, seen: seen.into_inner() }
}

/// The byte that the pattern holds at `offset`.
fn pattern(offset: u64) -> u8 {
    (offset.wrapping_mul(31).wrapping_add(offset >> 8) % 251) as u8
}

fn fill_pattern(buffer: &mut Vec<u8>, _data: &u8, offset: u64) -> Result<(), String> {
    for (position, byte) in buffer.iter_mut().enumerate() {
        *byte = pattern(offset + position as u64);
    }
    Ok(())
}

fn pattern_file(n: usize) -> Vec<u8> {
    (0..n as u64).map(pattern).collect()
}

/// Puts what a read returned back together.
fn reassemble(n: usize, chunks: &Vec<(u64, (u64, Vec<u8>))>) -> Vec<u8> {
    let mut file: Vec<u8> = vec![0u8; n];
    let mut covered: Vec<u32> = vec![0u32; n];
    for (_, (offset, bytes)) in chunks {
        let start = *offset as usize;
        file[start..start + bytes.len()].copy_from_slice(bytes);
        for count in covered[start..start + bytes.len()].iter_mut() {
            *count += 1;
        }
    }
    assert!(covered.iter().all(|count| *count == 1));
    file
}

fn round_trip(n: usize, p: u64, c: u64, k: u64, b: u64) {
    let written = run_write(n, p, c, k, b, fill_pattern, None);
    assert_eq!(written.result.unwrap(), n);
    assert_eq!(written.file, pattern_file(n));
    assert_eq!(written.migrations, 0);
    assert!(written.peak_buffers <= written.seeded_buffers);
    assert!(written.producer_results.iter().all(|result| result.is_ok()));
    let read = run_read(&written.file, p, c, k, b);
    let chunks = read.result.unwrap();
    assert_eq!(reassemble(n, &chunks), pattern_file(n));
}

#[test]
fn scenario_small_balanced() {
    let fill = |buffer: &mut Vec<u8>, _data: &u8, offset: u64| -> Result<(), String> {
        for (position, byte) in buffer.iter_mut().enumerate() {
            *byte = (offset as usize + position) as u8;
        }
        Ok(())
    };
    let run = run_write(12, 3, 2, 2, 2, fill, None);
    assert_eq!(run.result.unwrap(), 12);
    assert_eq!(run.file, vec![0u8, 1, 2, 3, 4, 5, 6, 7, 8, 9, 10, 11]);
    let mut written = run.written.clone();
    written.sort();
    assert_eq!(written, vec![(0, 2), (2, 2), (4, 2), (6, 2), (8, 2), (10, 2)]);
    let read = run_read(&run.file, 3, 2, 2, 2);
    let chunks = read.result.unwrap();
    assert_eq!(reassemble(12, &chunks), vec![0u8, 1, 2, 3, 4, 5, 6, 7, 8, 9, 10, 11]);
}

#[test]
fn scenario_remainder_on_last_producer() {
    let part = Partition::new(10, 3, 2);
    assert_eq!(part.producer_chunk_size, 4);
    assert_eq!(part.last_producer_chunk_size, 2);
    assert_eq!(part.chunk(2, 0), (8, 1));
    assert_eq!(part.chunk(2, 1), (9, 1));
    round_trip(10, 3, 1, 2, 2);
}

#[test]
fn scenario_single_chunk() {
    let run = run_write(1000, 1, 1, 1, 1, fill_pattern, None);
    assert_eq!(run.result.unwrap(), 1000);
    assert_eq!(run.written, vec![(0, 1000)]);
    assert_eq!(run.seeded_buffers, 1);
    assert_eq!(run.file, pattern_file(1000));
    round_trip(1000, 1, 1, 1, 1);
}

#[test]
fn scenario_callback_error() {
    let calls: Cell<u32> = Cell::new(0);
    let offsets: std::cell::RefCell<Vec<u64>> = std::cell::RefCell::new(Vec::new());
    let fill = |buffer: &mut Vec<u8>, data: &u8, offset: u64| -> Result<(), String> {
        calls.set(calls.get() + 1);
        offsets.borrow_mut().push(offset);
        if calls.get() == 3 {
            Err("boom".to_string())
        } else {
            fill_pattern(buffer, data, offset)
        }
    };
    let run = run_write(120, 3, 2, 4, 2, fill, None);
    let failing_offset = offsets.borrow()[2];
    match run.result {
        Err(WriteError::Producer(error)) => {
            assert_eq!(error.msg, "boom");
            assert_eq!(error.offset, failing_offset);
            // the third call fills the first chunk of the third producer
            assert_eq!(error.offset, Partition::new(120, 3, 4).chunk(2, 0).0);
        }
        other => panic!("expected a producer error, got {:?}", other),
    }
    assert_eq!(run.file.len(), 120);
    assert_eq!(run.producer_results[2], Err("boom".to_string()));
}

#[test]
fn scenario_zero_length() {
    let run = run_write(0, 3, 2, 2, 2, fill_pattern, None);
    assert_eq!(run.result.unwrap(), 0);
    assert!(run.written.is_empty());
    assert!(run.routes.is_empty());
    let read = run_read(&Vec::new(), 3, 2, 2, 2);
    assert!(read.result.unwrap().is_empty());
    assert!(read.seen.is_empty());
}

#[test]
fn scenario_many_tasks_few_buffers() {
    let run = run_write(1_000_000, 4, 4, 32, 2, fill_pattern, None);
    assert_eq!(run.result.unwrap(), 1_000_000);
    assert_eq!(run.seeded_buffers, 8);
    assert!(run.peak_buffers <= 8);
    assert_eq!(run.written.len(), 128);
    assert_eq!(run.file, pattern_file(1_000_000));
    let read = run_read(&run.file, 4, 4, 32, 2);
    assert_eq!(reassemble(1_000_000, &read.result.unwrap()), pattern_file(1_000_000));
}

#[test]
fn write() {
    let mut data: Vec<u8> = Vec::new();
    for value in 0_u32..1111 {
        data.extend_from_slice(&value.to_ne_bytes());
    }
    let len = data.len();
    let source = data.clone();
    let producer = move |buffer: &mut Vec<u8>, _data: &u8, offset: u64| -> Result<(), String> {
        let len = buffer.len();
        let start = offset as usize;
        let end = start + len;
        buffer.copy_from_slice(&source[start..end]);
        Ok(())
    };
    let run = run_write(len, 4, 2, 3, 2, producer, None);
    let bytes_consumed = run.result.unwrap();
    assert_eq!(bytes_consumed, run.file.len());
    assert_eq!(run.file, data);
}

#[test]
fn read() {
    let mut bytes: Vec<u8> = Vec::new();
    for value in 0_u32..1111 {
        bytes.extend_from_slice(&value.to_ne_bytes());
    }
    let run = run_read(&bytes, 4, 2, 3, 2);
    let chunks = run.result.unwrap();
    let mut b: Vec<u8> = vec![0u8; bytes.len()];
    for (_, (offset, x)) in &chunks {
        let start = *offset as usize;
        b[start..start + x.len()].copy_from_slice(x);
    }
    assert_eq!(bytes, b);
}

#[test]
fn round_trip_over_many_shapes() {
    for n in [0usize, 1, 2, 3, 7, 16, 17, 100, 255, 1000, 4097] {
        for p in [1u64, 2, 3, 5, 16] {
            for c in [1u64, 2, 3, 16] {
                for k in [1u64, 2, 3, 7, 16] {
                    for b in [1u64, k] {
                        round_trip(n, p, c, k, b);
                    }
                }
            }
        }
    }
}

#[test]
fn read_covers_file_exactly_once() {
    for (n, p, c, k) in [(12usize, 3u64, 2u64, 2u64), (10, 3, 1, 2), (5, 4, 3, 3), (1001, 7, 3, 5)] {
        let file = pattern_file(n);
        let run = run_read(&file, p, c, k, 2);
        let mut seen = run.seen.clone();
        seen.sort_by_key(|chunk| chunk.2);
        let mut next: u64 = 0;
        for (chunk_id, num_chunks, offset, len) in &seen {
            assert_eq!(*offset, next);
            assert!(*len > 0);
            assert!(*chunk_id < p * k);
            assert_eq!(*num_chunks, p * k);
            next = offset + *len as u64;
        }
        assert_eq!(next, n as u64);
    }
}

#[test]
fn read_numbers_chunks_by_producer_and_task() {
    let file = pattern_file(12);
    let run = run_read(&file, 3, 2, 2, 2);
    let mut seen = run.seen.clone();
    seen.sort();
    assert_eq!(
        seen,
        vec![(0, 6, 0, 2), (1, 6, 2, 2), (2, 6, 4, 2), (3, 6, 6, 2), (4, 6, 8, 2), (5, 6, 10, 2)]
    );
    let chunks = run.result.unwrap();
    let mut ids: Vec<u64> = chunks.iter().map(|(chunk_id, _)| *chunk_id).collect();
    ids.sort();
    assert_eq!(ids, vec![0, 1, 2, 3, 4, 5]);
    for (chunk_id, (offset, bytes)) in &chunks {
        assert_eq!(*offset, chunk_id * 2);
        assert_eq!(bytes.len(), 2);
    }
}

#[test]
fn byte_count_is_file_length() {
    for (n, p, c, k, b) in
        [(12usize, 3u64, 2u64, 2u64, 2u64), (10, 3, 1, 2, 2), (999, 4, 3, 5, 1), (3, 8, 2, 4, 4)]
    {
        let run = run_write(n, p, c, k, b, fill_pattern, None);
        assert_eq!(run.result.unwrap(), n);
        let total: usize = run.written.iter().map(|chunk| chunk.1).sum();
        assert_eq!(total, n);
    }
}

#[test]
fn pool_size_does_not_depend_on_file_length() {
    for n in [0usize, 10, 1000, 100_000] {
        let run = run_write(n, 3, 2, 5, 2, fill_pattern, None);
        assert_eq!(run.seeded_buffers, 6);
        assert!(run.peak_buffers <= 6);
    }
    let run = run_write(1000, 3, 2, 1, 4, fill_pattern, None);
    assert_eq!(run.seeded_buffers, 3);
}

#[test]
fn chunks_go_round_the_consumers() {
    let run = run_write(90, 2, 3, 4, 1, fill_pattern, None);
    let of_first: Vec<usize> =
        run.routes.iter().filter(|route| route.0 == 0).map(|route| route.1).collect();
    let of_second: Vec<usize> =
        run.routes.iter().filter(|route| route.0 == 1).map(|route| route.1).collect();
    assert_eq!(of_first, vec![1, 2, 0, 1]);
    assert_eq!(of_second, vec![2, 0, 1, 2]);
}

#[test]
fn buffers_return_to_their_own_producer() {
    let run = run_write(5000, 5, 3, 7, 3, fill_pattern, None);
    assert_eq!(run.migrations, 0);
    assert_eq!(run.result.unwrap(), 5000);
}

#[test]
fn failed_write_surfaces_io_error() {
    let run = run_write(100, 2, 2, 5, 2, fill_pattern, Some(60));
    match run.result {
        Err(WriteError::IO(error)) => assert_eq!(error.to_string(), "disk full"),
        other => panic!("expected an I/O error, got {:?}", other),
    }
}

#[test]
fn producer_that_loses_its_consumer_reports_it() {
    let run = run_write(100, 1, 1, 10, 2, fill_pattern, Some(20));
    assert!(matches!(run.result, Err(WriteError::IO(_))));
    assert_eq!(
        run.producer_results[0],
        Err("Cannot send buffer to consumer - sending on a closed channel".to_string())
    );
}

#[test]
fn join_failure_becomes_other_error() {
    let results = vec![Ok(5), Err(to_write_err("worker panicked".to_string())), Ok(7)];
    match bytes_consumed(results) {
        Err(WriteError::Other(message)) => assert_eq!(message, "worker panicked"),
        other => panic!("expected another error, got {:?}", other),
    }
}
