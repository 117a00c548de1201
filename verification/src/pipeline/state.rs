//! The states of the pipeline and the steps that lead from one to the next.
use crate::consumer::{Consumer, ConsumerAction};
use crate::message::{Buffer, Message};
use crate::partition::{Partition, producer_start};
use crate::producer::{Producer, ProducerAction};
use crate::total::total;
use crate::write::{buffer_room, is_seed, ProducerError, WriteError};
use vstd::prelude::*;

verus! {

/// The bytes that a message carries to a consumer.
pub open spec fn message_bytes(message: Message) -> nat {
    match message {
        Message::Consume(_, buffer) => buffer.bytes@.len(),
        _ => 0,
    }
}

/// Weighs a message by the bytes that it carries to a consumer.
pub open spec fn by_message_bytes() -> spec_fn(Message) -> nat {
    |message: Message| message_bytes(message)
}

/// Weighs a queue by the sum of the weights of its messages.
pub open spec fn by_queue(weight: spec_fn(Message) -> nat) -> spec_fn(Seq<Message>) -> nat {
    |queue: Seq<Message>| total(queue, weight)
}

/// The buffers that a message carries: one or none.
pub open spec fn message_buffers(message: Message) -> nat {
    match message {
        Message::Consume(_, _) => 1,
        Message::Produce(_, _) => 1,
        _ => 0,
    }
}

/// Weighs a message by the buffers that it carries.
pub open spec fn by_message_buffers() -> spec_fn(Message) -> nat {
    |message: Message| message_buffers(message)
}

/// The buffers that a producer's caller holds.
pub open spec fn held_buffers(action: ProducerAction) -> nat {
    match action {
        ProducerAction::Fill { .. } => 1,
        ProducerAction::Forward { message, .. } => message_buffers(message),
        _ => 0,
    }
}

/// Weighs what a producer's caller does next by the buffers it holds.
pub open spec fn by_held_buffers() -> spec_fn(ProducerAction) -> nat {
    |action: ProducerAction| held_buffers(action)
}

/// The buffers that a consumer's caller holds.
pub open spec fn kept_buffers(action: ConsumerAction) -> nat {
    match action {
        ConsumerAction::Service { .. } => 1,
        ConsumerAction::Return { message, .. } => message_buffers(message),
        _ => 0,
    }
}

/// Weighs what a consumer's caller does next by the buffers it holds.
pub open spec fn by_kept_buffers() -> spec_fn(ConsumerAction) -> nat {
    |action: ConsumerAction| kept_buffers(action)
}

/// The bytes that a producer's caller is about to send.
pub open spec fn held_bytes(action: ProducerAction) -> nat {
    match action {
        ProducerAction::Forward { message, .. } => message_bytes(message),
        _ => 0,
    }
}

/// Weighs what a producer's caller does next by the bytes it is about to
/// send.
pub open spec fn by_held_bytes() -> spec_fn(ProducerAction) -> nat {
    |action: ProducerAction| held_bytes(action)
}

/// The bytes of its range that a producer has handed on.
pub open spec fn progress(producer: Producer) -> nat {
    (producer.offset - producer_start(
        producer.partition.n(),
        producer.partition.p(),
        producer.id as nat,
    )) as nat
}

/// Weighs a producer by the bytes it has handed on.
pub open spec fn by_progress() -> spec_fn(Producer) -> nat {
    |producer: Producer| progress(producer)
}

/// Weighs a consumer by the bytes it has counted.
pub open spec fn by_counted() -> spec_fn(Consumer) -> nat {
    |consumer: Consumer| consumer.bytes as nat
}

/// The ends that a message announces: one or none.
pub open spec fn message_ends(message: Message) -> nat {
    match message {
        Message::End(_, _) => 1,
        _ => 0,
    }
}

/// Weighs a message by the ends that it announces.
pub open spec fn by_message_ends() -> spec_fn(Message) -> nat {
    |message: Message| message_ends(message)
}

/// Weighs a flag: one if it is set.
pub open spec fn by_flag() -> spec_fn(bool) -> nat {
    |flag: bool|
        if flag {
            1nat
        } else {
            0nat
        }
}

/// Whether `message` announces the end of producer `i`.
pub open spec fn is_end_of(message: Message, i: int) -> bool {
    message matches Message::End(id, _) && id == i
}

/// Whether `message` carries a filled buffer of producer `i`.
pub open spec fn is_chunk_of(message: Message, i: int) -> bool {
    message matches Message::Consume(config, _) && config.producer == i
}

/// Whether the message at `at` in `queue` is followed by the end of
/// producer `i`.
pub open spec fn end_follows(queue: Seq<Message>, at: int, i: int) -> bool {
    exists|e: int| at < e < queue.len() && is_end_of(#[trigger] queue[e], i)
}

/// Whether `message` carries the byte that belongs at `at` of the file.
pub open spec fn carries(message: Message, at: int) -> bool {
    message matches Message::Consume(config, buffer) && config.offset <= at < config.offset
        + buffer.bytes@.len()
}

/// Whether a producer's caller is about to send the byte that belongs at
/// `at` of the file.
pub open spec fn held_carries(action: ProducerAction, at: int) -> bool {
    action matches ProducerAction::Forward { message, .. } && carries(message, at)
}

/// Whether a consumer's caller is servicing the byte that belongs at `at`
/// of the file.
pub open spec fn kept_carries(action: ConsumerAction, at: int) -> bool {
    action matches ConsumerAction::Service { config, buffer } && config.offset <= at
        < config.offset + buffer.bytes@.len()
}

/// Whether the bytes from `chunk.0` on, `chunk.1` of them, include the byte
/// at `at`.
pub open spec fn covers(chunk: (u64, nat), at: int) -> bool {
    chunk.0 <= at < chunk.0 + chunk.1
}

/// Weighs a chunk, given by its offset and its length, by its length.
pub open spec fn by_length() -> spec_fn((u64, nat)) -> nat {
    |chunk: (u64, nat)| chunk.1
}

/// The bytes that a consumer's caller is servicing.
pub open spec fn kept_bytes(action: ConsumerAction) -> nat {
    match action {
        ConsumerAction::Service { buffer, .. } => buffer.bytes@.len(),
        _ => 0,
    }
}

/// Weighs what a consumer's caller does next by the bytes it is servicing.
pub open spec fn by_kept_bytes() -> spec_fn(ConsumerAction) -> nat {
    |action: ConsumerAction| kept_bytes(action)
}

/// Whether `after` is `before` with messages added at its end, or
/// `before` itself.
pub open spec fn has_grown(before: Seq<Message>, after: Seq<Message>) -> bool {
    &&& before.len() <= after.len()
    &&& forall|b: int| 0 <= b < before.len() ==> after[b] == #[trigger] before[b]
}

/// Whether the bytes of a buffer are those that belong at `offset` of a
/// file that holds `source`.
pub open spec fn is_slice_of(bytes: Seq<u8>, source: Seq<u8>, offset: int) -> bool {
    &&& offset + bytes.len() <= source.len()
    &&& forall|at: int| 0 <= at < bytes.len() ==> bytes[at] == #[trigger] source[offset + at]
}

/// A file after `bytes` were written at `offset`.
pub open spec fn overwritten(file: Seq<u8>, offset: int, bytes: Seq<u8>) -> Seq<u8> {
    Seq::new(
        file.len(),
        |at: int|
            if offset <= at < offset + bytes.len() {
                bytes[at - offset]
            } else {
                file[at]
            },
    )
}

/// A state of the pipeline.
pub struct Pipeline {
    /// How the file is cut.
    pub partition: Partition,
    /// The number of consumers.
    pub num_consumers: usize,
    /// The number of buffers that every producer was seeded with.
    pub num_buffers: nat,
    /// The state of every producer.
    pub producers: Seq<Producer>,
    /// What the caller of every producer does next.
    pub producer_next: Seq<ProducerAction>,
    /// The messages that wait for every producer.
    pub producer_queue: Seq<Seq<Message>>,
    /// The state of every consumer.
    pub consumers: Seq<Consumer>,
    /// What the caller of every consumer does next.
    pub consumer_next: Seq<ConsumerAction>,
    /// The messages that wait for every consumer.
    pub consumer_queue: Seq<Seq<Message>>,
    /// The bytes in filled buffers that could not be sent because their
    /// consumer was gone.
    pub lost: nat,
    /// For every consumer and every producer, whether the producer's end
    /// was sent to the consumer.
    pub closed: Seq<Seq<bool>>,
    /// The errors that producer callbacks have failed with, each with the
    /// offset of the chunk that was to be filled.
    pub failures: Set<ProducerError>,
    /// The bytes that the producer callback writes, by the file offset that
    /// it writes them for.
    pub source: Seq<u8>,
    /// The bytes of the file.
    pub file: Seq<u8>,
    /// The chunks that have been serviced, each by its offset and its
    /// length, in the order in which they were serviced.
    pub serviced: Seq<(u64, nat)>,
}

/// One step of the pipeline: which worker takes it, and what the outside
/// world contributes to it.
#[allow(inconsistent_fields)]
pub enum Step {
    /// A producer takes the message at the head of its queue.
    ProducerTakes { producer: int },
    /// A producer finds its queue empty and closed.
    ProducerCloses { producer: int },
    /// The buffer of a producer has been filled, or could not be: `filled`
    /// is the buffer as the callback left it, with the bytes of the source
    /// if it succeeded.
    ProducerFills { producer: int, outcome: Result<(), String>, filled: Buffer },
    /// A producer's filled buffer is sent to its consumer, or cannot be sent
    /// because the consumer is gone.
    ProducerForwards { producer: int, delivered: bool },
    /// A producer's end is announced: `reached` says which consumers are
    /// still there.
    ProducerAnnounces { producer: int, reached: Seq<bool> },
    /// A producer's error is told: `reached` says which consumers are still
    /// there.
    ProducerReports { producer: int, reached: Seq<bool> },
    /// A consumer takes the message at the head of its queue.
    ConsumerTakes { consumer: int },
    /// A consumer finds its queue empty and closed.
    ConsumerCloses { consumer: int },
    /// The buffer of a consumer has been serviced, or could not be, for a
    /// reason that is no producer's.
    ConsumerServices { consumer: int, outcome: Result<(), WriteError> },
    /// A consumer's buffer returns to its producer, or is dropped because
    /// the producer is gone.
    ConsumerReturns { consumer: int, delivered: bool },
}

/// The queues after `message` was sent to every consumer that `reached`
/// names.
pub open spec fn broadcast(queues: Seq<Seq<Message>>, reached: Seq<bool>, message: Message) -> Seq<
    Seq<Message>,
> {
    Seq::new(
        queues.len(),
        |x: int|
            if reached[x] {
                queues[x].push(message)
            } else {
                queues[x]
            },
    )
}

impl Pipeline {
    /// The number of producers.
    pub open spec fn p(self) -> nat {
        self.partition.p()
    }

    /// The number of consumers.
    pub open spec fn c(self) -> nat {
        self.num_consumers as nat
    }

    /// The room of every buffer of the pool.
    pub open spec fn room(self) -> nat {
        buffer_room(self.partition.n(), self.partition.p(), self.partition.k())
    }

    /// The pipeline before any worker has taken a step: every producer's
    /// queue holds the buffers it was seeded with, and every consumer's queue
    /// is empty.
    pub open spec fn is_initial(self) -> bool {
        &&& self.partition.wf()
        &&& self.partition.total_size <= usize::MAX
        &&& self.num_consumers > 0
        &&& self.producers.len() == self.p()
        &&& self.producer_next.len() == self.p()
        &&& self.producer_queue.len() == self.p()
        &&& self.consumers.len() == self.c()
        &&& self.consumer_next.len() == self.c()
        &&& self.consumer_queue.len() == self.c()
        &&& self.lost == 0
        &&& self.failures == Set::<ProducerError>::empty()
        &&& self.source.len() == self.partition.total_size
        &&& self.file.len() == self.partition.total_size
        &&& self.serviced.len() == 0
        &&& self.closed.len() == self.c()
        &&& forall|x: int, i: int|
            0 <= x < self.c() && 0 <= i < self.p() ==> {
                &&& (#[trigger] self.closed[x]).len() == self.p()
                &&& !#[trigger] self.closed[x][i]
            }
        &&& forall|i: int|
            0 <= i < self.p() ==> {
                &&& #[trigger] self.producers[i] == Producer::initial(self.partition, i as u64)
                &&& self.producer_next[i] == ProducerAction::Receive
                &&& self.producer_queue[i].len() == self.num_buffers
            }
        &&& forall|i: int, b: int|
            0 <= i < self.p() && 0 <= b < self.producer_queue[i].len() ==> is_seed(
                #[trigger] self.producer_queue[i][b],
                self.partition,
                i as nat,
                self.num_consumers,
            )
        &&& forall|x: int|
            0 <= x < self.c() ==> {
                &&& #[trigger] self.consumers[x] == Consumer::initial()
                &&& self.consumer_next[x] == ConsumerAction::Receive
                &&& self.consumer_queue[x].len() == 0
            }
    }

    /// Between `self` and `next`, no worker but producer `i` has changed.
    pub open spec fn producer_moves(self, i: int, next: Pipeline) -> bool {
        &&& 0 <= i < self.producers.len()
        &&& next.partition == self.partition
        &&& next.num_consumers == self.num_consumers
        &&& next.num_buffers == self.num_buffers
        &&& next.source == self.source
        &&& next.file == self.file
        &&& next.serviced == self.serviced
        &&& next.producers == self.producers.update(i, next.producers[i])
        &&& next.producer_next == self.producer_next.update(i, next.producer_next[i])
        &&& next.consumers == self.consumers
        &&& next.consumer_next == self.consumer_next
    }

    /// Between `self` and `next`, no worker but consumer `x` has changed.
    pub open spec fn consumer_moves(self, x: int, next: Pipeline) -> bool {
        &&& 0 <= x < self.consumers.len()
        &&& next.partition == self.partition
        &&& next.num_consumers == self.num_consumers
        &&& next.num_buffers == self.num_buffers
        &&& next.source == self.source
        &&& next.consumers == self.consumers.update(x, next.consumers[x])
        &&& next.consumer_next == self.consumer_next.update(x, next.consumer_next[x])
        &&& next.producers == self.producers
        &&& next.producer_next == self.producer_next
    }

    /// Whether `step` leads from `self` to `next`.
    pub open spec fn steps(self, step: Step, next: Pipeline) -> bool {
        match step {
            Step::ProducerTakes { producer: i } => {
                &&& self.producer_moves(i, next)
                &&& self.producer_next[i] == ProducerAction::Receive
                &&& self.producer_queue[i].len() > 0
                &&& self.producers[i].receives(
                    Some(self.producer_queue[i][0]),
                    next.producers[i],
                    next.producer_next[i],
                )
                &&& next.producer_queue == self.producer_queue.update(
                    i,
                    self.producer_queue[i].drop_first(),
                )
                &&& next.consumer_queue == self.consumer_queue
                &&& next.lost == self.lost
                &&& next.closed == self.closed
                &&& next.failures == self.failures
            },
            Step::ProducerCloses { producer: i } => {
                &&& self.producer_moves(i, next)
                &&& self.producer_next[i] == ProducerAction::Receive
                &&& self.producer_queue[i].len() == 0
                &&& self.producers[i].receives(None, next.producers[i], next.producer_next[i])
                &&& next.producer_queue == self.producer_queue
                &&& next.consumer_queue == self.consumer_queue
                &&& next.lost == self.lost
                &&& next.closed == self.closed
                &&& next.failures == self.failures
            },
            Step::ProducerFills { producer: i, outcome, filled } => {
                &&& self.producer_moves(i, next)
                &&& self.producer_next[i] matches ProducerAction::Fill { config, buffer, .. }
                &&& filled.reserved == buffer.reserved
                &&& outcome is Ok ==> filled.bytes@.len() == buffer.bytes@.len()
                &&& outcome is Ok ==> forall|at: int|
                    0 <= at < filled.bytes@.len() ==> filled.bytes@[at]
                        == #[trigger] self.source[self.producers[i].offset + at]
                &&& self.producers[i].fills(
                    outcome,
                    config,
                    filled,
                    next.producers[i],
                    next.producer_next[i],
                )
                &&& next.producer_queue == self.producer_queue
                &&& next.consumer_queue == self.consumer_queue
                &&& next.lost == self.lost
                &&& next.closed == self.closed
                &&& next.failures == match outcome {
                    Ok(_) => self.failures,
                    Err(msg) => self.failures.insert(
                        ProducerError { msg, offset: self.producers[i].offset },
                    ),
                }
            },
            Step::ProducerForwards { producer: i, delivered } => {
                &&& self.producer_moves(i, next)
                &&& self.producer_next[i] matches ProducerAction::Forward { consumer, message }
                &&& !delivered ==> self.consumer_next[consumer as int] is Exit
                &&& self.producers[i].forwards(delivered, next.producers[i], next.producer_next[i])
                &&& next.producer_queue == self.producer_queue
                &&& next.consumer_queue == if delivered {
                    self.consumer_queue.update(
                        consumer as int,
                        self.consumer_queue[consumer as int].push(message),
                    )
                } else {
                    self.consumer_queue
                }
                &&& next.lost == if delivered {
                    self.lost
                } else {
                    self.lost + message_bytes(message)
                }
                &&& next.closed == self.closed
                &&& next.failures == self.failures
            },
            Step::ProducerAnnounces { producer: i, reached } => {
                &&& self.producer_moves(i, next)
                &&& self.producer_next[i] matches ProducerAction::BroadcastEnd {
                    producer,
                    num_producers,
                }
                &&& reached.len() == self.consumer_queue.len()
                &&& self.producers[i].drains(next.producers[i], next.producer_next[i])
                &&& next.producer_queue == self.producer_queue
                &&& next.consumer_queue == broadcast(
                    self.consumer_queue,
                    reached,
                    Message::End(producer, num_producers),
                )
                &&& next.lost == self.lost
                &&& next.closed == Seq::new(
                    self.closed.len(),
                    |x: int|
                        if reached[x] {
                            self.closed[x].update(i, true)
                        } else {
                            self.closed[x]
                        },
                )
                &&& next.failures == self.failures
            },
            Step::ProducerReports { producer: i, reached } => {
                &&& self.producer_moves(i, next)
                &&& self.producer_next[i] matches ProducerAction::BroadcastError(error)
                &&& reached.len() == self.consumer_queue.len()
                &&& next.producers[i] == self.producers[i]
                &&& next.producer_next[i] == ProducerAction::Exit(Err(error.msg))
                &&& next.producer_queue == self.producer_queue
                &&& next.consumer_queue == broadcast(
                    self.consumer_queue,
                    reached,
                    Message::Error(error),
                )
                &&& next.lost == self.lost
                &&& next.closed == self.closed
                &&& next.failures == self.failures
            },
            Step::ConsumerTakes { consumer: x } => {
                &&& self.consumer_moves(x, next)
                &&& next.file == self.file
                &&& next.serviced == self.serviced
                &&& self.consumer_next[x] == ConsumerAction::Receive
                &&& self.consumer_queue[x].len() > 0
                &&& self.consumers[x].receives(
                    Some(self.consumer_queue[x][0]),
                    next.consumers[x],
                    next.consumer_next[x],
                )
                &&& next.consumer_queue == self.consumer_queue.update(
                    x,
                    self.consumer_queue[x].drop_first(),
                )
                &&& next.producer_queue == self.producer_queue
                &&& next.lost == self.lost
                &&& next.closed == self.closed
                &&& next.failures == self.failures
            },
            Step::ConsumerCloses { consumer: x } => {
                &&& self.consumer_moves(x, next)
                &&& next.file == self.file
                &&& next.serviced == self.serviced
                &&& self.consumer_next[x] == ConsumerAction::Receive
                &&& self.consumer_queue[x].len() == 0
                &&& self.consumers[x].receives(None, next.consumers[x], next.consumer_next[x])
                &&& next.consumer_queue == self.consumer_queue
                &&& next.producer_queue == self.producer_queue
                &&& next.lost == self.lost
                &&& next.closed == self.closed
                &&& next.failures == self.failures
            },
            Step::ConsumerServices { consumer: x, outcome } => {
                &&& self.consumer_moves(x, next)
                &&& self.consumer_next[x] matches ConsumerAction::Service { config, buffer }
                &&& !(outcome matches Err(WriteError::Producer(_)))
                &&& next.file == if outcome is Ok {
                    overwritten(self.file, config.offset as int, buffer.bytes@)
                } else {
                    self.file
                }
                &&& next.serviced == if outcome is Ok {
                    self.serviced.push((config.offset, buffer.bytes@.len()))
                } else {
                    self.serviced
                }
                &&& self.consumers[x].services(
                    outcome,
                    config,
                    buffer,
                    next.consumers[x],
                    next.consumer_next[x],
                )
                &&& next.consumer_queue == self.consumer_queue
                &&& next.producer_queue == self.producer_queue
                &&& next.lost == self.lost
                &&& next.closed == self.closed
                &&& next.failures == self.failures
            },
            Step::ConsumerReturns { consumer: x, delivered } => {
                &&& self.consumer_moves(x, next)
                &&& next.file == self.file
                &&& next.serviced == self.serviced
                &&& self.consumer_next[x] matches ConsumerAction::Return { producer, message }
                &&& !delivered ==> self.producer_next[producer as int] is Exit
                &&& next.consumers[x] == self.consumers[x]
                &&& next.consumer_next[x] == ConsumerAction::Receive
                &&& next.consumer_queue == self.consumer_queue
                &&& next.producer_queue == if delivered {
                    self.producer_queue.update(
                        producer as int,
                        self.producer_queue[producer as int].push(message),
                    )
                } else {
                    self.producer_queue
                }
                &&& next.lost == self.lost
                &&& next.closed == self.closed
                &&& next.failures == self.failures
            },
        }
    }
}

} // verus!
