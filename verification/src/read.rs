//! The read path: its errors, its consumer, and how the results of the
//! consumers are combined.
//!
//! On the read path the producers load the chunks of the file and the
//! consumers pass each chunk to the consumer callback, together with the
//! number of the chunk, the number of chunks and the file offset. What the
//! callback returns is collected with the number of the chunk.
use crate::consumer::ConsumerPhase;
use crate::message::{Buffer, Config, Message};
use crate::partition::{chunk_id, producer_end, producer_start, task_at, Partition};
use vstd::prelude::*;

verus! {

/// Error type containing errors generated by the workers of the read path
/// and by I/O operations.
#[derive(Debug)]
pub enum ReadError {
    /// Error of the operating system, met by a producer.
    IO(std::io::Error),
    /// A message could not be sent.
    Send(String),
    /// Other errors.
    Other(String),
}

/// What the caller does next for a consumer of the read path.
#[derive(Debug)]
pub enum ReadAction<R> {
    /// Wait for the next message on the consumer's queue and pass it to
    /// `receive`, or `None` once the queue is closed.
    Receive,
    /// Pass the bytes of `buffer` to the callback, with `chunk_id`,
    /// `num_chunks` and `config.offset`, and pass what it returns to
    /// `serviced`.
    Service { config: Config, buffer: Buffer, chunk_id: u64, num_chunks: u64 },
    /// Send `message` to `producer`, whether or not it is still there, and
    /// wait for the next message.
    Return { producer: u64, message: Message },
    /// Stop with this result.
    Exit(Result<Vec<(u64, R)>, ReadError>),
}

/// The state of one consumer of the read path.
#[derive(Debug)]
pub struct ReadConsumer<R> {
    /// How the file is cut.
    pub partition: Partition,
    /// The number of producers that have announced their end.
    pub end_count: u64,
    /// The number of the chunk that is being serviced.
    pub chunk_id: u64,
    /// What the callback returned so far, each with the number of its chunk.
    pub results: Vec<(u64, R)>,
    /// Where the consumer stands.
    pub phase: ConsumerPhase,
}

impl<R> ReadConsumer<R> {
    /// The partition is sound and its chunks can be numbered.
    pub open spec fn wf(&self) -> bool {
        &&& self.partition.wf()
        &&& self.partition.num_producers * self.partition.chunks_per_producer <= u64::MAX
    }

    /// The consumer waits for a message.
    pub open spec fn is_receiving(&self) -> bool {
        self.phase == if self.end_count == 0 {
            ConsumerPhase::Waiting
        } else {
            ConsumerPhase::Counting
        }
    }

    /// Whether a buffer with this configuration holds bytes of the range of
    /// the producer it belongs to.
    pub open spec fn in_range(&self, config: Config) -> bool {
        &&& config.producer < self.partition.num_producers
        &&& producer_start(self.partition.n(), self.partition.p(), config.producer as nat)
            <= config.offset
        &&& config.offset < producer_end(
            self.partition.n(),
            self.partition.p(),
            config.producer as nat,
        )
    }

    /// The number of the chunk that a buffer with this configuration holds.
    pub open spec fn id_of(&self, config: Config) -> u64 {
        chunk_id(
            self.partition.k(),
            config.producer as nat,
            task_at(
                self.partition.n(),
                self.partition.p(),
                self.partition.k(),
                config.producer as nat,
                config.offset as nat,
            ),
        ) as u64
    }

    /// The number of chunks of the file.
    pub open spec fn num_chunks(&self) -> u64 {
        (self.partition.num_producers * self.partition.chunks_per_producer) as u64
    }

    /// A consumer before it has received anything.
    pub fn new(partition: Partition) -> (consumer: ReadConsumer<R>)
        requires
            partition.wf(),
            partition.num_producers * partition.chunks_per_producer <= u64::MAX,
        ensures
            consumer.wf(),
            consumer.partition == partition,
            consumer.end_count == 0,
            consumer.results@ == Seq::<(u64, R)>::empty(),
            consumer.phase == ConsumerPhase::Waiting,
    {
        ReadConsumer {
            partition,
            end_count: 0,
            chunk_id: 0,
            results: Vec::new(),
            phase: ConsumerPhase::Waiting,
        }
    }

    /// What `receive` asks of its caller.
    pub open spec fn may_receive(self, message: Option<Message>) -> bool {
        &&& self.wf()
        &&& self.is_receiving()
        &&& !(message matches Some(Message::Produce(_, _)))
        &&& message matches Some(Message::Consume(config, _)) ==> self.in_range(config)
        &&& message matches Some(Message::End(_, _)) ==> self.end_count < u64::MAX
    }

    /// Whether `receive` may be called with `message`.
    pub fn accepts(&self, message: &Option<Message>) -> (ok: bool)
        requires
            self.wf(),
        ensures
            ok == self.may_receive(*message),
    {
        let waiting = if self.end_count == 0 {
            self.phase == ConsumerPhase::Waiting
        } else {
            self.phase == ConsumerPhase::Counting
        };
        if !waiting {
            return false;
        }
        match message {
            Some(Message::Produce(_, _)) => false,
            Some(Message::Consume(config, _)) => {
                if config.producer >= self.partition.num_producers {
                    return false;
                }
                let (start, end) = self.partition.producer_range(config.producer);
                start <= config.offset && config.offset < end
            },
            Some(Message::End(_, _)) => self.end_count < u64::MAX,
            _ => true,
        }
    }

    /// What `receive` does: from `self` and `message` to `next` and
    /// `action`.
    pub open spec fn receives(
        self,
        message: Option<Message>,
        next: ReadConsumer<R>,
        action: ReadAction<R>,
    ) -> bool {
        &&& next.partition == self.partition
        &&& match message {
            Some(Message::Consume(config, buffer)) => {
                &&& next.phase == ConsumerPhase::Servicing
                &&& next.end_count == self.end_count
                &&& next.results@ == self.results@
                &&& next.chunk_id == self.id_of(config)
                &&& action == (ReadAction::<R>::Service {
                    config,
                    buffer,
                    chunk_id: self.id_of(config),
                    num_chunks: self.num_chunks(),
                })
            },
            Some(Message::End(_, num_producers)) => {
                &&& next.end_count == self.end_count + 1
                &&& next.chunk_id == self.chunk_id
                &&& if self.end_count + 1 >= num_producers {
                    &&& next.phase == ConsumerPhase::Done
                    &&& next.results@ == Seq::<(u64, R)>::empty()
                    &&& action matches ReadAction::Exit(Ok(results))
                    &&& results@ == self.results@
                } else {
                    &&& next.phase == ConsumerPhase::Counting
                    &&& next.results@ == self.results@
                    &&& action == ReadAction::<R>::Receive
                }
            },
            Some(Message::Error(error)) => {
                &&& next.phase == ConsumerPhase::Failed
                &&& next.end_count == self.end_count
                &&& next.chunk_id == self.chunk_id
                &&& next.results@ == self.results@
                &&& action == ReadAction::<R>::Exit(Err(ReadError::Other(error.msg)))
            },
            _ => {
                &&& next.phase == ConsumerPhase::Done
                &&& next.end_count == self.end_count
                &&& next.chunk_id == self.chunk_id
                &&& next.results@ == Seq::<(u64, R)>::empty()
                &&& action matches ReadAction::Exit(Ok(results))
                &&& results@ == self.results@
            },
        }
    }

    /// Takes what arrived on the consumer's queue, `None` standing for a
    /// closed queue.
    ///
    /// A loaded buffer is to be passed to the callback with the number of
    /// its chunk. An announced end is counted, and the consumer is finished
    /// once as many ends have arrived as the announcement says there are
    /// producers. An error ends the consumer with its message. A closed
    /// queue ends it with what it has collected.
    pub fn receive(&mut self, message: Option<Message>) -> (action: ReadAction<R>)
        requires
            old(self).may_receive(message),
        ensures
            old(self).receives(message, *final(self), action),
            final(self).wf(),
            message matches Some(Message::Consume(config, _)) ==> old(self).id_of(config) < old(
                self,
            ).num_chunks(),
    {
        match message {
            Some(Message::Consume(config, buffer)) => {
                let chunk_id: u64 = self.partition.chunk_id_at(config.producer, config.offset);
                let num_chunks: u64 = self.partition.num_producers
                    * self.partition.chunks_per_producer;
                self.chunk_id = chunk_id;
                self.phase = ConsumerPhase::Servicing;
                ReadAction::Service { config, buffer, chunk_id, num_chunks }
            },
            Some(Message::End(_, num_producers)) => {
                self.end_count = self.end_count + 1;
                if self.end_count >= num_producers {
                    self.phase = ConsumerPhase::Done;
                    let mut results: Vec<(u64, R)> = Vec::new();
                    std::mem::swap(&mut results, &mut self.results);
                    ReadAction::Exit(Ok(results))
                } else {
                    self.phase = ConsumerPhase::Counting;
                    ReadAction::Receive
                }
            },
            Some(Message::Error(error)) => {
                self.phase = ConsumerPhase::Failed;
                ReadAction::Exit(Err(ReadError::Other(error.msg)))
            },
            _ => {
                self.phase = ConsumerPhase::Done;
                let mut results: Vec<(u64, R)> = Vec::new();
                std::mem::swap(&mut results, &mut self.results);
                ReadAction::Exit(Ok(results))
            },
        }
    }

    /// What `serviced` does: from `self` and what the callback returned for
    /// `buffer` to `next` and `action`.
    pub open spec fn services(
        self,
        value: R,
        config: Config,
        buffer: Buffer,
        next: ReadConsumer<R>,
        action: ReadAction<R>,
    ) -> bool {
        &&& next.partition == self.partition
        &&& next.end_count == self.end_count
        &&& next.chunk_id == self.chunk_id
        &&& next.is_receiving()
        &&& next.results@ == self.results@.push((self.chunk_id, value))
        &&& action == (ReadAction::<R>::Return {
            producer: config.producer,
            message: Message::Produce(config, buffer),
        })
    }

    /// Takes what the callback returned for the buffer that `receive`
    /// handed out.
    ///
    /// The value is collected with the number of the chunk, and the buffer
    /// returns to the producer it belongs to.
    pub fn serviced(&mut self, value: R, config: Config, buffer: Buffer) -> (action: ReadAction<R>)
        requires
            old(self).wf(),
            old(self).phase == ConsumerPhase::Servicing,
        ensures
            old(self).services(value, config, buffer, *final(self), action),
            final(self).wf(),
    {
        self.results.push((self.chunk_id, value));
        self.phase = if self.end_count == 0 {
            ConsumerPhase::Waiting
        } else {
            ConsumerPhase::Counting
        };
        ReadAction::Return { producer: config.producer, message: Message::Produce(config, buffer) }
    }

    /// Takes what arrived on the consumer's queue and, where it is a loaded
    /// buffer, passes it to the callback: `receive`, the callback, and
    /// `serviced`, in one step.
    ///
    /// The callback has to accept the bytes of the buffer with the number of
    /// its chunk, the number of chunks and its file offset.
    pub fn consume<T, F>(&mut self, message: Option<Message>, callback: &F, data: &T) -> (action:
        ReadAction<R>) where F: Fn(&[u8], &T, u64, u64, u64) -> R
        requires
            old(self).may_receive(message),
            message matches Some(Message::Consume(config, buffer)) ==> forall|bytes: &[u8]|
                bytes@ == buffer.bytes@ ==> call_requires(
                    *callback,
                    (bytes, data, old(self).id_of(config), old(self).num_chunks(), config.offset),
                ),
        ensures
            final(self).wf(),
            match message {
                Some(Message::Consume(config, buffer)) => exists|
                    bytes: &[u8],
                    value: R,
                    servicing: ReadConsumer<R>,
                |
                    {
                        &&& old(self).receives(
                            message,
                            servicing,
                            ReadAction::Service {
                                config,
                                buffer,
                                chunk_id: old(self).id_of(config),
                                num_chunks: old(self).num_chunks(),
                            },
                        )
                        &&& bytes@ == buffer.bytes@
                        &&& call_ensures(
                            *callback,
                            (
                                bytes,
                                data,
                                old(self).id_of(config),
                                old(self).num_chunks(),
                                config.offset,
                            ),
                            value,
                        )
                        &&& servicing.services(value, config, buffer, *final(self), action)
                    },
                _ => old(self).receives(message, *final(self), action),
            },
    {
        match self.receive(message) {
            ReadAction::Service { config, buffer, chunk_id, num_chunks } => {
                let value = callback(
                    buffer.bytes.as_slice(),
                    data,
                    chunk_id,
                    num_chunks,
                    config.offset,
                );
                self.serviced(value, config, buffer)
            },
            action => action,
        }
    }
}

/// What the results of the consumers, taken in order, amount to: the first
/// error among them, or else everything they collected, one consumer after
/// the other.
pub open spec fn collected<R>(results: Seq<Result<Vec<(u64, R)>, ReadError>>) -> Result<
    Seq<(u64, R)>,
    ReadError,
>
    decreases results.len(),
{
    if results.len() == 0 {
        Ok(Seq::empty())
    } else {
        match collected(results.drop_last()) {
            Err(error) => Err(error),
            Ok(values) => match results.last() {
                Ok(more) => Ok(values + more@),
                Err(error) => Err(error),
            },
        }
    }
}

/// Combines the results of the consumers, in the order in which they were
/// joined: the first error wins, and without an error the collected values
/// follow one another.
pub fn results_collected<R>(results: Vec<Result<Vec<(u64, R)>, ReadError>>) -> (all: Result<
    Vec<(u64, R)>,
    ReadError,
>)
    ensures
        match collected(results@) {
            Ok(values) => all matches Ok(v) && v@ == values,
            Err(error) => all == Err::<Vec<(u64, R)>, ReadError>(error),
        },
{
    let mut values: Vec<(u64, R)> = Vec::new();
    for result in iter: results
        invariant
            iter.seq() == results@,
            collected(results@.take(iter.index() as int)) == Ok::<Seq<(u64, R)>, ReadError>(values@),
    {
        proof {
            let i = iter.index() as int;
            assert(results@.take(i + 1).drop_last() == results@.take(i));
            assert(results@.take(i + 1).last() == results@[i]);
        }
        match result {
            Ok(more) => {
                let mut more = more;
                values.append(&mut more);
            },
            Err(error) => {
                proof {
                    lemma_first_error_wins(results@, (iter.index() + 1) as nat);
                }
                return Err(error);
            },
        }
    }
    proof {
        assert(results@.take(results@.len() as int) == results@);
    }
    Ok(values)
}

/// An error in a part of the results is the error of all of them.
proof fn lemma_first_error_wins<R>(results: Seq<Result<Vec<(u64, R)>, ReadError>>, upto: nat)
    requires
        upto <= results.len(),
        collected(results.take(upto as int)) is Err,
    ensures
        collected(results) == collected(results.take(upto as int)),
    decreases results.len(),
{
    if upto < results.len() {
        assert(results.drop_last().take(upto as int) == results.take(upto as int));
        lemma_first_error_wins(results.drop_last(), upto);
    } else {
        assert(results.take(upto as int) == results);
    }
}

} // verus!
