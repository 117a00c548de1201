//! The producer stage: what one producer does with each buffer it is given.
//!
//! A producer owns one range of the file. It waits for a buffer, has it
//! filled with the next chunk of its range, hands it to a consumer chosen in
//! round-robin order, and announces the end of its range to every consumer
//! once the range is exhausted. The functions here decide; the caller
//! receives and sends the messages and fills the buffers.
use crate::message::{resized, Buffer, Config, Message};
use crate::partition::{
    chunk_len, chunk_offset, lemma_chunk_chain, lemma_chunk_nonempty, producer_end, Partition,
};
use crate::write::ProducerError;
use vstd::prelude::*;

verus! {

/// The consumer that follows `previous` in round-robin order.
pub open spec fn next_consumer(previous: nat, num_consumers: nat) -> nat {
    (previous + 1) % num_consumers
}

/// Select target consumer given current producer ID. Round-robin scheme.
pub fn select_tx(
    _i: usize,
    previous_consumer_id: usize,
    num_consumers: usize,
    _num_producers: usize,
) -> (next: usize)
    requires
        num_consumers > 0,
    ensures
        next == next_consumer(previous_consumer_id as nat, num_consumers as nat),
{
    if previous_consumer_id == usize::MAX {
        let r: usize = previous_consumer_id % num_consumers;
        assert((previous_consumer_id + 1) % (num_consumers as int) == (r + 1) % (
        num_consumers as int)) by (nonlinear_arith)
            requires
                r == previous_consumer_id % num_consumers,
                num_consumers > 0,
        ;
        (r + 1) % num_consumers
    } else {
        (previous_consumer_id + 1) % num_consumers
    }
}

/// A producer callback: it fills the buffer it is given, in place, with the
/// bytes that belong at the given file offset, and may fail with a message.
pub struct FnMove<F> {
    /// The callback.
    pub f: F,
}

impl<F> FnMove<F> {
    /// The callback may be called on a buffer that holds `bytes`.
    pub open spec fn accepts<T, E>(&self, bytes: Seq<u8>, t: &T, a: u64) -> bool where
        F: Fn(&mut Vec<u8>, &T, u64) -> Result<(), E>,
     {
        forall|b: &mut Vec<u8>| b@ == bytes ==> call_requires(self.f, (b, t, a))
    }

    /// Calls the callback.
    pub fn call<T, E>(&self, buf: &mut Vec<u8>, t: &T, a: u64) -> (outcome: Result<(), E>) where
        F: Fn(&mut Vec<u8>, &T, u64) -> Result<(), E>,

        requires
            self.accepts(old(buf)@, t, a),
        ensures
            exists|b: &mut Vec<u8>|
                b@ == old(buf)@ && final(b)@ == final(buf)@ && call_ensures(
                    self.f,
                    (b, t, a),
                    outcome,
                ),
    {
        (self.f)(buf, t, a)
    }
}

/// Where a producer stands.
#[derive(Clone, Copy, Debug, PartialEq, Eq, Structural)]
pub enum ProducerPhase {
    /// Waiting for a buffer.
    Idle,
    /// A buffer is being filled.
    Working,
    /// A filled buffer is on its way to a consumer.
    Forwarding,
    /// The range is exhausted; the end is being announced.
    Draining,
    /// Finished without error.
    Done,
    /// Finished with an error.
    Failed,
}

/// What the caller does next for a producer.
#[derive(Debug)]
pub enum ProducerAction {
    /// Wait for the next message on the producer's queue and pass it to
    /// `receive`, or `None` once the queue is closed.
    Receive,
    /// Fill `buffer` with the bytes that belong at `offset` of the file and
    /// pass the outcome to `filled`. The buffer will go to `consumer`.
    Fill { config: Config, buffer: Buffer, offset: u64, consumer: usize },
    /// Send `message` to `consumer` and tell `forwarded` whether it left.
    Forward { consumer: usize, message: Message },
    /// Send `End(producer, num_producers)` to every consumer, whether or not
    /// it is still there, and call `drained`.
    BroadcastEnd { producer: u64, num_producers: u64 },
    /// Send the error to every consumer and stop with it.
    BroadcastError(ProducerError),
    /// Stop with this result.
    Exit(Result<(), String>),
}

/// The state of one producer.
#[derive(Debug)]
pub struct Producer {
    /// How the file is cut.
    pub partition: Partition,
    /// Which producer this is.
    pub id: u64,
    /// The file offset of the next chunk.
    pub offset: u64,
    /// Where the producer's range ends.
    pub end_offset: u64,
    /// The consumer that received the previous chunk.
    pub prev_consumer: usize,
    /// The number of chunks handed on so far.
    pub dispatched: u64,
    /// Where the producer stands.
    pub phase: ProducerPhase,
}

impl Producer {
    /// The length of the chunk that the producer is at.
    pub open spec fn next_len(&self) -> nat {
        chunk_len(
            self.partition.n(),
            self.partition.p(),
            self.partition.k(),
            self.id as nat,
            self.dispatched as nat,
        )
    }

    /// The producer is at the start of a chunk of its own range, and its
    /// phase agrees with how much of the range is left.
    pub open spec fn wf(&self) -> bool {
        &&& self.partition.wf()
        &&& self.id < self.partition.num_producers
        &&& self.dispatched <= self.partition.chunks_per_producer
        &&& self.end_offset == producer_end(
            self.partition.n(),
            self.partition.p(),
            self.id as nat,
        )
        &&& self.offset == chunk_offset(
            self.partition.n(),
            self.partition.p(),
            self.partition.k(),
            self.id as nat,
            self.dispatched as nat,
        )
        &&& match self.phase {
            ProducerPhase::Idle => self.dispatched == 0 || self.offset < self.end_offset,
            ProducerPhase::Working => self.offset < self.end_offset,
            ProducerPhase::Forwarding => self.dispatched > 0,
            ProducerPhase::Draining => self.offset == self.end_offset,
            ProducerPhase::Done => true,
            ProducerPhase::Failed => true,
        }
    }

    /// The state of producer `id` before it has received anything.
    pub open spec fn initial(partition: Partition, id: u64) -> Producer {
        Producer {
            partition,
            id,
            offset: chunk_offset(partition.n(), partition.p(), partition.k(), id as nat, 0) as u64,
            end_offset: producer_end(partition.n(), partition.p(), id as nat) as u64,
            prev_consumer: id as usize,
            dispatched: 0,
            phase: ProducerPhase::Idle,
        }
    }

    /// Producer `id` of a partition, before it has received anything.
    pub fn new(partition: Partition, id: u64) -> (producer: Producer)
        requires
            partition.wf(),
            id < partition.num_producers,
            id <= usize::MAX,
        ensures
            producer == Producer::initial(partition, id),
            producer.wf(),
    {
        proof {
            lemma_chunk_chain(partition.n(), partition.p(), partition.k(), id as nat, 0);
        }
        let (start, end) = partition.producer_range(id);
        Producer {
            partition,
            id,
            offset: start,
            end_offset: end,
            prev_consumer: id as usize,
            dispatched: 0,
            phase: ProducerPhase::Idle,
        }
    }

    /// What `receive` asks of its caller.
    pub open spec fn may_receive(self, message: Option<Message>) -> bool {
        &&& self.wf()
        &&& self.phase == ProducerPhase::Idle
        &&& message matches Some(Message::Produce(config, buffer)) ==> config.consumers > 0
            && self.next_len() <= buffer.reserved
    }

    /// Whether `receive` may be called with `message`.
    pub fn accepts(&self, message: &Option<Message>) -> (ok: bool)
        requires
            self.wf(),
        ensures
            ok == self.may_receive(*message),
    {
        if self.phase != ProducerPhase::Idle {
            return false;
        }
        match message {
            Some(Message::Produce(config, buffer)) => {
                if config.consumers == 0 {
                    return false;
                }
                let (_offset, len) = self.partition.chunk(self.id, self.dispatched);
                len <= buffer.reserved as u64
            },
            _ => true,
        }
    }

    /// What `receive` does: from `self` and `message` to `next` and
    /// `action`.
    pub open spec fn receives(
        self,
        message: Option<Message>,
        next: Producer,
        action: ProducerAction,
    ) -> bool {
        match message {
            Some(Message::Produce(config, buffer)) => if self.offset >= self.end_offset {
                &&& next == (Producer { phase: ProducerPhase::Draining, ..self })
                &&& action == (ProducerAction::BroadcastEnd {
                    producer: self.id,
                    num_producers: self.partition.num_producers,
                })
            } else {
                &&& next == (Producer {
                    phase: ProducerPhase::Working,
                    prev_consumer: next_consumer(
                        self.prev_consumer as nat,
                        config.consumers as nat,
                    ) as usize,
                    ..self
                })
                &&& action matches ProducerAction::Fill { config: c, buffer: b, offset, consumer }
                &&& c == config
                &&& b.reserved == buffer.reserved
                &&& b.bytes@ == resized(buffer.bytes@, self.next_len())
                &&& offset == self.offset
                &&& consumer == next.prev_consumer
            },
            _ => {
                &&& next == (Producer { phase: ProducerPhase::Done, ..self })
                &&& action == ProducerAction::Exit(Ok(()))
            },
        }
    }

    /// Takes what arrived on the producer's queue, `None` standing for a
    /// closed queue.
    ///
    /// A buffer to fill is cut to the length of the next chunk and is to be
    /// filled for the next consumer in round-robin order. If nothing is left
    /// of the range, the buffer is dropped and the end is announced. Anything
    /// else ends the producer without error.
    pub fn receive(&mut self, message: Option<Message>) -> (action: ProducerAction)
        requires
            old(self).may_receive(message),
        ensures
            old(self).receives(message, *final(self), action),
            final(self).wf(),
    {
        match message {
            Some(Message::Produce(config, buffer)) => {
                if self.offset >= self.end_offset {
                    self.phase = ProducerPhase::Draining;
                    ProducerAction::BroadcastEnd {
                        producer: self.id,
                        num_producers: self.partition.num_producers,
                    }
                } else {
                    let mut buffer = buffer;
                    let size: u64 = self.partition.task_chunk(self.id);
                    let rest: u64 = self.end_offset - self.offset;
                    let chunk_size: u64 = if size < rest {
                        size
                    } else {
                        rest
                    };
                    buffer.set_len(chunk_size as usize);
                    let consumer: usize = select_tx(
                        self.id as usize,
                        self.prev_consumer,
                        config.consumers,
                        self.partition.num_producers as usize,
                    );
                    self.prev_consumer = consumer;
                    self.phase = ProducerPhase::Working;
                    ProducerAction::Fill { config, buffer, offset: self.offset, consumer }
                }
            },
            _ => {
                self.phase = ProducerPhase::Done;
                ProducerAction::Exit(Ok(()))
            },
        }
    }

    /// What `filled` asks of its caller: a buffer that was filled still has
    /// the length of its chunk.
    pub open spec fn may_fill(self, outcome: Result<(), String>, buffer: Buffer) -> bool {
        &&& self.wf()
        &&& self.phase == ProducerPhase::Working
        &&& outcome is Ok ==> buffer.bytes@.len() == self.next_len()
    }

    /// What `filled` does: from `self` and the outcome of filling `buffer`
    /// to `next` and `action`.
    pub open spec fn fills(
        self,
        outcome: Result<(), String>,
        config: Config,
        buffer: Buffer,
        next: Producer,
        action: ProducerAction,
    ) -> bool {
        match outcome {
            Ok(_) => {
                &&& next == (Producer {
                    phase: ProducerPhase::Forwarding,
                    offset: (self.offset + self.next_len()) as u64,
                    dispatched: (self.dispatched + 1) as u64,
                    ..self
                })
                &&& action == (ProducerAction::Forward {
                    consumer: self.prev_consumer,
                    message: Message::Consume(Config { offset: self.offset, ..config }, buffer),
                })
            },
            Err(msg) => {
                &&& next == (Producer { phase: ProducerPhase::Failed, ..self })
                &&& action == ProducerAction::BroadcastError(
                    ProducerError { msg, offset: self.offset },
                )
            },
        }
    }

    /// Takes the outcome of filling the buffer that `receive` handed out.
    ///
    /// A filled buffer is stamped with the offset of its chunk and goes to the
    /// consumer chosen for it, and the producer moves on by the length of the
    /// chunk. A failure is to be told to every consumer, with the offset of
    /// the chunk that could not be filled.
    pub fn filled(&mut self, outcome: Result<(), String>, config: Config, buffer: Buffer) -> (action:
        ProducerAction)
        requires
            old(self).may_fill(outcome, buffer),
        ensures
            old(self).fills(outcome, config, buffer, *final(self), action),
            final(self).wf(),
            old(self).offset == chunk_offset(
                old(self).partition.n(),
                old(self).partition.p(),
                old(self).partition.k(),
                old(self).id as nat,
                old(self).dispatched as nat,
            ),
            outcome is Ok ==> old(self).offset < final(self).offset <= old(self).end_offset,
    {
        proof {
            lemma_chunk_chain(
                self.partition.n(),
                self.partition.p(),
                self.partition.k(),
                self.id as nat,
                self.dispatched as nat,
            );
            lemma_chunk_chain(
                self.partition.n(),
                self.partition.p(),
                self.partition.k(),
                self.id as nat,
                self.dispatched as nat + 1,
            );
            lemma_chunk_nonempty(
                self.partition.n(),
                self.partition.p(),
                self.partition.k(),
                self.id as nat,
                self.dispatched as nat,
            );
        }
        match outcome {
            Ok(_) => {
                let mut config = config;
                config.offset = self.offset;
                self.offset = self.offset + buffer.len() as u64;
                self.dispatched = self.dispatched + 1;
                self.phase = ProducerPhase::Forwarding;
                ProducerAction::Forward {
                    consumer: self.prev_consumer,
                    message: Message::Consume(config, buffer),
                }
            },
            Err(msg) => {
                self.phase = ProducerPhase::Failed;
                ProducerAction::BroadcastError(ProducerError { msg, offset: self.offset })
            },
        }
    }

    /// What `forwarded` asks of its caller.
    pub open spec fn may_forward(self) -> bool {
        &&& self.wf()
        &&& self.phase == ProducerPhase::Forwarding
    }

    /// What `forwarded` does: from `self` and whether the buffer left to
    /// `next` and `action`.
    pub open spec fn forwards(self, delivered: bool, next: Producer, action: ProducerAction) -> bool {
        if !delivered {
            &&& next == (Producer { phase: ProducerPhase::Failed, ..self })
            &&& action matches ProducerAction::Exit(Err(msg))
            &&& msg@ == "Cannot send buffer to consumer - sending on a closed channel"@
        } else if self.offset >= self.end_offset {
            &&& next == (Producer { phase: ProducerPhase::Draining, ..self })
            &&& action == (ProducerAction::BroadcastEnd {
                producer: self.id,
                num_producers: self.partition.num_producers,
            })
        } else {
            &&& next == (Producer { phase: ProducerPhase::Idle, ..self })
            &&& action == ProducerAction::Receive
        }
    }

    /// Takes the outcome of sending the buffer that `filled` handed out.
    ///
    /// After a buffer that left, the producer announces the end if its range
    /// is exhausted, and waits for the next buffer otherwise. A buffer that
    /// could not be sent ends the producer with an error.
    pub fn forwarded(&mut self, delivered: bool) -> (action: ProducerAction)
        requires
            old(self).may_forward(),
        ensures
            old(self).forwards(delivered, *final(self), action),
            final(self).wf(),
    {
        proof {
            lemma_chunk_chain(
                self.partition.n(),
                self.partition.p(),
                self.partition.k(),
                self.id as nat,
                self.dispatched as nat,
            );
        }
        if !delivered {
            self.phase = ProducerPhase::Failed;
            ProducerAction::Exit(
                Err("Cannot send buffer to consumer - sending on a closed channel".to_owned()),
            )
        } else if self.offset >= self.end_offset {
            self.phase = ProducerPhase::Draining;
            ProducerAction::BroadcastEnd {
                producer: self.id,
                num_producers: self.partition.num_producers,
            }
        } else {
            self.phase = ProducerPhase::Idle;
            ProducerAction::Receive
        }
    }

    /// Called when the buffer that `receive` handed out could not be loaded
    /// from the file: the producer stops where it is, without a word to the
    /// consumers.
    pub fn abort(&mut self)
        requires
            old(self).wf(),
            old(self).phase == ProducerPhase::Working,
        ensures
            final(self).wf(),
            *final(self) == (Producer { phase: ProducerPhase::Failed, ..*old(self) }),
    {
        self.phase = ProducerPhase::Failed;
    }

    /// What `drained` asks of its caller.
    pub open spec fn may_drain(self) -> bool {
        &&& self.wf()
        &&& self.phase == ProducerPhase::Draining
    }

    /// What `drained` does.
    pub open spec fn drains(self, next: Producer, action: ProducerAction) -> bool {
        &&& next == (Producer { phase: ProducerPhase::Done, ..self })
        &&& action == ProducerAction::Exit(Ok(()))
    }

    /// Called once the end has been announced to every consumer: the
    /// producer is finished.
    pub fn drained(&mut self) -> (action: ProducerAction)
        requires
            old(self).may_drain(),
        ensures
            old(self).drains(*final(self), action),
            final(self).wf(),
    {
        self.phase = ProducerPhase::Done;
        ProducerAction::Exit(Ok(()))
    }

    /// Takes what arrived on the producer's queue and, where it is a buffer
    /// to fill, has the callback fill it: `receive`, the callback, and
    /// `filled`, in one step.
    ///
    /// The callback has to accept the buffer as `receive` hands it out, and
    /// has to leave its length as it is whenever it succeeds.
    pub fn produce<T, F>(
        &mut self,
        message: Option<Message>,
        callback: &FnMove<F>,
        data: &T,
    ) -> (action: ProducerAction) where F: Fn(&mut Vec<u8>, &T, u64) -> Result<(), String>
        requires
            old(self).may_receive(message),
            message matches Some(Message::Produce(_, buffer)) ==> {
                &&& callback.accepts(
                    resized(buffer.bytes@, old(self).next_len()),
                    data,
                    old(self).offset,
                )
                &&& forall|b: &mut Vec<u8>, outcome: Result<(), String>|
                    call_ensures(callback.f, (b, data, old(self).offset), outcome) && outcome is Ok
                        ==> final(b)@.len() == b@.len()
            },
        ensures
            final(self).wf(),
            match message {
                Some(Message::Produce(config, buffer)) if old(self).offset < old(
                    self,
                ).end_offset => exists|
                    b: &mut Vec<u8>,
                    outcome: Result<(), String>,
                    working: Producer,
                    vacant: Buffer,
                    filled: Buffer,
                |
                    {
                        &&& old(self).receives(
                            message,
                            working,
                            ProducerAction::Fill {
                                config,
                                buffer: vacant,
                                offset: old(self).offset,
                                consumer: working.prev_consumer,
                            },
                        )
                        &&& b@ == vacant.bytes@
                        &&& call_ensures(callback.f, (b, data, old(self).offset), outcome)
                        &&& filled.bytes@ == final(b)@
                        &&& filled.reserved == vacant.reserved
                        &&& working.fills(outcome, config, filled, *final(self), action)
                    },
                _ => old(self).receives(message, *final(self), action),
            },
    {
        match self.receive(message) {
            ProducerAction::Fill { config, buffer, offset, consumer } => {
                let mut buffer = buffer;
                let outcome = callback.call(&mut buffer.bytes, data, offset);
                self.filled(outcome, config, buffer)
            },
            action => action,
        }
    }
}

} // verus!
