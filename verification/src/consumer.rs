//! The consumer stage: what one consumer does with each message it
//! receives.
//!
//! A consumer services the buffers that producers hand to it, returns each
//! buffer to the producer it belongs to, and counts the producers that have
//! announced their end. It is finished once all of them have, or as soon as
//! an error reaches it. The functions here decide; the caller receives and
//! sends the messages and services the buffers.
use crate::message::{Buffer, Config, Message};
use crate::write::WriteError;
use vstd::prelude::*;

verus! {

/// Where a consumer stands.
#[derive(Clone, Copy, Debug, PartialEq, Eq, Structural)]
pub enum ConsumerPhase {
    /// Waiting for a message; no producer has announced its end yet.
    Waiting,
    /// A buffer is being serviced.
    Servicing,
    /// Waiting for a message; some producers have announced their end.
    Counting,
    /// Finished without error.
    Done,
    /// Finished with an error.
    Failed,
}

/// What the caller does next for a consumer.
#[derive(Debug)]
pub enum ConsumerAction {
    /// Wait for the next message on the consumer's queue and pass it to
    /// `receive`, or `None` once the queue is closed.
    Receive,
    /// Service `buffer`, whose bytes belong at `config.offset` of the file,
    /// and pass the outcome to `serviced`.
    Service { config: Config, buffer: Buffer },
    /// Send `message` to `producer`, whether or not it is still there, and
    /// wait for the next message.
    Return { producer: u64, message: Message },
    /// Stop with this result.
    Exit(Result<usize, WriteError>),
}

/// The state of one consumer.
#[derive(Clone, Copy, Debug, PartialEq, Eq, Structural)]
pub struct Consumer {
    /// The number of producers that have announced their end.
    pub end_count: u64,
    /// The number of bytes in the buffers taken in so far.
    pub bytes: usize,
    /// Where the consumer stands.
    pub phase: ConsumerPhase,
}

impl Consumer {
    /// The phase of a consumer that waits for a message after `end_count`
    /// producers have announced their end.
    pub open spec fn waiting_phase(end_count: u64) -> ConsumerPhase {
        if end_count == 0 {
            ConsumerPhase::Waiting
        } else {
            ConsumerPhase::Counting
        }
    }

    /// The consumer waits for a message.
    pub open spec fn is_receiving(&self) -> bool {
        self.phase == Consumer::waiting_phase(self.end_count)
    }

    /// The state of a consumer before it has received anything.
    pub open spec fn initial() -> Consumer {
        Consumer { end_count: 0, bytes: 0, phase: ConsumerPhase::Waiting }
    }

    /// A consumer before it has received anything.
    pub fn new() -> (consumer: Consumer)
        ensures
            consumer == Consumer::initial(),
    {
        Consumer { end_count: 0, bytes: 0, phase: ConsumerPhase::Waiting }
    }

    /// What `receive` asks of its caller.
    pub open spec fn may_receive(self, message: Option<Message>) -> bool {
        &&& self.is_receiving()
        &&& !(message matches Some(Message::Produce(_, _)))
        &&& message matches Some(Message::Consume(_, buffer)) ==> self.bytes
            + buffer.bytes@.len() <= usize::MAX
        &&& message matches Some(Message::End(_, _)) ==> self.end_count < u64::MAX
    }

    /// Whether `receive` may be called with `message`.
    pub fn accepts(&self, message: &Option<Message>) -> (ok: bool)
        ensures
            ok == self.may_receive(*message),
    {
        let waiting = if self.end_count == 0 {
            self.phase == ConsumerPhase::Waiting
        } else {
            self.phase == ConsumerPhase::Counting
        };
        if !waiting {
            return false;
        }
        match message {
            Some(Message::Produce(_, _)) => false,
            Some(Message::Consume(_, buffer)) => buffer.len() <= usize::MAX - self.bytes,
            Some(Message::End(_, _)) => self.end_count < u64::MAX,
            _ => true,
        }
    }

    /// What `receive` does: from `self` and `message` to `next` and
    /// `action`.
    pub open spec fn receives(
        self,
        message: Option<Message>,
        next: Consumer,
        action: ConsumerAction,
    ) -> bool {
        match message {
            Some(Message::Consume(config, buffer)) => {
                &&& next == (Consumer {
                    bytes: (self.bytes + buffer.bytes@.len()) as usize,
                    phase: ConsumerPhase::Servicing,
                    ..self
                })
                &&& action == (ConsumerAction::Service { config, buffer })
            },
            Some(Message::End(_, num_producers)) => if self.end_count + 1 >= num_producers {
                &&& next == (Consumer {
                    end_count: (self.end_count + 1) as u64,
                    phase: ConsumerPhase::Done,
                    ..self
                })
                &&& action == ConsumerAction::Exit(Ok(self.bytes))
            } else {
                &&& next == (Consumer {
                    end_count: (self.end_count + 1) as u64,
                    phase: ConsumerPhase::Counting,
                    ..self
                })
                &&& action == ConsumerAction::Receive
            },
            Some(Message::Error(error)) => {
                &&& next == (Consumer { phase: ConsumerPhase::Failed, ..self })
                &&& action == ConsumerAction::Exit(Err(WriteError::Producer(error)))
            },
            _ => {
                &&& next == (Consumer { phase: ConsumerPhase::Done, ..self })
                &&& action == ConsumerAction::Exit(Ok(self.bytes))
            },
        }
    }

    /// Takes what arrived on the consumer's queue, `None` standing for a
    /// closed queue.
    ///
    /// A filled buffer is counted and is to be serviced. An announced end is
    /// counted, and the consumer is finished once as many ends have arrived as
    /// the announcement says there are producers. An error ends the consumer
    /// with that error. A closed queue ends it with what it has counted.
    pub fn receive(&mut self, message: Option<Message>) -> (action: ConsumerAction)
        requires
            old(self).may_receive(message),
        ensures
            old(self).receives(message, *final(self), action),
    {
        match message {
            Some(Message::Consume(config, buffer)) => {
                self.bytes = self.bytes + buffer.len();
                self.phase = ConsumerPhase::Servicing;
                ConsumerAction::Service { config, buffer }
            },
            Some(Message::End(_, num_producers)) => {
                self.end_count = self.end_count + 1;
                if self.end_count >= num_producers {
                    self.phase = ConsumerPhase::Done;
                    ConsumerAction::Exit(Ok(self.bytes))
                } else {
                    self.phase = ConsumerPhase::Counting;
                    ConsumerAction::Receive
                }
            },
            Some(Message::Error(error)) => {
                self.phase = ConsumerPhase::Failed;
                ConsumerAction::Exit(Err(WriteError::Producer(error)))
            },
            _ => {
                self.phase = ConsumerPhase::Done;
                ConsumerAction::Exit(Ok(self.bytes))
            },
        }
    }

    /// What `serviced` does: from `self` and the outcome of servicing
    /// `buffer` to `next` and `action`.
    pub open spec fn services(
        self,
        outcome: Result<(), WriteError>,
        config: Config,
        buffer: Buffer,
        next: Consumer,
        action: ConsumerAction,
    ) -> bool {
        match outcome {
            Ok(_) => {
                &&& next == (Consumer { phase: Consumer::waiting_phase(self.end_count), ..self })
                &&& action == (ConsumerAction::Return {
                    producer: config.producer,
                    message: Message::Produce(config, buffer),
                })
            },
            Err(error) => {
                &&& next == (Consumer { phase: ConsumerPhase::Failed, ..self })
                &&& action == ConsumerAction::Exit(Err(error))
            },
        }
    }

    /// Takes the outcome of servicing the buffer that `receive` handed out.
    ///
    /// A serviced buffer returns to the producer it belongs to, and the
    /// consumer waits for the next message. A failure ends the consumer with
    /// that error.
    pub fn serviced(&mut self, outcome: Result<(), WriteError>, config: Config, buffer: Buffer) -> (action:
        ConsumerAction)
        requires
            old(self).phase == ConsumerPhase::Servicing,
        ensures
            old(self).services(outcome, config, buffer, *final(self), action),
    {
        match outcome {
            Ok(_) => {
                self.phase = if self.end_count == 0 {
                    ConsumerPhase::Waiting
                } else {
                    ConsumerPhase::Counting
                };
                ConsumerAction::Return {
                    producer: config.producer,
                    message: Message::Produce(config, buffer),
                }
            },
            Err(error) => {
                self.phase = ConsumerPhase::Failed;
                ConsumerAction::Exit(Err(error))
            },
        }
    }
}

} // verus!
