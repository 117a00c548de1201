//! What holds of the pipeline at every moment of a run.
use crate::consumer::{ConsumerAction, ConsumerPhase};
use crate::message::{Buffer, Config, Message};
use crate::partition::{chunk_len, chunk_offset, is_chunk, is_chunk_start, producer_of_byte};
use crate::pipeline::coverage::is_covered;
use crate::pipeline::state::{
    by_counted,
    by_flag,
    by_held_buffers,
    by_held_bytes,
    by_kept_buffers,
    by_kept_bytes,
    by_length,
    by_message_buffers,
    by_message_bytes,
    by_message_ends,
    by_progress,
    by_queue,
    carries,
    covers,
    end_follows,
    held_carries,
    is_chunk_of,
    is_slice_of,
    kept_carries,
    Pipeline,
};
use crate::producer::{ProducerAction, ProducerPhase};
use crate::total::total;
use crate::write::{ProducerError, WriteError};
use vstd::prelude::*;

verus! {

impl Pipeline {
    /// Whether a buffer with this configuration holds a chunk of the
    /// partition: a chunk of the producer it belongs to, with its offset and
    /// its length, and the bytes of the source.
    pub open spec fn holds_chunk(self, config: Config, buffer: Buffer) -> bool {
        &&& is_slice_of(buffer.bytes@, self.source, config.offset as int)
        &&& exists|j: nat|
            {
                &&& j < self.partition.k()
                &&& #[trigger] chunk_offset(
                    self.partition.n(),
                    self.partition.p(),
                    self.partition.k(),
                    config.producer as nat,
                    j,
                ) == config.offset
                &&& chunk_len(
                    self.partition.n(),
                    self.partition.p(),
                    self.partition.k(),
                    config.producer as nat,
                    j,
                ) == buffer.bytes@.len()
                &&& buffer.bytes@.len() > 0
            }
    }

    /// Whether `message` may wait in the queue of producer `i`: it is an
    /// empty or used buffer of the pool that belongs to that producer.
    pub open spec fn fits_producer(self, i: int, message: Message) -> bool {
        &&& message matches Message::Produce(config, buffer)
        &&& config.producer == i
        &&& config.consumers == self.num_consumers
        &&& buffer.reserved == self.room()
    }

    /// Whether `message` may wait in the queue of a consumer.
    pub open spec fn fits_consumer(self, message: Message) -> bool {
        match message {
            Message::Consume(config, buffer) => {
                &&& config.producer < self.partition.num_producers
                &&& config.consumers == self.num_consumers
                &&& buffer.reserved == self.room()
                &&& self.holds_chunk(config, buffer)
            },
            Message::Produce(_, _) => false,
            Message::End(_, num_producers) => num_producers == self.partition.num_producers,
            Message::Error(error) => self.failures.contains(error),
        }
    }

    /// Whether the state of producer `i` and what its caller does next
    /// belong together.
    pub open spec fn producer_agrees(self, i: int) -> bool {
        let producer = self.producers[i];
        &&& producer.wf()
        &&& producer.partition == self.partition
        &&& producer.id == i
        &&& match self.producer_next[i] {
            ProducerAction::Receive => producer.phase == ProducerPhase::Idle,
            ProducerAction::Fill { config, buffer, offset, consumer } => {
                &&& producer.phase == ProducerPhase::Working
                &&& config.producer == i
                &&& config.consumers == self.num_consumers
                &&& buffer.reserved == self.room()
                &&& buffer.bytes@.len() == producer.next_len()
                &&& offset == producer.offset
                &&& consumer == producer.prev_consumer
                &&& consumer < self.num_consumers
            },
            ProducerAction::Forward { consumer, message } => {
                &&& producer.phase == ProducerPhase::Forwarding
                &&& consumer < self.num_consumers
                &&& message matches Message::Consume(config, buffer)
                &&& config.producer == i
                &&& config.consumers == self.num_consumers
                &&& buffer.reserved == self.room()
                &&& self.holds_chunk(config, buffer)
            },
            ProducerAction::BroadcastEnd { producer: id, num_producers } => {
                &&& producer.phase == ProducerPhase::Draining
                &&& id == i
                &&& num_producers == self.partition.num_producers
            },
            ProducerAction::BroadcastError(error) => {
                &&& producer.phase == ProducerPhase::Failed
                &&& self.failures.contains(error)
            },
            ProducerAction::Exit(_) => producer.phase == ProducerPhase::Done || producer.phase
                == ProducerPhase::Failed,
        }
    }

    /// Whether the state of consumer `x` and what its caller does next
    /// belong together.
    pub open spec fn consumer_agrees(self, x: int) -> bool {
        let consumer = self.consumers[x];
        match self.consumer_next[x] {
            ConsumerAction::Receive => {
                &&& consumer.is_receiving()
                &&& consumer.end_count < self.partition.num_producers
            },
            ConsumerAction::Service { config, buffer } => {
                &&& consumer.phase == ConsumerPhase::Servicing
                &&& consumer.end_count < self.partition.num_producers
                &&& config.producer < self.partition.num_producers
                &&& config.consumers == self.num_consumers
                &&& buffer.reserved == self.room()
                &&& self.holds_chunk(config, buffer)
            },
            ConsumerAction::Return { producer, message } => {
                &&& consumer.is_receiving()
                &&& consumer.end_count < self.partition.num_producers
                &&& producer < self.partition.num_producers
                &&& self.fits_producer(producer as int, message)
            },
            ConsumerAction::Exit(result) => if consumer.phase == ConsumerPhase::Done {
                result == Ok::<usize, WriteError>(consumer.bytes)
            } else {
                &&& consumer.phase == ConsumerPhase::Failed
                &&& consumer.end_count < self.partition.num_producers
                &&& result is Err
                &&& result matches Err(WriteError::Producer(error)) ==> self.failures.contains(
                    error,
                )
            },
        }
    }

    /// What the consumers have returned, once all of them have stopped.
    pub open spec fn results(self) -> Seq<Result<usize, WriteError>> {
        Seq::new(self.c(), |x: int| self.consumer_next[x]->Exit_0)
    }

    /// Whether every consumer has stopped after it counted the ends of all
    /// producers.
    pub open spec fn is_complete(self) -> bool {
        forall|x: int|
            0 <= x < self.c() ==> (#[trigger] self.consumer_next[x]) is Exit
                && self.consumers[x].end_count >= self.partition.num_producers
    }

    /// Whether every buffer of producer `i` that waits for consumer `x` is
    /// followed by the end of that producer, if that end was sent to the
    /// consumer; and whether the ends that the consumer has counted and
    /// those that wait for it are those that were sent to it.
    pub open spec fn ends_agree(self, x: int) -> bool {
        &&& self.closed[x].len() == self.p()
        &&& self.consumers[x].end_count + total(self.consumer_queue[x], by_message_ends())
            == total(self.closed[x], by_flag())
        &&& forall|i: int, b: int|
            0 <= i < self.p() && self.closed[x][i] && 0 <= b < self.consumer_queue[x].len()
                && #[trigger] is_chunk_of(self.consumer_queue[x][b], i) ==> end_follows(
                self.consumer_queue[x],
                b,
                i,
            )
        &&& forall|i: int|
            #![trigger self.closed[x][i]]
            0 <= i < self.p() && self.closed[x][i] ==> {
                &&& self.producers[i].phase == ProducerPhase::Done
                &&& self.producers[i].offset == self.producers[i].end_offset
            }
    }

    /// Whether the byte at `at` of the file has not been handed on by its
    /// producer yet.
    pub open spec fn is_pending(self, at: int) -> bool {
        self.producers[producer_of_byte(
            self.partition.n(),
            self.partition.p(),
            at as nat,
        ) as int].offset <= at
    }

    /// Whether the byte that belongs at `at` of the file waits in the queue
    /// of a consumer.
    pub open spec fn is_waiting(self, at: int) -> bool {
        exists|x: int, b: int|
            0 <= x < self.c() && 0 <= b < self.consumer_queue[x].len() && carries(
                #[trigger] self.consumer_queue[x][b],
                at,
            )
    }

    /// Whether the byte that belongs at `at` of the file is about to be sent
    /// to a consumer.
    pub open spec fn is_leaving(self, at: int) -> bool {
        exists|i: int| 0 <= i < self.p() && held_carries(#[trigger] self.producer_next[i], at)
    }

    /// Whether the byte that belongs at `at` of the file is being serviced.
    pub open spec fn is_serviced(self, at: int) -> bool {
        exists|x: int| 0 <= x < self.c() && kept_carries(#[trigger] self.consumer_next[x], at)
    }

    /// Whether a consumer has failed.
    pub open spec fn has_failed_consumer(self) -> bool {
        exists|x: int|
            0 <= x < self.c() && (#[trigger] self.consumers[x]).phase == ConsumerPhase::Failed
    }

    /// Whether the byte at `at` of the file lies in a chunk that has been
    /// serviced.
    pub open spec fn is_logged(self, at: int) -> bool {
        is_covered(self.serviced, at)
    }

    /// The bytes in the chunks that have been serviced.
    pub open spec fn serviced_bytes(self) -> nat {
        total(self.serviced, by_length())
    }

    /// The bytes that are being serviced.
    pub open spec fn servicing_bytes(self) -> nat {
        total(self.consumer_next, by_kept_bytes())
    }

    /// Whether the byte at `at` of the file is accounted for: it lies in a
    /// chunk that has been serviced, or it is still on its way from its
    /// producer to the file, or a worker has failed.
    pub open spec fn is_settled(self, at: int) -> bool {
        ||| self.is_logged(at)
        ||| self.is_pending(at)
        ||| self.is_leaving(at)
        ||| self.is_waiting(at)
        ||| self.is_serviced(at)
        ||| self.has_failed()
        ||| self.has_failed_consumer()
    }

    /// Whether there is a state, a next action and a queue for every worker,
    /// and a byte of the source and of the file for every byte of the
    /// partition.
    pub open spec fn is_whole(self) -> bool {
        &&& self.producers.len() == self.p()
        &&& self.producer_next.len() == self.p()
        &&& self.producer_queue.len() == self.p()
        &&& self.consumers.len() == self.c()
        &&& self.consumer_next.len() == self.c()
        &&& self.consumer_queue.len() == self.c()
        &&& self.source.len() == self.partition.total_size
        &&& self.file.len() == self.partition.total_size
    }

    /// Whether a producer has failed.
    pub open spec fn has_failed(self) -> bool {
        exists|i: int|
            0 <= i < self.p() && (#[trigger] self.producers[i]).phase == ProducerPhase::Failed
    }

    /// The bytes that the consumers have counted.
    pub open spec fn counted_bytes(self) -> nat {
        total(self.consumers, by_counted())
    }

    /// The bytes that wait in the queues of the consumers.
    pub open spec fn waiting_bytes(self) -> nat {
        total(self.consumer_queue, by_queue(by_message_bytes()))
    }

    /// The bytes that are about to be sent to consumers.
    pub open spec fn leaving_bytes(self) -> nat {
        total(self.producer_next, by_held_bytes())
    }

    /// The bytes that the producers have handed on.
    pub open spec fn produced_bytes(self) -> nat {
        total(self.producers, by_progress())
    }

    /// The buffers that exist: those that wait in a queue and those that a
    /// worker's caller holds.
    pub open spec fn pool(self) -> nat {
        total(self.producer_queue, by_queue(by_message_buffers())) + total(
            self.consumer_queue,
            by_queue(by_message_buffers()),
        ) + total(self.producer_next, by_held_buffers()) + total(
            self.consumer_next,
            by_kept_buffers(),
        )
    }

    /// What holds of the pipeline at every moment of a run.
    ///
    /// Every worker is in a state that its own steps can go on from; every
    /// queue holds only messages that its worker can take; every buffer that
    /// waits for a producer belongs to that producer; there are no more
    /// buffers than the producers were seeded with; and every byte that a
    /// producer has handed on has been counted by a consumer, waits for one,
    /// is about to be sent to one, or was lost with a consumer that is gone;
    /// every chunk that was serviced is a chunk of the partition, and the
    /// file holds the bytes of the source in it; and, unless a worker has
    /// failed, every byte of the file lies in a chunk that was serviced or is
    /// still on its way.
    pub open spec fn inv(self) -> bool {
        &&& self.partition.wf()
        &&& self.partition.total_size <= usize::MAX
        &&& self.num_consumers > 0
        &&& self.producers.len() == self.p()
        &&& self.producer_next.len() == self.p()
        &&& self.producer_queue.len() == self.p()
        &&& self.consumers.len() == self.c()
        &&& self.consumer_next.len() == self.c()
        &&& self.consumer_queue.len() == self.c()
        &&& forall|i: int| 0 <= i < self.p() ==> #[trigger] self.producer_agrees(i)
        &&& forall|i: int, b: int|
            0 <= i < self.p() && 0 <= b < self.producer_queue[i].len() ==> self.fits_producer(
                i,
                #[trigger] self.producer_queue[i][b],
            )
        &&& forall|x: int| 0 <= x < self.c() ==> #[trigger] self.consumer_agrees(x)
        &&& forall|x: int, b: int|
            0 <= x < self.c() && 0 <= b < self.consumer_queue[x].len() ==> self.fits_consumer(
                #[trigger] self.consumer_queue[x][b],
            )
        &&& self.counted_bytes() + self.waiting_bytes() + self.leaving_bytes() + self.lost
            == self.produced_bytes()
        &&& self.pool() <= self.p() * self.num_buffers
        &&& self.closed.len() == self.c()
        &&& forall|x: int| 0 <= x < self.c() ==> #[trigger] self.ends_agree(x)
        &&& self.lost > 0 ==> self.has_failed()
        &&& forall|error: ProducerError| #[trigger]
            self.failures.contains(error) ==> is_chunk_start(
                self.partition.n(),
                self.partition.p(),
                self.partition.k(),
                error.offset as nat,
            )
        &&& self.source.len() == self.partition.total_size
        &&& self.file.len() == self.partition.total_size
        &&& forall|at: int| 0 <= at < self.file.len() ==> #[trigger] self.is_settled(at)
        &&& forall|e: int, at: int|
            0 <= e < self.serviced.len() && covers(#[trigger] self.serviced[e], at) ==> 0 <= at
                < self.file.len() && self.file[at] == #[trigger] self.source[at]
        &&& forall|e: int|
            0 <= e < self.serviced.len() ==> is_chunk(
                self.partition.n(),
                self.partition.p(),
                self.partition.k(),
                (#[trigger] self.serviced[e]).0 as nat,
                self.serviced[e].1,
            )
        &&& !self.has_failed_consumer() ==> self.serviced_bytes() + self.servicing_bytes()
            == self.counted_bytes()
    }
}

} // verus!
