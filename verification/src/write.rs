//! The write path: its errors, and what the orchestrator decides before the
//! workers start and after they have finished.
use crate::consumer::Consumer;
use crate::message::{Buffer, Config, Message};
use crate::partition::{max_chunk, producer_start, Partition};
use crate::producer::Producer;
use vstd::prelude::*;

verus! {

/// `std::io::Error`, the error of an operation of the operating system.
/// Nothing is claimed of what such a value holds: it is only carried from the
/// place where a transfer failed to the caller.
#[verifier::external_type_specification]
#[verifier::external_body]
pub struct ExIoError(std::io::Error);

/// Error generated by producers.
#[derive(Debug, Clone)]
pub struct ProducerError {
    /// The message that the producer callback failed with.
    pub msg: String,
    /// The file offset of the chunk that the callback was asked to fill.
    pub offset: u64,
}

/// Error type containing errors generated by the producer and consumer
/// workers and by I/O operations.
#[derive(Debug)]
pub enum WriteError {
    /// Error generated by a producer, including its callback.
    Producer(ProducerError),
    /// Error of the operating system, met by a consumer.
    IO(std::io::Error),
    /// Other errors.
    Other(String),
}

/// Simple conversion from string to write error.
pub fn to_write_err(err: String) -> (e: WriteError)
    ensures
        e == WriteError::Other(err),
{
    WriteError::Other(err)
}


/// Build producers: the state of each producer of a file of `total_size`
/// bytes, before it has received anything.
pub fn build_producers(num_producers: u64, total_size: u64, chunks_per_producer: u64) -> (producers:
    Vec<Producer>)
    requires
        num_producers > 0,
        chunks_per_producer > 0,
        num_producers <= usize::MAX,
    ensures
        producers@.len() == num_producers,
        forall|i: int|
            0 <= i < num_producers ==> #[trigger] producers@[i] == Producer::initial(
                Partition::of(total_size, num_producers, chunks_per_producer),
                i as u64,
            ) && producers@[i].wf(),
{
    let partition = Partition::new(total_size, num_producers, chunks_per_producer);
    let mut producers: Vec<Producer> = Vec::new();
    let mut i: u64 = 0;
    while i < num_producers
        invariant
            i <= num_producers <= usize::MAX,
            partition.wf(),
            partition == Partition::of(total_size, num_producers, chunks_per_producer),
            producers@.len() == i,
            forall|j: int|
                0 <= j < i ==> #[trigger] producers@[j] == Producer::initial(partition, j as u64)
                    && producers@[j].wf(),
        decreases num_producers - i,
    {
        producers.push(Producer::new(partition, i));
        i = i + 1;
    }
    producers
}

/// Build consumers: the state of each of `num_consumers` consumers, before
/// it has received anything.
pub fn build_consumers(num_consumers: u64) -> (consumers: Vec<Consumer>)
    requires
        num_consumers <= usize::MAX,
    ensures
        consumers@.len() == num_consumers,
        forall|i: int| 0 <= i < num_consumers ==> #[trigger] consumers@[i] == Consumer::initial(),
{
    let mut consumers: Vec<Consumer> = Vec::new();
    let mut i: u64 = 0;
    while i < num_consumers
        invariant
            i <= num_consumers <= usize::MAX,
            consumers@.len() == i,
            forall|j: int| 0 <= j < i ==> #[trigger] consumers@[j] == Consumer::initial(),
        decreases num_consumers - i,
    {
        consumers.push(Consumer::new());
        i = i + 1;
    }
    consumers
}

/// The number of buffers that each producer starts with: as many as asked
/// for, but no more than it has chunks.
pub open spec fn buffers_per_producer(chunks_per_producer: nat, num_buffers_per_producer: nat) -> nat {
    if chunks_per_producer <= num_buffers_per_producer {
        chunks_per_producer
    } else {
        num_buffers_per_producer
    }
}

/// The room of every buffer of the pool: twice the largest chunk.
pub open spec fn buffer_room(n: nat, p: nat, k: nat) -> nat {
    2 * max_chunk(n, p, k)
}

/// Whether `message` is what producer `producer` is seeded with: an empty
/// buffer of the pool's size that belongs to it.
pub open spec fn is_seed(
    message: Message,
    partition: Partition,
    producer: nat,
    num_consumers: usize,
) -> bool {
    &&& message matches Message::Produce(config, buffer)
    &&& config == (Config {
        offset: producer_start(partition.n(), partition.p(), producer) as u64,
        producer: producer as u64,
        consumers: num_consumers,
    })
    &&& buffer.bytes@ == Seq::<u8>::empty()
    &&& buffer.reserved == buffer_room(partition.n(), partition.p(), partition.k())
}

/// The room of the buffers in the first `count` messages of a queue.
pub open spec fn queue_reserved(queue: Seq<Message>, count: nat) -> nat
    decreases count,
{
    if count == 0 {
        0
    } else {
        queue_reserved(queue, (count - 1) as nat) + match queue[count - 1] {
            Message::Produce(_, buffer) => buffer.reserved as nat,
            Message::Consume(_, buffer) => buffer.reserved as nat,
            _ => 0,
        }
    }
}

/// The room of the buffers in the first `count` queues.
pub open spec fn pool_reserved(queues: Seq<Vec<Message>>, count: nat) -> nat
    decreases count,
{
    if count == 0 {
        0
    } else {
        pool_reserved(queues, (count - 1) as nat) + queue_reserved(
            queues[count - 1]@,
            queues[count - 1]@.len(),
        )
    }
}

/// What `launch` asks of its caller: the producers, the buffers of each
/// producer and the bytes of each buffer can be counted.
pub open spec fn may_launch(partition: Partition, num_buffers_per_producer: u64) -> bool {
    &&& partition.wf()
    &&& partition.num_producers <= usize::MAX
    &&& buffers_per_producer(partition.k(), num_buffers_per_producer as nat) <= usize::MAX
    &&& buffer_room(partition.n(), partition.p(), partition.k()) <= usize::MAX
}

/// Whether `launch` may be called.
pub fn can_launch(partition: &Partition, num_buffers_per_producer: u64) -> (ok: bool)
    requires
        partition.wf(),
    ensures
        ok == may_launch(*partition, num_buffers_per_producer),
{
    let num_buffers: u64 = if partition.chunks_per_producer <= num_buffers_per_producer {
        partition.chunks_per_producer
    } else {
        num_buffers_per_producer
    };
    let largest: u64 = partition.reserved_size();
    partition.num_producers <= usize::MAX as u64 && num_buffers <= usize::MAX as u64 && largest
        <= (usize::MAX / 2) as u64
}

/// Launch: the buffer pool, as the messages that each producer's queue is
/// seeded with before any worker starts.
///
/// Every producer gets the same number of buffers, each with room for twice
/// the largest chunk, so the room of the whole pool is the product of the
/// number of producers, the number of buffers per producer and that room.
pub fn launch(partition: &Partition, num_consumers: usize, num_buffers_per_producer: u64) -> (queues:
    Vec<Vec<Message>>)
    requires
        may_launch(*partition, num_buffers_per_producer),
    ensures
        queues@.len() == partition.num_producers,
        forall|i: int|
            0 <= i < queues@.len() ==> (#[trigger] queues@[i])@.len() == buffers_per_producer(
                partition.k(),
                num_buffers_per_producer as nat,
            ),
        forall|i: int, b: int|
            0 <= i < queues@.len() && 0 <= b < queues@[i]@.len() ==> is_seed(
                #[trigger] queues@[i]@[b],
                *partition,
                i as nat,
                num_consumers,
            ),
        pool_reserved(queues@, queues@.len()) == partition.p() * buffers_per_producer(
            partition.k(),
            num_buffers_per_producer as nat,
        ) * buffer_room(partition.n(), partition.p(), partition.k()),
{
    let num_buffers: u64 = if partition.chunks_per_producer <= num_buffers_per_producer {
        partition.chunks_per_producer
    } else {
        num_buffers_per_producer
    };
    let room: usize = (2 * partition.reserved_size()) as usize;
    let ghost per_queue = num_buffers as nat * room as nat;
    let mut queues: Vec<Vec<Message>> = Vec::new();
    let mut i: u64 = 0;
    while i < partition.num_producers
        invariant
            partition.wf(),
            i <= partition.num_producers <= usize::MAX,
            num_buffers == buffers_per_producer(partition.k(), num_buffers_per_producer as nat),
            room == buffer_room(partition.n(), partition.p(), partition.k()),
            per_queue == num_buffers as nat * room as nat,
            queues@.len() == i,
            forall|a: int| 0 <= a < i ==> (#[trigger] queues@[a])@.len() == num_buffers,
            forall|a: int, b: int|
                0 <= a < i && 0 <= b < queues@[a]@.len() ==> is_seed(
                    #[trigger] queues@[a]@[b],
                    *partition,
                    a as nat,
                    num_consumers,
                ),
            pool_reserved(queues@, i as nat) == i as nat * per_queue,
        decreases partition.num_producers - i,
    {
        let (start, _end) = partition.producer_range(i);
        let config = Config { offset: start, producer: i, consumers: num_consumers };
        let mut queue: Vec<Message> = Vec::new();
        let mut b: u64 = 0;
        while b < num_buffers
            invariant
                b <= num_buffers,
                queue@.len() == b,
                forall|c: int|
                    0 <= c < b ==> is_seed(#[trigger] queue@[c], *partition, i as nat, num_consumers),
                config == (Config { offset: start, producer: i, consumers: num_consumers }),
                start == producer_start(partition.n(), partition.p(), i as nat),
                room == buffer_room(partition.n(), partition.p(), partition.k()),
                queue_reserved(queue@, b as nat) == b as nat * room as nat,
            decreases num_buffers - b,
        {
            let ghost before = queue@;
            queue.push(Message::Produce(config, Buffer::with_reserve(room)));
            proof {
                lemma_queue_reserved_prefix(before, queue@, b as nat);
                assert((b as nat + 1) * room as nat == b as nat * room as nat + room as nat)
                    by (nonlinear_arith);
            }
            b = b + 1;
        }
        let ghost before = queues@;
        queues.push(queue);
        proof {
            lemma_pool_reserved_prefix(before, queues@, i as nat);
            assert((i as nat + 1) * per_queue == i as nat * per_queue + per_queue)
                by (nonlinear_arith);
        }
        i = i + 1;
    }
    proof {
        assert(partition.p() * num_buffers as nat * room as nat == partition.p() * per_queue)
            by (nonlinear_arith)
            requires
                per_queue == num_buffers as nat * room as nat,
        ;
    }
    queues
}

/// The room in the first `count` messages of a queue does not depend on
/// what follows them.
proof fn lemma_queue_reserved_prefix(short: Seq<Message>, long: Seq<Message>, count: nat)
    requires
        count <= short.len() <= long.len(),
        forall|i: int| 0 <= i < short.len() ==> short[i] == long[i],
    ensures
        queue_reserved(short, count) == queue_reserved(long, count),
    decreases count,
{
    if count > 0 {
        lemma_queue_reserved_prefix(short, long, (count - 1) as nat);
    }
}

/// The room in the first `count` queues does not depend on what follows
/// them.
proof fn lemma_pool_reserved_prefix(short: Seq<Vec<Message>>, long: Seq<Vec<Message>>, count: nat)
    requires
        count <= short.len() <= long.len(),
        forall|i: int| 0 <= i < short.len() ==> short[i] == long[i],
    ensures
        pool_reserved(short, count) == pool_reserved(long, count),
    decreases count,
{
    if count > 0 {
        lemma_pool_reserved_prefix(short, long, (count - 1) as nat);
    }
}


/// What the results of the consumers, taken in order, amount to: the first
/// error among them, or else the sum of their byte counts.
pub open spec fn consumed(results: Seq<Result<usize, WriteError>>) -> Result<nat, WriteError>
    decreases results.len(),
{
    if results.len() == 0 {
        Ok(0)
    } else {
        match consumed(results.drop_last()) {
            Err(error) => Err(error),
            Ok(bytes) => match results.last() {
                Ok(more) => Ok(bytes + more as nat),
                Err(error) => Err(error),
            },
        }
    }
}

/// The sum of the byte counts that come before the first error.
pub open spec fn counted(results: Seq<Result<usize, WriteError>>) -> nat
    decreases results.len(),
{
    if results.len() == 0 {
        0
    } else {
        match consumed(results.drop_last()) {
            Err(_) => counted(results.drop_last()),
            Ok(bytes) => match results.last() {
                Ok(more) => bytes + more as nat,
                Err(_) => bytes,
            },
        }
    }
}

/// Whether the byte counts that come before the first error add up to a
/// number that can be returned.
pub fn adds_up(results: &Vec<Result<usize, WriteError>>) -> (ok: bool)
    ensures
        ok == (counted(results@) <= usize::MAX),
{
    let mut bytes: usize = 0;
    let mut i: usize = 0;
    while i < results.len()
        invariant
            i <= results@.len(),
            consumed(results@.take(i as int)) == Ok::<nat, WriteError>(bytes as nat),
            counted(results@.take(i as int)) == bytes,
        decreases results@.len() - i,
    {
        proof {
            assert(results@.take(i + 1).drop_last() == results@.take(i as int));
            assert(results@.take(i + 1).last() == results@[i as int]);
            lemma_counted_grows(results@, (i + 1) as nat);
        }
        match &results[i] {
            Ok(more) => {
                if *more > usize::MAX - bytes {
                    return false;
                }
                bytes = bytes + *more;
            },
            Err(_) => {
                proof {
                    lemma_first_error_wins(results@, (i + 1) as nat);
                    lemma_counted_stops(results@, (i + 1) as nat);
                }
                return true;
            },
        }
        i = i + 1;
    }
    proof {
        assert(results@.take(i as int) == results@);
    }
    true
}

/// Combines the results of the consumers, in the order in which they were
/// joined: the first error wins, and without an error the byte counts add
/// up.
pub fn bytes_consumed(results: Vec<Result<usize, WriteError>>) -> (total: Result<usize, WriteError>)
    requires
        counted(results@) <= usize::MAX,
    ensures
        match consumed(results@) {
            Ok(bytes) => total == Ok::<usize, WriteError>(bytes as usize) && bytes <= usize::MAX,
            Err(error) => total == Err::<usize, WriteError>(error),
        },
{
    let ghost all = results@;
    let mut pending = results;
    let mut bytes: usize = 0;
    let mut i: usize = 0;
    while i < pending.len()
        invariant
            pending@ == all,
            results@ == all,
            i <= all.len(),
            consumed(all.take(i as int)) == Ok::<nat, WriteError>(bytes as nat),
            counted(all.take(i as int)) == bytes,
            counted(all) <= usize::MAX,
        decreases all.len() - i,
    {
        proof {
            assert(all.take(i + 1).drop_last() == all.take(i as int));
            lemma_counted_grows(all, (i + 1) as nat);
        }
        if pending[i].is_err() {
            proof {
                assert(all.take(i + 1).last() == all[i as int]);
                assert(consumed(all.take(i + 1)) is Err);
                lemma_first_error_wins(all, (i + 1) as nat);
            }
            return pending.swap_remove(i);
        }
        let more: usize = match &pending[i] {
            Ok(more) => *more,
            Err(_) => 0,
        };
        bytes = bytes + more;
        i = i + 1;
    }
    proof {
        assert(all.take(i as int) == all);
    }
    Ok(bytes)
}

/// What is counted in a part of the results is counted in all of them.
proof fn lemma_counted_grows(results: Seq<Result<usize, WriteError>>, upto: nat)
    requires
        upto <= results.len(),
    ensures
        counted(results.take(upto as int)) <= counted(results),
    decreases results.len(),
{
    if upto < results.len() {
        assert(results.drop_last().take(upto as int) == results.take(upto as int));
        lemma_counted_grows(results.drop_last(), upto);
        lemma_counted_is_sum(results.drop_last());
    } else {
        assert(results.take(upto as int) == results);
    }
}

/// After an error, nothing more is counted.
proof fn lemma_counted_stops(results: Seq<Result<usize, WriteError>>, upto: nat)
    requires
        upto <= results.len(),
        consumed(results.take(upto as int)) is Err,
    ensures
        counted(results) == counted(results.take(upto as int)),
    decreases results.len(),
{
    if upto < results.len() {
        assert(results.drop_last().take(upto as int) == results.take(upto as int));
        lemma_counted_stops(results.drop_last(), upto);
        lemma_first_error_wins(results.drop_last(), upto);
    } else {
        assert(results.take(upto as int) == results);
    }
}

/// Without an error, everything is counted.
proof fn lemma_counted_is_sum(results: Seq<Result<usize, WriteError>>)
    ensures
        consumed(results) matches Ok(bytes) ==> counted(results) == bytes,
    decreases results.len(),
{
    if results.len() > 0 {
        lemma_counted_is_sum(results.drop_last());
    }
}

/// An error in a part of the results is the error of all of them.
proof fn lemma_first_error_wins(results: Seq<Result<usize, WriteError>>, upto: nat)
    requires
        upto <= results.len(),
        consumed(results.take(upto as int)) is Err,
    ensures
        consumed(results) == consumed(results.take(upto as int)),
    decreases results.len(),
{
    if upto < results.len() {
        assert(results.drop_last().take(upto as int) == results.take(upto as int));
        lemma_first_error_wins(results.drop_last(), upto);
    } else {
        assert(results.take(upto as int) == results);
    }
}

} // verus!
