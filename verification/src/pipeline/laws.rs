//! What holds of every run of the pipeline.
use crate::consumer::{Consumer, ConsumerAction, ConsumerPhase};
use crate::message::Message;
use crate::partition::{is_chunk, is_chunk_start, producer_of_byte};
use crate::pipeline::coverage::{is_covered, lemma_no_byte_twice};
use crate::pipeline::state::{
    by_counted,
    by_flag,
    by_held_buffers,
    by_held_bytes,
    by_kept_buffers,
    by_kept_bytes,
    by_message_buffers,
    by_message_bytes,
    by_message_ends,
    by_progress,
    by_queue,
    carries,
    covers,
    end_follows,
    held_carries,
    is_chunk_of,
    is_end_of,
    kept_carries,
    Pipeline,
    progress,
    Step,
};
use crate::pipeline::steps::{
    lemma_consumer_closes,
    lemma_consumer_returns,
    lemma_consumer_services,
    lemma_consumer_takes,
    lemma_producer_announces,
    lemma_producer_closes,
    lemma_producer_fills,
    lemma_producer_forwards,
    lemma_producer_reports,
    lemma_producer_takes,
};
use crate::producer::{Producer, ProducerPhase};
use crate::total::{lemma_total_at_most, lemma_total_bounds, lemma_total_zero, total};
use crate::write::{consumed, counted, is_seed, ProducerError, WriteError};
use vstd::prelude::*;

verus! {

/// The invariant holds before any worker has taken a step.
pub proof fn lemma_initial_holds(pipeline: Pipeline)
    requires
        pipeline.is_initial(),
    ensures
        pipeline.inv(),
{
    let w = pipeline;
    let n = w.partition.n();
    let p = w.partition.p();
    let k = w.partition.k();
    assert forall|i: int| 0 <= i < w.p() implies #[trigger] w.producer_agrees(i) by {
        crate::partition::lemma_chunk_chain(n, p, k, i as nat, 0);
        crate::partition::lemma_producer_ranges(n, p, i as nat);
        assert(w.producers[i] == Producer::initial(w.partition, i as u64));
    }
    assert forall|x: int| 0 <= x < w.c() implies #[trigger] w.consumer_agrees(x) by {
        assert(w.consumers[x] == Consumer::initial());
    }
    assert forall|i: int, b: int|
        0 <= i < w.p() && 0 <= b < w.producer_queue[i].len() implies w.fits_producer(
        i,
        #[trigger] w.producer_queue[i][b],
    ) by {
        assert(is_seed(w.producer_queue[i][b], w.partition, i as nat, w.num_consumers));
    }
    assert forall|x: int, b: int|
        0 <= x < w.c() && 0 <= b < w.consumer_queue[x].len() implies w.fits_consumer(
        #[trigger] w.consumer_queue[x][b],
    ) by {
        assert(w.consumers[x] == Consumer::initial());
    }
    assert forall|i: int| 0 <= i < w.consumers.len() implies by_counted()(w.consumers[i]) == 0 by {
        assert(w.consumers[i] == Consumer::initial());
    }
    lemma_total_zero(w.consumers, by_counted());
    assert forall|i: int| 0 <= i < w.consumer_queue.len() implies by_queue(by_message_bytes())(
        w.consumer_queue[i],
    ) == 0 by {
        assert(w.consumers[i] == Consumer::initial());
        assert(w.consumer_queue[i].len() == 0);
    }
    lemma_total_zero(w.consumer_queue, by_queue(by_message_bytes()));
    assert forall|i: int| 0 <= i < w.producer_next.len() implies by_held_bytes()(
        w.producer_next[i],
    ) == 0 by {
        assert(w.producers[i] == Producer::initial(w.partition, i as u64));
    }
    lemma_total_zero(w.producer_next, by_held_bytes());
    assert forall|i: int| 0 <= i < w.producers.len() implies by_progress()(w.producers[i])
        == 0 by {
        crate::partition::lemma_chunk_chain(n, p, k, i as nat, 0);
        crate::partition::lemma_producer_ranges(n, p, i as nat);
        assert(w.producers[i] == Producer::initial(w.partition, i as u64));
    }
    lemma_total_zero(w.producers, by_progress());
    assert forall|i: int| 0 <= i < w.producer_queue.len() implies by_queue(by_message_buffers())(
        w.producer_queue[i],
    ) <= w.num_buffers by {
        assert(w.producers[i] == Producer::initial(w.partition, i as u64));
        lemma_total_at_most(w.producer_queue[i], by_message_buffers(), 1);
        assert(w.producer_queue[i].len() * 1 == w.producer_queue[i].len());
    }
    lemma_total_at_most(w.producer_queue, by_queue(by_message_buffers()), w.num_buffers);
    assert forall|i: int| 0 <= i < w.consumer_queue.len() implies by_queue(by_message_buffers())(
        w.consumer_queue[i],
    ) == 0 by {
        assert(w.consumers[i] == Consumer::initial());
    }
    lemma_total_zero(w.consumer_queue, by_queue(by_message_buffers()));
    assert forall|i: int| 0 <= i < w.producer_next.len() implies by_held_buffers()(
        w.producer_next[i],
    ) == 0 by {
        assert(w.producers[i] == Producer::initial(w.partition, i as u64));
    }
    lemma_total_zero(w.producer_next, by_held_buffers());
    assert forall|i: int| 0 <= i < w.consumer_next.len() implies by_kept_buffers()(
        w.consumer_next[i],
    ) == 0 by {
        assert(w.consumers[i] == Consumer::initial());
    }
    lemma_total_zero(w.consumer_next, by_kept_buffers());
    assert forall|x: int| 0 <= x < w.consumer_next.len() implies by_kept_bytes()(
        w.consumer_next[x],
    ) == 0 by {
        assert(w.consumers[x] == Consumer::initial());
    }
    lemma_total_zero(w.consumer_next, by_kept_bytes());
    assert forall|at: int| 0 <= at < w.file.len() implies #[trigger] w.is_settled(at) by {
        crate::partition::lemma_producer_of_byte(n, p, at as nat);
        let owner = producer_of_byte(n, p, at as nat);
        crate::partition::lemma_chunk_chain(n, p, k, owner, 0);
        assert(w.producers[owner as int] == Producer::initial(w.partition, owner as u64));
        assert(w.is_pending(at));
    }
    assert forall|x: int| 0 <= x < w.c() implies #[trigger] w.ends_agree(x) by {
        assert(w.consumers[x] == Consumer::initial());
        assert(w.closed[x].len() == w.p()) by {
            assert(!w.closed[x][0]);
        }
        assert forall|i: int| 0 <= i < w.closed[x].len() implies by_flag()(w.closed[x][i])
            == 0 by {
            assert(!w.closed[x][i]);
        }
        lemma_total_zero(w.closed[x], by_flag());
        lemma_total_zero(w.consumer_queue[x], by_message_ends());
    }
}


/// Every step keeps the invariant.
pub proof fn lemma_step_holds(pipeline: Pipeline, step: Step, next: Pipeline)
    requires
        pipeline.inv(),
        pipeline.steps(step, next),
    ensures
        next.inv(),
{
    match step {
        Step::ProducerTakes { producer } => lemma_producer_takes(pipeline, producer, next),
        Step::ProducerCloses { producer } => lemma_producer_closes(pipeline, producer, next),
        Step::ProducerFills { producer, outcome, filled } => lemma_producer_fills(
            pipeline,
            producer,
            outcome,
            filled,
            next,
        ),
        Step::ProducerForwards { producer, delivered } => lemma_producer_forwards(
            pipeline,
            producer,
            delivered,
            next,
        ),
        Step::ProducerAnnounces { producer, reached } => lemma_producer_announces(
            pipeline,
            producer,
            reached,
            next,
        ),
        Step::ProducerReports { producer, reached } => lemma_producer_reports(
            pipeline,
            producer,
            reached,
            next,
        ),
        Step::ConsumerTakes { consumer } => lemma_consumer_takes(pipeline, consumer, next),
        Step::ConsumerCloses { consumer } => lemma_consumer_closes(pipeline, consumer, next),
        Step::ConsumerServices { consumer, outcome } => lemma_consumer_services(
            pipeline,
            consumer,
            outcome,
            next,
        ),
        Step::ConsumerReturns { consumer, delivered } => lemma_consumer_returns(
            pipeline,
            consumer,
            delivered,
            next,
        ),
    }
}


/// Whether `states` are the states of a run that takes `steps`: the first
/// state is initial, and every step leads from one state to the next.
pub open spec fn is_run(states: Seq<Pipeline>, steps: Seq<Step>) -> bool {
    &&& states.len() == steps.len() + 1
    &&& states[0].is_initial()
    &&& forall|t: int|
        0 <= t < steps.len() ==> (#[trigger] states[t]).steps(steps[t], states[t + 1])
}

/// Every state of every run satisfies the invariant, and every step of
/// every run is allowed: whatever order the workers run in, no worker's
/// function is called on arguments that it does not accept.
pub proof fn lemma_run_holds(states: Seq<Pipeline>, steps: Seq<Step>, t: int)
    requires
        is_run(states, steps),
        0 <= t < states.len(),
    ensures
        states[t].inv(),
        t < steps.len() ==> is_allowed(states[t], steps[t]),
    decreases t,
{
    if t == 0 {
        lemma_initial_holds(states[0]);
    } else {
        lemma_run_holds(states, steps, t - 1);
        assert(states[t - 1].steps(steps[t - 1], states[t - 1 + 1]));
        lemma_step_holds(states[t - 1], steps[t - 1], states[t]);
    }
    if t < steps.len() {
        assert(states[t].steps(steps[t], states[t + 1]));
        lemma_step_is_allowed(states[t], steps[t], states[t + 1]);
    }
}

/// Flags that count as many as there are, are all set.
proof fn lemma_all_set(flags: Seq<bool>, i: int)
    requires
        total(flags, by_flag()) >= flags.len(),
        0 <= i < flags.len(),
    ensures
        flags[i],
    decreases flags.len(),
{
    lemma_total_at_most(flags.drop_last(), by_flag(), 1);
    assert((flags.len() - 1) * 1 == flags.len() - 1) by (nonlinear_arith);
    if i < flags.len() - 1 {
        lemma_all_set(flags.drop_last(), i);
    }
}

/// Producers that have all finished their ranges have handed on the whole
/// file.
proof fn lemma_produced_all(w: Pipeline, q: nat)
    requires
        w.inv(),
        q <= w.p(),
        forall|i: int| 0 <= i < w.p() ==> (#[trigger] w.producers[i]).offset == w.producers[i].end_offset,
    ensures
        total(w.producers.take(q as int), by_progress()) == crate::accounting::file_bytes(
            w.partition.n(),
            w.partition.p(),
            w.partition.k(),
            q,
        ),
    decreases q,
{
    let n = w.partition.n();
    let p = w.partition.p();
    let k = w.partition.k();
    if q > 0 {
        let i = (q - 1) as nat;
        lemma_produced_all(w, i);
        assert(w.producers.take(q as int).drop_last() == w.producers.take(i as int));
        assert(w.producers.take(q as int).last() == w.producers[i as int]);
        assert(w.producer_agrees(i as int));
        crate::accounting::lemma_range_bytes(n, p, k, i, k);
        crate::partition::lemma_producer_ranges(n, p, i);
    }
}

/// The results of the first `y` consumers, all of which have returned
/// their byte count, combine to the bytes that they have counted.
proof fn lemma_results_counted(w: Pipeline, y: nat)
    requires
        w.inv(),
        y <= w.c(),
        forall|x: int|
            0 <= x < w.c() ==> (#[trigger] w.consumer_next[x]) == ConsumerAction::Exit(
                Ok(w.consumers[x].bytes),
            ),
    ensures
        consumed(w.results().take(y as int)) == Ok::<nat, WriteError>(
            total(w.consumers.take(y as int), by_counted()),
        ),
        counted(w.results().take(y as int)) == total(w.consumers.take(y as int), by_counted()),
    decreases y,
{
    if y > 0 {
        let x = (y - 1) as int;
        lemma_results_counted(w, x as nat);
        assert(w.results().take(y as int).drop_last() == w.results().take(x));
        assert(w.results().take(y as int).last() == w.consumer_next[x]->Exit_0);
        assert(w.consumers.take(y as int).drop_last() == w.consumers.take(x));
        assert(w.consumers.take(y as int).last() == w.consumers[x]);
    }
}

/// Coverage, byte accounting and contents: once every consumer has stopped
/// after counting the ends of all producers, every byte of the file lies in
/// a chunk that was serviced, the serviced chunks are as long together as
/// the file, no byte is under way any more, the results of the consumers
/// combine to the length of the file, and the file holds, byte for byte,
/// what the producer callback wrote.
pub proof fn lemma_complete_run(pipeline: Pipeline)
    requires
        pipeline.inv(),
        pipeline.is_complete(),
    ensures
        forall|at: int| 0 <= at < pipeline.partition.total_size ==> pipeline.is_logged(at),
        pipeline.serviced_bytes() == pipeline.partition.total_size,
        pipeline.file == pipeline.source,
        pipeline.counted_bytes() == pipeline.partition.total_size,
        pipeline.waiting_bytes() == 0,
        pipeline.leaving_bytes() == 0,
        pipeline.lost == 0,
        counted(pipeline.results()) <= usize::MAX,
        consumed(pipeline.results()) == Ok::<nat, WriteError>(pipeline.partition.total_size as nat),
{
    let w = pipeline;
    let n = w.partition.n();
    let p = w.partition.p();
    let k = w.partition.k();
    assert forall|x: int, i: int| 0 <= x < w.c() && 0 <= i < w.p() implies w.closed[x][i]
        && total(w.consumer_queue[x], by_message_ends()) == 0 by {
        assert(w.consumer_next[x] is Exit);
        assert(w.ends_agree(x));
        lemma_total_at_most(w.closed[x], by_flag(), 1);
        assert(w.closed[x].len() * 1 == w.closed[x].len()) by (nonlinear_arith);
        lemma_all_set(w.closed[x], i);
    }
    assert forall|i: int| 0 <= i < w.p() implies (#[trigger] w.producers[i]).offset
        == w.producers[i].end_offset && w.producers[i].phase == ProducerPhase::Done by {
        assert(w.ends_agree(0));
        assert(w.closed[0][i]);
    }
    lemma_produced_all(w, p);
    assert(w.producers.take(p as int) == w.producers);
    crate::accounting::lemma_file_bytes(n, p, k, p);
    assert forall|i: int| 0 <= i < w.producer_next.len() implies by_held_bytes()(
        w.producer_next[i],
    ) == 0 by {
        assert(w.producer_agrees(i));
        assert(w.producers[i].phase == ProducerPhase::Done);
    }
    lemma_total_zero(w.producer_next, by_held_bytes());
    assert(!w.has_failed());
    assert forall|x: int| 0 <= x < w.consumer_queue.len() implies by_queue(by_message_bytes())(
        w.consumer_queue[x],
    ) == 0 by {
        let queue = w.consumer_queue[x];
        assert(w.ends_agree(x));
        assert forall|b: int| 0 <= b < queue.len() implies by_message_bytes()(queue[b]) == 0
            && !(#[trigger] queue[b] is Consume) by {
            if queue[b] is Consume {
                assert(w.fits_consumer(queue[b]));
                let i = queue[b]->Consume_0.producer as int;
                assert(w.closed[x][i]);
                assert(is_chunk_of(queue[b], i));
                assert(end_follows(queue, b, i));
                let e = choose|e: int| b < e < queue.len() && is_end_of(#[trigger] queue[e], i);
                lemma_total_bounds(queue, by_message_ends(), e);
            }
        }
        lemma_total_zero(queue, by_message_bytes());
    }
    lemma_total_zero(w.consumer_queue, by_queue(by_message_bytes()));
    assert forall|x: int| 0 <= x < w.c() implies (#[trigger] w.consumer_next[x])
        == ConsumerAction::Exit(Ok(w.consumers[x].bytes)) by {
        assert(w.consumer_agrees(x));
    }
    lemma_results_counted(w, w.c());
    assert(w.results().take(w.c() as int) == w.results());
    assert(w.consumers.take(w.c() as int) == w.consumers);
    assert(!w.has_failed_consumer()) by {
        assert forall|x: int| 0 <= x < w.c() implies (#[trigger] w.consumers[x]).phase
            != ConsumerPhase::Failed by {
            assert(w.consumer_agrees(x));
            assert(w.consumer_next[x] is Exit);
        }
    }
    assert forall|x: int| 0 <= x < w.consumer_next.len() implies by_kept_bytes()(
        w.consumer_next[x],
    ) == 0 by {
        assert(w.consumer_next[x] is Exit);
    }
    lemma_total_zero(w.consumer_next, by_kept_bytes());
    assert forall|at: int|
        #![trigger w.file[at]]
        #![trigger w.is_logged(at)]
        0 <= at < w.file.len() implies w.file[at] == w.source[at] && w.is_logged(at) by {
        assert(w.is_settled(at));
        crate::partition::lemma_producer_of_byte(n, p, at as nat);
        let owner = producer_of_byte(n, p, at as nat) as int;
        assert(w.producer_agrees(owner));
        assert(!w.is_pending(at));
        assert(!w.is_leaving(at)) by {
            assert forall|i: int| 0 <= i < w.p() implies !held_carries(
                #[trigger] w.producer_next[i],
                at,
            ) by {
                assert(w.producer_agrees(i));
                assert(w.producers[i].phase == ProducerPhase::Done);
            }
        }
        assert(!w.is_waiting(at)) by {
            assert forall|x: int, b: int|
                0 <= x < w.c() && 0 <= b < w.consumer_queue[x].len() implies !carries(
                #[trigger] w.consumer_queue[x][b],
                at,
            ) by {
                assert(by_queue(by_message_bytes())(w.consumer_queue[x]) == 0);
                lemma_total_bounds(w.consumer_queue[x], by_message_bytes(), b);
            }
        }
        assert(!w.is_serviced(at)) by {
            assert forall|x: int| 0 <= x < w.c() implies !kept_carries(
                #[trigger] w.consumer_next[x],
                at,
            ) by {
                assert(w.consumer_next[x] is Exit);
            }
        }
        assert(w.is_logged(at));
        let e = choose|e: int| 0 <= e < w.serviced.len() && covers(#[trigger] w.serviced[e], at);
        assert(w.file[at] == w.source[at]);
    }
    assert(w.file =~= w.source);
}


/// The error that results combine to is one of them.
proof fn lemma_consumed_error(results: Seq<Result<usize, WriteError>>) -> (x: int)
    requires
        consumed(results) is Err,
    ensures
        0 <= x < results.len(),
        results[x] is Err,
        results[x]->Err_0 == consumed(results)->Err_0,
    decreases results.len(),
{
    if consumed(results.drop_last()) is Err {
        lemma_consumed_error(results.drop_last())
    } else {
        results.len() - 1
    }
}

/// Error propagation: once every consumer has stopped, a producer error
/// that their results combine to is one that a producer callback failed
/// with, and the offset it names is where the chunk starts that the callback
/// was to fill.
pub proof fn lemma_error_propagation(pipeline: Pipeline, error: ProducerError)
    requires
        pipeline.inv(),
        forall|x: int| 0 <= x < pipeline.c() ==> (#[trigger] pipeline.consumer_next[x]) is Exit,
        consumed(pipeline.results()) == Err::<nat, WriteError>(WriteError::Producer(error)),
    ensures
        pipeline.failures.contains(error),
        is_chunk_start(
            pipeline.partition.n(),
            pipeline.partition.p(),
            pipeline.partition.k(),
            error.offset as nat,
        ),
{
    let x = lemma_consumed_error(pipeline.results());
    assert(pipeline.consumer_agrees(x));
    assert(pipeline.consumer_next[x] is Exit);
}

/// No cross-producer buffer migration: every buffer that waits for a
/// producer, and every buffer that is about to return to one, belongs to
/// that producer.
pub proof fn lemma_buffers_stay_home(pipeline: Pipeline)
    requires
        pipeline.inv(),
    ensures
        forall|i: int, b: int|
            0 <= i < pipeline.p() && 0 <= b < pipeline.producer_queue[i].len() ==> (
            #[trigger] pipeline.producer_queue[i][b] matches Message::Produce(config, _)
                && config.producer == i),
        forall|x: int|
            0 <= x < pipeline.c() ==> ((#[trigger] pipeline.consumer_next[x]) matches ConsumerAction::Return {
                producer,
                message,
            } ==> message matches Message::Produce(config, _) && config.producer == producer),
{
    assert forall|i: int, b: int|
        0 <= i < pipeline.p() && 0 <= b < pipeline.producer_queue[i].len() implies (
    #[trigger] pipeline.producer_queue[i][b] matches Message::Produce(config, _) && config.producer
        == i) by {
        assert(pipeline.fits_producer(i, pipeline.producer_queue[i][b]));
    }
    assert forall|x: int| 0 <= x < pipeline.c() implies ((
    #[trigger] pipeline.consumer_next[x]) matches ConsumerAction::Return { producer, message }
        ==> message matches Message::Produce(config, _) && config.producer == producer) by {
        assert(pipeline.consumer_agrees(x));
    }
}

/// Memory bound: at no moment are there more buffers than the producers
/// were seeded with, and every buffer that waits in a queue has the room
/// that the pool was created with.
pub proof fn lemma_pool_bounded(pipeline: Pipeline)
    requires
        pipeline.inv(),
    ensures
        pipeline.pool() <= pipeline.p() * pipeline.num_buffers,
        forall|i: int, b: int|
            0 <= i < pipeline.p() && 0 <= b < pipeline.producer_queue[i].len() ==> (
            #[trigger] pipeline.producer_queue[i][b] matches Message::Produce(_, buffer)
                && buffer.reserved == pipeline.room()),
        forall|x: int, b: int|
            0 <= x < pipeline.c() && 0 <= b < pipeline.consumer_queue[x].len() ==> (
            #[trigger] pipeline.consumer_queue[x][b] matches Message::Consume(_, buffer)
                ==> buffer.reserved == pipeline.room()),
{
    assert forall|i: int, b: int|
        0 <= i < pipeline.p() && 0 <= b < pipeline.producer_queue[i].len() implies (
    #[trigger] pipeline.producer_queue[i][b] matches Message::Produce(_, buffer) && buffer.reserved
        == pipeline.room()) by {
        assert(pipeline.fits_producer(i, pipeline.producer_queue[i][b]));
    }
    assert forall|x: int, b: int|
        0 <= x < pipeline.c() && 0 <= b < pipeline.consumer_queue[x].len() implies (
    #[trigger] pipeline.consumer_queue[x][b] matches Message::Consume(_, buffer)
        ==> buffer.reserved == pipeline.room()) by {
        assert(pipeline.fits_consumer(pipeline.consumer_queue[x][b]));
    }
}

/// What the function that a step calls asks of its caller.
pub open spec fn is_allowed(pipeline: Pipeline, step: Step) -> bool {
    match step {
        Step::ProducerTakes { producer: i } => pipeline.producers[i].may_receive(
            Some(pipeline.producer_queue[i][0]),
        ),
        Step::ProducerCloses { producer: i } => pipeline.producers[i].may_receive(None),
        Step::ProducerFills { producer: i, outcome, filled } => pipeline.producers[i].may_fill(
            outcome,
            filled,
        ),
        Step::ProducerForwards { producer: i, .. } => pipeline.producers[i].may_forward(),
        Step::ProducerAnnounces { producer: i, .. } => pipeline.producers[i].may_drain(),
        Step::ProducerReports { .. } => true,
        Step::ConsumerTakes { consumer: x } => pipeline.consumers[x].may_receive(
            Some(pipeline.consumer_queue[x][0]),
        ),
        Step::ConsumerCloses { consumer: x } => pipeline.consumers[x].may_receive(None),
        Step::ConsumerServices { consumer: x, .. } => pipeline.consumers[x].phase
            == ConsumerPhase::Servicing,
        Step::ConsumerReturns { .. } => true,
    }
}

/// At every step of a run, the caller of the worker that takes the step has
/// met what the worker's function asks for: no message arrives that the
/// worker cannot take, no buffer is too small for its chunk, and no count
/// overflows.
pub proof fn lemma_step_is_allowed(pipeline: Pipeline, step: Step, next: Pipeline)
    requires
        pipeline.inv(),
        pipeline.steps(step, next),
    ensures
        is_allowed(pipeline, step),
{
    match step {
        Step::ProducerTakes { producer } => lemma_producer_takes(pipeline, producer, next),
        Step::ProducerCloses { producer } => lemma_producer_closes(pipeline, producer, next),
        Step::ProducerFills { producer, outcome, filled } => lemma_producer_fills(
            pipeline,
            producer,
            outcome,
            filled,
            next,
        ),
        Step::ProducerForwards { producer, delivered } => lemma_producer_forwards(
            pipeline,
            producer,
            delivered,
            next,
        ),
        Step::ProducerAnnounces { producer, reached } => lemma_producer_announces(
            pipeline,
            producer,
            reached,
            next,
        ),
        Step::ProducerReports { .. } => {},
        Step::ConsumerTakes { consumer } => lemma_consumer_takes(pipeline, consumer, next),
        Step::ConsumerCloses { consumer } => lemma_consumer_closes(pipeline, consumer, next),
        Step::ConsumerServices { consumer, outcome } => lemma_consumer_services(
            pipeline,
            consumer,
            outcome,
            next,
        ),
        Step::ConsumerReturns { .. } => {},
    }
}



/// Coverage: every filled buffer that waits for a consumer, and every buffer
/// that a consumer services, holds one chunk of the partition, at the offset
/// and with the length that the partition gives it, and with the bytes that
/// belong there.
pub proof fn lemma_buffers_hold_chunks(pipeline: Pipeline)
    requires
        pipeline.inv(),
    ensures
        forall|x: int, b: int|
            0 <= x < pipeline.c() && 0 <= b < pipeline.consumer_queue[x].len() ==> (
            #[trigger] pipeline.consumer_queue[x][b] matches Message::Consume(config, buffer)
                ==> pipeline.holds_chunk(config, buffer)),
        forall|x: int|
            0 <= x < pipeline.c() ==> ((#[trigger] pipeline.consumer_next[x]) matches ConsumerAction::Service {
                config,
                buffer,
            } ==> pipeline.holds_chunk(config, buffer)),
{
    assert forall|x: int, b: int|
        0 <= x < pipeline.c() && 0 <= b < pipeline.consumer_queue[x].len() implies (
    #[trigger] pipeline.consumer_queue[x][b] matches Message::Consume(config, buffer)
        ==> pipeline.holds_chunk(config, buffer)) by {
        assert(pipeline.fits_consumer(pipeline.consumer_queue[x][b]));
    }
    assert forall|x: int| 0 <= x < pipeline.c() implies ((
    #[trigger] pipeline.consumer_next[x]) matches ConsumerAction::Service { config, buffer }
        ==> pipeline.holds_chunk(config, buffer)) by {
        assert(pipeline.consumer_agrees(x));
    }
}


/// Every chunk that was serviced is a chunk of the partition that holds
/// bytes, and the file holds the bytes of the source in it.
pub proof fn lemma_serviced_chunks(pipeline: Pipeline, e: int)
    requires
        pipeline.inv(),
        0 <= e < pipeline.serviced.len(),
    ensures
        is_chunk(
            pipeline.partition.n(),
            pipeline.partition.p(),
            pipeline.partition.k(),
            pipeline.serviced[e].0 as nat,
            pipeline.serviced[e].1,
        ),
        forall|at: int|
            covers(pipeline.serviced[e], at) ==> 0 <= at < pipeline.file.len() && pipeline.file[at]
                == #[trigger] pipeline.source[at],
{
}


/// Read coverage: once every consumer has stopped after counting the ends of
/// all producers, the chunks that were serviced cover the file exactly once:
/// every byte lies in one of them, and no byte lies in two.
pub proof fn lemma_serviced_once(pipeline: Pipeline, at: int, e1: int, e2: int)
    requires
        pipeline.inv(),
        pipeline.is_complete(),
        0 <= e1 < pipeline.serviced.len(),
        0 <= e2 < pipeline.serviced.len(),
        covers(pipeline.serviced[e1], at),
        covers(pipeline.serviced[e2], at),
    ensures
        e1 == e2,
{
    let w = pipeline;
    let n = w.partition.n();
    lemma_complete_run(w);
    assert forall|e: int| 0 <= e < w.serviced.len() implies (#[trigger] w.serviced[e]).0
        + w.serviced[e].1 <= n by {
        lemma_serviced_chunks(w, e);
        let last = w.serviced[e].0 + w.serviced[e].1 - 1;
        assert(covers(w.serviced[e], last));
        assert(w.file[last] == w.source[last]);
    }
    assert forall|a: int| 0 <= a < n implies #[trigger] is_covered(w.serviced, a) by {
        assert(w.is_logged(a));
    }
    lemma_no_byte_twice(w.serviced, n, at, e1, e2);
}


/// Termination protocol: a consumer that has counted as many ends as there
/// are producers has taken the end of every producer, each producer whose
/// end it has taken has handed on its whole range and is finished, and no
/// filled buffer waits for the consumer any more.
pub proof fn lemma_ends_are_final(pipeline: Pipeline, x: int, i: int)
    requires
        pipeline.inv(),
        0 <= x < pipeline.c(),
        0 <= i < pipeline.p(),
        pipeline.consumers[x].end_count >= pipeline.partition.num_producers,
    ensures
        pipeline.closed[x][i],
        pipeline.producers[i].phase == ProducerPhase::Done,
        progress(pipeline.producers[i]) == crate::partition::producer_share(
            pipeline.partition.n(),
            pipeline.partition.p(),
            i as nat,
        ),
        forall|b: int|
            0 <= b < pipeline.consumer_queue[x].len() ==> !(
            #[trigger] pipeline.consumer_queue[x][b] is Consume),
{
    let w = pipeline;
    let queue = w.consumer_queue[x];
    assert(w.ends_agree(x));
    lemma_total_at_most(w.closed[x], by_flag(), 1);
    assert(w.closed[x].len() * 1 == w.closed[x].len()) by (nonlinear_arith);
    lemma_all_set(w.closed[x], i);
    assert(w.producer_agrees(i));
    crate::partition::lemma_producer_ranges(w.partition.n(), w.partition.p(), i as nat);
    assert forall|b: int| 0 <= b < queue.len() implies !(#[trigger] queue[b] is Consume) by {
        if queue[b] is Consume {
            assert(w.fits_consumer(queue[b]));
            let owner = queue[b]->Consume_0.producer as int;
            lemma_all_set(w.closed[x], owner);
            assert(is_chunk_of(queue[b], owner));
            assert(end_follows(queue, b, owner));
            let e = choose|e: int| b < e < queue.len() && is_end_of(#[trigger] queue[e], owner);
            lemma_total_bounds(queue, by_message_ends(), e);
        }
    }
}

} // verus!
