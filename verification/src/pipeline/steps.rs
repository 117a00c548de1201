//! Every kind of step keeps the invariant, and is taken only when the
//! function that it calls may be called.
use crate::consumer::ConsumerPhase;
use crate::message::{Buffer, Config, Message};
use crate::partition::{chunk_len, chunk_offset, is_chunk, producer_of_byte};
use crate::pipeline::state::{
    broadcast,
    by_counted,
    by_flag,
    by_held_buffers,
    by_held_bytes,
    by_kept_buffers,
    by_kept_bytes,
    by_length,
    by_message_buffers,
    by_message_bytes,
    by_message_ends,
    by_progress,
    by_queue,
    carries,
    covers,
    end_follows,
    has_grown,
    held_buffers,
    held_bytes,
    held_carries,
    is_chunk_of,
    is_end_of,
    is_slice_of,
    kept_buffers,
    kept_bytes,
    kept_carries,
    message_buffers,
    message_bytes,
    message_ends,
    Pipeline,
    progress,
    Step,
};
use crate::producer::ProducerPhase;
use crate::total::{
    lemma_total_bounds,
    lemma_total_drop_first,
    lemma_total_push,
    lemma_total_same,
    lemma_total_update,
    total,
};
use crate::write::WriteError;
use vstd::prelude::*;

verus! {

/// What follows a message still follows it after one more message.
proof fn lemma_end_follows_push(queue: Seq<Message>, message: Message, at: int, i: int)
    requires
        0 <= at,
        end_follows(queue, at, i),
    ensures
        end_follows(queue.push(message), at, i),
{
    let e = choose|e: int| at < e < queue.len() && is_end_of(#[trigger] queue[e], i);
    assert(is_end_of(queue.push(message)[e], i));
}

/// What follows a message still follows it after the head was taken.
proof fn lemma_end_follows_drop_first(queue: Seq<Message>, at: int, i: int)
    requires
        0 <= at,
        end_follows(queue, at + 1, i),
    ensures
        end_follows(queue.drop_first(), at, i),
{
    let e = choose|e: int| at + 1 < e < queue.len() && is_end_of(#[trigger] queue[e], i);
    assert(is_end_of(queue.drop_first()[e - 1], i));
}

/// After one more message that is no buffer of a producer whose end was
/// sent, the ends of a consumer's queue agree as before.
proof fn lemma_ends_agree_push(w: Pipeline, x: int, message: Message, w2: Pipeline)
    requires
        w.inv(),
        0 <= x < w.c(),
        w2.partition == w.partition,
        w2.closed[x] == w.closed[x],
        w2.consumers[x].end_count == w.consumers[x].end_count,
        w2.consumer_queue[x] == w.consumer_queue[x].push(message),
        message_ends(message) == 0,
        forall|i: int| 0 <= i < w.p() && w.closed[x][i] ==> !is_chunk_of(message, i),
        forall|i: int|
            #![trigger w.closed[x][i]]
            0 <= i < w.p() && w.closed[x][i] ==> w2.producers[i] == w.producers[i],
    ensures
        w2.ends_agree(x),
{
    assert(w.ends_agree(x));
    lemma_total_push(w.consumer_queue[x], by_message_ends(), message);
    assert forall|i: int, b: int|
        0 <= i < w2.p() && w2.closed[x][i] && 0 <= b < w2.consumer_queue[x].len()
            && #[trigger] is_chunk_of(w2.consumer_queue[x][b], i) implies end_follows(
        w2.consumer_queue[x],
        b,
        i,
    ) by {
        assert(b < w.consumer_queue[x].len());
        assert(is_chunk_of(w.consumer_queue[x][b], i));
        lemma_end_follows_push(w.consumer_queue[x], message, b, i);
    }
}

/// Where neither a consumer's queue nor the ends sent to it have changed,
/// its ends agree as before.
proof fn lemma_ends_agree_kept(w: Pipeline, x: int, w2: Pipeline)
    requires
        w.inv(),
        0 <= x < w.c(),
        w2.partition == w.partition,
        w2.closed[x] == w.closed[x],
        w2.consumers[x].end_count == w.consumers[x].end_count,
        w2.consumer_queue[x] == w.consumer_queue[x],
        forall|i: int|
            #![trigger w.closed[x][i]]
            0 <= i < w.p() && w.closed[x][i] ==> w2.producers[i] == w.producers[i],
    ensures
        w2.ends_agree(x),
{
    assert(w.ends_agree(x));
    assert forall|i: int, b: int|
        0 <= i < w2.p() && w2.closed[x][i] && 0 <= b < w2.consumer_queue[x].len()
            && #[trigger] is_chunk_of(w2.consumer_queue[x][b], i) implies end_follows(
        w2.consumer_queue[x],
        b,
        i,
    ) by {
        assert(is_chunk_of(w.consumer_queue[x][b], i));
    }
}

/// A producer that has failed stays failed.
proof fn lemma_failed_kept(w: Pipeline, w2: Pipeline)
    requires
        w.has_failed(),
        w2.partition == w.partition,
        w2.producers.len() == w.producers.len(),
        forall|i: int|
            0 <= i < w.p() && (#[trigger] w.producers[i]).phase == ProducerPhase::Failed
                ==> w2.producers[i].phase == ProducerPhase::Failed,
    ensures
        w2.has_failed(),
{
    let i = choose|i: int|
        0 <= i < w.p() && (#[trigger] w.producers[i]).phase == ProducerPhase::Failed;
    assert(w2.producers[i].phase == ProducerPhase::Failed);
}

/// A byte that waits in a queue still waits there when the queues have only
/// grown at their ends.
proof fn lemma_waiting_kept(w: Pipeline, w2: Pipeline, at: int)
    requires
        w.is_waiting(at),
        w2.num_consumers == w.num_consumers,
        forall|x: int|
            0 <= x < w.c() ==> has_grown(#[trigger] w.consumer_queue[x], w2.consumer_queue[x]),
    ensures
        w2.is_waiting(at),
{
    let (x, b) = choose|x: int, b: int|
        0 <= x < w.c() && 0 <= b < w.consumer_queue[x].len() && carries(
            #[trigger] w.consumer_queue[x][b],
            at,
        );
    assert(has_grown(w.consumer_queue[x], w2.consumer_queue[x]));
    assert(carries(w2.consumer_queue[x][b], at));
}

/// A byte that waits in a queue still waits there after the head of a
/// queue was taken, unless it was in that head.
proof fn lemma_waiting_taken(w: Pipeline, x: int, w2: Pipeline, at: int)
    requires
        w.is_waiting(at),
        0 <= x < w.c(),
        w.consumer_queue.len() == w.c(),
        w.consumer_queue[x].len() > 0,
        w2.num_consumers == w.num_consumers,
        w2.consumer_queue == w.consumer_queue.update(x, w.consumer_queue[x].drop_first()),
    ensures
        w2.is_waiting(at) || carries(w.consumer_queue[x][0], at),
{
    let (y, b) = choose|y: int, b: int|
        0 <= y < w.c() && 0 <= b < w.consumer_queue[y].len() && carries(
            #[trigger] w.consumer_queue[y][b],
            at,
        );
    if y == x {
        if b > 0 {
            assert(carries(w2.consumer_queue[x][b - 1], at));
        }
    } else {
        assert(carries(w2.consumer_queue[y][b], at));
    }
}

/// A byte that is about to be sent is still about to be sent after a step
/// of a producer that does not hold it.
proof fn lemma_leaving_kept(w: Pipeline, i: int, w2: Pipeline, at: int)
    requires
        w.is_leaving(at),
        0 <= i < w.p(),
        w.producer_next.len() == w.p(),
        w2.partition == w.partition,
        w2.producer_next == w.producer_next.update(i, w2.producer_next[i]),
        !held_carries(w.producer_next[i], at),
    ensures
        w2.is_leaving(at),
{
    let j = choose|j: int| 0 <= j < w.p() && held_carries(#[trigger] w.producer_next[j], at);
    assert(held_carries(w2.producer_next[j], at));
}

/// A byte that is being serviced is still being serviced after a step of a
/// consumer that does not hold it.
proof fn lemma_serviced_kept(w: Pipeline, x: int, w2: Pipeline, at: int)
    requires
        w.is_serviced(at),
        0 <= x < w.c(),
        w.consumer_next.len() == w.c(),
        w2.num_consumers == w.num_consumers,
        w2.consumer_next == w.consumer_next.update(x, w2.consumer_next[x]),
        !kept_carries(w.consumer_next[x], at),
    ensures
        w2.is_serviced(at),
{
    let y = choose|y: int| 0 <= y < w.c() && kept_carries(#[trigger] w.consumer_next[y], at);
    assert(kept_carries(w2.consumer_next[y], at));
}

/// A consumer that has failed stays failed.
proof fn lemma_failed_consumer_kept(w: Pipeline, w2: Pipeline)
    requires
        w.has_failed_consumer(),
        w2.num_consumers == w.num_consumers,
        forall|x: int|
            0 <= x < w.c() && (#[trigger] w.consumers[x]).phase == ConsumerPhase::Failed
                ==> w2.consumers[x].phase == ConsumerPhase::Failed,
    ensures
        w2.has_failed_consumer(),
{
    let x = choose|x: int|
        0 <= x < w.c() && (#[trigger] w.consumers[x]).phase == ConsumerPhase::Failed;
    assert(w2.consumers[x].phase == ConsumerPhase::Failed);
}

/// After a step of producer `i`, a byte that was accounted for still is:
/// what was pending is pending or about to be sent, what was about to be
/// sent is so still or waits in a queue, and the rest is as it was.
proof fn lemma_settled_after_producer(w: Pipeline, i: int, w2: Pipeline, at: int)
    requires
        w.is_whole(),
        w.partition.wf(),
        0 <= at < w.file.len(),
        w.is_settled(at),
        w.producer_moves(i, w2),
        w.producers[i].phase != ProducerPhase::Failed,
        w2.producers[i].partition == w.producers[i].partition,
        w2.producers[i].id == w.producers[i].id,
        forall|x: int|
            0 <= x < w.c() ==> has_grown(#[trigger] w.consumer_queue[x], w2.consumer_queue[x]),
        w2.producers[i].phase != ProducerPhase::Failed ==> {
            &&& w.producers[i].offset <= w2.producers[i].offset
            &&& w.producers[i].offset <= at < w2.producers[i].offset ==> held_carries(
                w2.producer_next[i],
                at,
            )
            &&& held_carries(w.producer_next[i], at) ==> held_carries(w2.producer_next[i], at)
                || w2.is_waiting(at)
        },
    ensures
        w2.is_settled(at),
{
    if w.is_logged(at) {
        let e = choose|e: int| 0 <= e < w.serviced.len() && covers(#[trigger] w.serviced[e], at);
        assert(covers(w2.serviced[e], at));
    } else if w2.producers[i].phase == ProducerPhase::Failed {
        assert(w2.has_failed());
    } else if w.has_failed() {
        lemma_failed_kept(w, w2);
    } else if w.has_failed_consumer() {
        lemma_failed_consumer_kept(w, w2);
    } else if w.is_serviced(at) {
        let y = choose|y: int| 0 <= y < w.c() && kept_carries(#[trigger] w.consumer_next[y], at);
        assert(kept_carries(w2.consumer_next[y], at));
        assert(w2.is_serviced(at));
    } else if w.is_waiting(at) {
        lemma_waiting_kept(w, w2, at);
    } else if w.is_leaving(at) {
        if held_carries(w.producer_next[i], at) {
            if held_carries(w2.producer_next[i], at) {
                assert(w2.is_leaving(at));
            } else {
                assert(w2.is_waiting(at));
            }
        } else {
            lemma_leaving_kept(w, i, w2, at);
        }
    } else {
        assert(w.is_pending(at));
        let owner = producer_of_byte(w.partition.n(), w.partition.p(), at as nat) as int;
        crate::partition::lemma_producer_of_byte(w.partition.n(), w.partition.p(), at as nat);
        if owner == i {
            if at < w2.producers[i].offset {
                assert(held_carries(w2.producer_next[i], at));
                assert(w2.is_leaving(at));
            } else {
                assert(w2.is_pending(at));
            }
        } else {
            assert(w2.producers[owner] == w.producers[owner]);
            assert(w2.is_pending(at));
        }
    }
}

/// After a step of consumer `x` that leaves the file as it is, a byte that
/// was accounted for still is.
proof fn lemma_settled_after_consumer(w: Pipeline, x: int, w2: Pipeline, at: int)
    requires
        w.is_whole(),
        0 <= at < w.file.len(),
        w.is_settled(at),
        w.consumer_moves(x, w2),
        w.consumers[x].phase != ConsumerPhase::Failed,
        w.serviced.len() <= w2.serviced.len(),
        forall|e: int| 0 <= e < w.serviced.len() ==> w2.serviced[e] == #[trigger] w.serviced[e],
        w2.consumer_queue == w.consumer_queue || (w.consumer_queue[x].len() > 0
            && w2.consumer_queue == w.consumer_queue.update(
            x,
            w.consumer_queue[x].drop_first(),
        )),
        w2.consumers[x].phase != ConsumerPhase::Failed ==> {
            &&& w2.consumer_queue != w.consumer_queue && carries(w.consumer_queue[x][0], at)
                ==> kept_carries(w2.consumer_next[x], at)
            &&& kept_carries(w.consumer_next[x], at) ==> kept_carries(w2.consumer_next[x], at)
                || (w2.serviced.len() > 0 && covers(w2.serviced.last(), at))
        },
    ensures
        w2.is_settled(at),
{
    if w.is_logged(at) {
        let e = choose|e: int| 0 <= e < w.serviced.len() && covers(#[trigger] w.serviced[e], at);
        assert(w2.serviced[e] == w.serviced[e]);
        assert(covers(w2.serviced[e], at));
    } else if w2.consumers[x].phase == ConsumerPhase::Failed {
        assert(w2.has_failed_consumer());
    } else if w.has_failed() {
        lemma_failed_kept(w, w2);
    } else if w.has_failed_consumer() {
        lemma_failed_consumer_kept(w, w2);
    } else if w.is_serviced(at) {
        if kept_carries(w.consumer_next[x], at) {
            if kept_carries(w2.consumer_next[x], at) {
                assert(w2.is_serviced(at));
            } else {
                assert(covers(w2.serviced[w2.serviced.len() - 1], at));
                assert(w2.is_logged(at));
            }
        } else {
            lemma_serviced_kept(w, x, w2, at);
        }
    } else if w.is_waiting(at) {
        if w2.consumer_queue == w.consumer_queue {
            lemma_waiting_kept(w, w2, at);
        } else {
            lemma_waiting_taken(w, x, w2, at);
            if carries(w.consumer_queue[x][0], at) {
                assert(kept_carries(w2.consumer_next[x], at));
            }
        }
    } else if w.is_leaving(at) {
        let j = choose|j: int| 0 <= j < w.p() && held_carries(#[trigger] w.producer_next[j], at);
        assert(held_carries(w2.producer_next[j], at));
    } else if w.is_pending(at) {
    }
}

/// A step of producer `i` leaves the other workers as they are.
proof fn lemma_producer_moves(w: Pipeline, i: int, w2: Pipeline)
    requires
        w.inv(),
        w.producer_moves(i, w2),
        w.failures.subset_of(w2.failures),
    ensures
        w2.producers.len() == w.producers.len(),
        w2.producer_next.len() == w.producer_next.len(),
        forall|j: int| 0 <= j < w.p() && j != i ==> #[trigger] w2.producer_agrees(j),
        forall|x: int| 0 <= x < w.c() ==> #[trigger] w2.consumer_agrees(x),
        w2.counted_bytes() == w.counted_bytes(),
        w2.produced_bytes() + progress(w.producers[i]) == w.produced_bytes() + progress(
            w2.producers[i],
        ),
        w2.leaving_bytes() + held_bytes(w.producer_next[i]) == w.leaving_bytes() + held_bytes(
            w2.producer_next[i],
        ),
        total(w2.producer_next, by_held_buffers()) + held_buffers(w.producer_next[i]) == total(
            w.producer_next,
            by_held_buffers(),
        ) + held_buffers(w2.producer_next[i]),
        w2.closed == w.closed && w.producers[i].phase != ProducerPhase::Done ==> forall|x: int|
            0 <= x < w.c() && w2.consumer_queue[x] == w.consumer_queue[x]
                ==> #[trigger] w2.ends_agree(x),
        w2.lost == w.lost && (w.producers[i].phase == ProducerPhase::Failed
            ==> w2.producers[i].phase == ProducerPhase::Failed) ==> (w2.lost > 0
            ==> w2.has_failed()),
{
    if w2.closed == w.closed && w.producers[i].phase != ProducerPhase::Done {
        assert forall|x: int|
            0 <= x < w.c() && w2.consumer_queue[x] == w.consumer_queue[x]
                implies #[trigger] w2.ends_agree(x) by {
            assert(w.ends_agree(x));
            lemma_ends_agree_kept(w, x, w2);
        }
    }
    if w2.lost == w.lost && w2.lost > 0 && (w.producers[i].phase == ProducerPhase::Failed
        ==> w2.producers[i].phase == ProducerPhase::Failed) {
        lemma_failed_kept(w, w2);
    }
    lemma_total_update(w.producer_next, by_held_buffers(), i, w2.producer_next[i]);
    assert forall|j: int| 0 <= j < w.p() && j != i implies #[trigger] w2.producer_agrees(j) by {
        assert(w.producer_agrees(j));
    }
    assert forall|x: int| 0 <= x < w.c() implies #[trigger] w2.consumer_agrees(x) by {
        assert(w.consumer_agrees(x));
    }
    lemma_total_update(w.producers, by_progress(), i, w2.producers[i]);
    lemma_total_update(w.producer_next, by_held_bytes(), i, w2.producer_next[i]);
}

/// A step of consumer `x` leaves the other workers as they are.
proof fn lemma_consumer_moves(w: Pipeline, x: int, w2: Pipeline)
    requires
        w.inv(),
        w.consumer_moves(x, w2),
        w2.failures == w.failures,
    ensures
        w2.consumers.len() == w.consumers.len(),
        w2.consumer_next.len() == w.consumer_next.len(),
        forall|y: int| 0 <= y < w.c() && y != x ==> #[trigger] w2.consumer_agrees(y),
        forall|i: int| 0 <= i < w.p() ==> #[trigger] w2.producer_agrees(i),
        w2.produced_bytes() == w.produced_bytes(),
        w2.leaving_bytes() == w.leaving_bytes(),
        w2.counted_bytes() + w.consumers[x].bytes == w.counted_bytes() + w2.consumers[x].bytes,
        total(w2.consumer_next, by_kept_buffers()) + kept_buffers(w.consumer_next[x]) == total(
            w.consumer_next,
            by_kept_buffers(),
        ) + kept_buffers(w2.consumer_next[x]),
        w2.closed == w.closed ==> forall|y: int|
            0 <= y < w.c() && w2.consumer_queue[y] == w.consumer_queue[y]
                && w2.consumers[y].end_count == w.consumers[y].end_count
                ==> #[trigger] w2.ends_agree(y),
        w2.lost == w.lost ==> (w2.lost > 0 ==> w2.has_failed()),
        w2.servicing_bytes() + kept_bytes(w.consumer_next[x]) == w.servicing_bytes() + kept_bytes(
            w2.consumer_next[x],
        ),
        (w.consumers[x].phase == ConsumerPhase::Failed ==> w2.consumers[x].phase
            == ConsumerPhase::Failed) ==> (w.has_failed_consumer() ==> w2.has_failed_consumer()),
        w2.serviced == w.serviced && w2.file == w.file ==> {
            &&& w2.serviced_bytes() == w.serviced_bytes()
            &&& forall|e: int, at: int|
                0 <= e < w2.serviced.len() && covers(#[trigger] w2.serviced[e], at) ==> 0 <= at
                    < w2.file.len() && w2.file[at] == #[trigger] w2.source[at]
            &&& forall|e: int|
                0 <= e < w2.serviced.len() ==> is_chunk(
                    w2.partition.n(),
                    w2.partition.p(),
                    w2.partition.k(),
                    (#[trigger] w2.serviced[e]).0 as nat,
                    w2.serviced[e].1,
                )
        },
{
    lemma_total_update(w.consumer_next, by_kept_bytes(), x, w2.consumer_next[x]);
    if w.has_failed_consumer() && (w.consumers[x].phase == ConsumerPhase::Failed
        ==> w2.consumers[x].phase == ConsumerPhase::Failed) {
        lemma_failed_consumer_kept(w, w2);
    }
    if w2.closed == w.closed {
        assert forall|y: int|
            0 <= y < w.c() && w2.consumer_queue[y] == w.consumer_queue[y]
                && w2.consumers[y].end_count == w.consumers[y].end_count
                implies #[trigger] w2.ends_agree(y) by {
            lemma_ends_agree_kept(w, y, w2);
        }
    }
    if w2.lost == w.lost && w2.lost > 0 {
        lemma_failed_kept(w, w2);
    }
    lemma_total_update(w.consumer_next, by_kept_buffers(), x, w2.consumer_next[x]);
    assert forall|y: int| 0 <= y < w.c() && y != x implies #[trigger] w2.consumer_agrees(y) by {
        assert(w.consumer_agrees(y));
    }
    assert forall|i: int| 0 <= i < w.p() implies #[trigger] w2.producer_agrees(i) by {
        assert(w.producer_agrees(i));
    }
    lemma_total_update(w.consumers, by_counted(), x, w2.consumers[x]);
}

/// Taking the head of one queue away takes its weight away.
proof fn lemma_queue_taken(queues: Seq<Seq<Message>>, x: int, weight: spec_fn(Message) -> nat)
    requires
        0 <= x < queues.len(),
        queues[x].len() > 0,
    ensures
        total(queues.update(x, queues[x].drop_first()), by_queue(weight)) + weight(queues[x][0])
            == total(queues, by_queue(weight)),
{
    lemma_total_update(queues, by_queue(weight), x, queues[x].drop_first());
    lemma_total_drop_first(queues[x], weight);
}

/// One more message in one queue adds its weight.
proof fn lemma_queue_given(
    queues: Seq<Seq<Message>>,
    x: int,
    message: Message,
    weight: spec_fn(Message) -> nat,
)
    requires
        0 <= x < queues.len(),
    ensures
        total(queues.update(x, queues[x].push(message)), by_queue(weight)) == total(
            queues,
            by_queue(weight),
        ) + weight(message),
{
    lemma_total_update(queues, by_queue(weight), x, queues[x].push(message));
    lemma_total_push(queues[x], weight, message);
}

/// A message without weight, sent to any of the queues, adds no weight.
proof fn lemma_queue_broadcast(
    queues: Seq<Seq<Message>>,
    reached: Seq<bool>,
    message: Message,
    weight: spec_fn(Message) -> nat,
)
    requires
        reached.len() == queues.len(),
        weight(message) == 0,
    ensures
        total(broadcast(queues, reached, message), by_queue(weight)) == total(
            queues,
            by_queue(weight),
        ),
{
    let after = broadcast(queues, reached, message);
    assert forall|x: int| 0 <= x < queues.len() implies by_queue(weight)(after[x]) == by_queue(
        weight,
    )(queues[x]) by {
        lemma_total_push(queues[x], weight, message);
    }
    lemma_total_same(after, queues, by_queue(weight));
}

/// A producer that takes a message keeps the invariant, and its caller has
/// met what `receive` asks for.
pub(crate) proof fn lemma_producer_takes(w: Pipeline, i: int, w2: Pipeline)
    requires
        w.inv(),
        w.steps(Step::ProducerTakes { producer: i }, w2),
    ensures
        w2.inv(),
        w.producers[i].may_receive(Some(w.producer_queue[i][0])),
{
    let head = w.producer_queue[i][0];
    let n = w.partition.n();
    let p = w.partition.p();
    let k = w.partition.k();
    lemma_producer_moves(w, i, w2);
    assert(w.producer_agrees(i));
    assert(w.fits_producer(i, head));
    crate::partition::lemma_chunk_chain(n, p, k, i as nat, w.producers[i].dispatched as nat);
    crate::accounting::lemma_route_is_round_robin(
        w.num_consumers as nat,
        w.producers[i].prev_consumer as nat,
        0,
    );
    assert(w2.producer_agrees(i));
    assert forall|at: int| 0 <= at < w2.file.len() implies #[trigger] w2.is_settled(at) by {
        assert(w.is_settled(at));
        lemma_settled_after_producer(w, i, w2, at);
    }
    lemma_queue_taken(w.producer_queue, i, by_message_buffers());
    assert forall|j: int, b: int|
        0 <= j < w2.p() && 0 <= b < w2.producer_queue[j].len() implies w2.fits_producer(
        j,
        #[trigger] w2.producer_queue[j][b],
    ) by {
        if j == i {
            assert(w2.producer_queue[j][b] == w.producer_queue[i][b + 1]);
            assert(w.fits_producer(i, w.producer_queue[i][b + 1]));
        } else {
            assert(w.fits_producer(j, w.producer_queue[j][b]));
        }
    }
    assert forall|x: int, b: int|
        0 <= x < w2.c() && 0 <= b < w2.consumer_queue[x].len() implies w2.fits_consumer(
        #[trigger] w2.consumer_queue[x][b],
    ) by {
        assert(w.fits_consumer(w.consumer_queue[x][b]));
    }
}


/// The queues of the producers hold what they held: what fitted, fits.
proof fn lemma_queues_kept(w: Pipeline, w2: Pipeline)
    requires
        w.inv(),
        w2.partition == w.partition,
        w2.num_consumers == w.num_consumers,
        w2.source == w.source,
        w.failures.subset_of(w2.failures),
    ensures
        w2.producer_queue == w.producer_queue ==> forall|j: int, b: int|
            0 <= j < w2.p() && 0 <= b < w2.producer_queue[j].len() ==> w2.fits_producer(
                j,
                #[trigger] w2.producer_queue[j][b],
            ),
        w2.consumer_queue == w.consumer_queue ==> forall|x: int, b: int|
            0 <= x < w2.c() && 0 <= b < w2.consumer_queue[x].len() ==> w2.fits_consumer(
                #[trigger] w2.consumer_queue[x][b],
            ),
{
    if w2.producer_queue == w.producer_queue {
        assert forall|j: int, b: int|
            0 <= j < w2.p() && 0 <= b < w2.producer_queue[j].len() implies w2.fits_producer(
            j,
            #[trigger] w2.producer_queue[j][b],
        ) by {
            assert(w.fits_producer(j, w.producer_queue[j][b]));
        }
    }
    if w2.consumer_queue == w.consumer_queue {
        assert forall|x: int, b: int|
            0 <= x < w2.c() && 0 <= b < w2.consumer_queue[x].len() implies w2.fits_consumer(
            #[trigger] w2.consumer_queue[x][b],
        ) by {
            assert(w.fits_consumer(w.consumer_queue[x][b]));
        }
    }
}

/// A producer that finds its queue closed keeps the invariant, and its
/// caller has met what `receive` asks for.
pub(crate) proof fn lemma_producer_closes(w: Pipeline, i: int, w2: Pipeline)
    requires
        w.inv(),
        w.steps(Step::ProducerCloses { producer: i }, w2),
    ensures
        w2.inv(),
        w.producers[i].may_receive(None),
{
    lemma_producer_moves(w, i, w2);
    lemma_queues_kept(w, w2);
    assert(w.producer_agrees(i));
    assert(w2.producer_agrees(i));
    assert forall|at: int| 0 <= at < w2.file.len() implies #[trigger] w2.is_settled(at) by {
        assert(w.is_settled(at));
        lemma_settled_after_producer(w, i, w2, at);
    }
}

/// A producer whose buffer was filled, or could not be, keeps the
/// invariant, and its caller has met what `filled` asks for.
pub(crate) proof fn lemma_producer_fills(
    w: Pipeline,
    i: int,
    outcome: Result<(), String>,
    filled: Buffer,
    w2: Pipeline,
)
    requires
        w.inv(),
        w.steps(Step::ProducerFills { producer: i, outcome, filled }, w2),
    ensures
        w2.inv(),
        w.producers[i].may_fill(outcome, filled),
{
    let n = w.partition.n();
    let p = w.partition.p();
    let k = w.partition.k();
    lemma_producer_moves(w, i, w2);
    lemma_queues_kept(w, w2);
    assert(w.producer_agrees(i));
    crate::partition::lemma_chunk_chain(n, p, k, i as nat, w.producers[i].dispatched as nat);
    crate::partition::lemma_chunk_chain(n, p, k, i as nat, w.producers[i].dispatched as nat + 1);
    crate::partition::lemma_chunk_nonempty(n, p, k, i as nat, w.producers[i].dispatched as nat);
    crate::partition::lemma_producer_ranges(n, p, i as nat);
    if outcome is Ok {
        let j = w.producers[i].dispatched as nat;
        let config = Config {
            offset: w.producers[i].offset,
            ..w.producer_next[i]->Fill_config
        };
        assert(chunk_offset(n, p, k, config.producer as nat, j) == config.offset);
        assert(chunk_len(n, p, k, config.producer as nat, j) == filled.bytes@.len());
        assert(is_slice_of(filled.bytes@, w2.source, config.offset as int));
        assert(w2.holds_chunk(config, filled));
    }
    assert(w2.producer_agrees(i));
    assert forall|at: int| 0 <= at < w2.file.len() implies #[trigger] w2.is_settled(at) by {
        assert(w.is_settled(at));
        lemma_settled_after_producer(w, i, w2, at);
    }
}

/// A producer whose buffer was sent, or could not be, keeps the invariant,
/// and its caller has met what `forwarded` asks for.
pub(crate) proof fn lemma_producer_forwards(w: Pipeline, i: int, delivered: bool, w2: Pipeline)
    requires
        w.inv(),
        w.steps(Step::ProducerForwards { producer: i, delivered }, w2),
    ensures
        w2.inv(),
        w.producers[i].may_forward(),
{
    let n = w.partition.n();
    let p = w.partition.p();
    let k = w.partition.k();
    lemma_producer_moves(w, i, w2);
    lemma_queues_kept(w, w2);
    assert(w.producer_agrees(i));
    crate::partition::lemma_chunk_chain(n, p, k, i as nat, w.producers[i].dispatched as nat);
    assert(w2.producer_agrees(i));
    assert forall|at: int| 0 <= at < w2.file.len() implies #[trigger] w2.is_settled(at) by {
        assert(w.is_settled(at));
        if delivered && held_carries(w.producer_next[i], at) {
            let consumer = w.producer_next[i]->Forward_consumer as int;
            assert(carries(
                w2.consumer_queue[consumer][w.consumer_queue[consumer].len() as int],
                at,
            ));
            assert(w2.is_waiting(at));
        }
        lemma_settled_after_producer(w, i, w2, at);
    }
    if delivered {
        let consumer = w.producer_next[i]->Forward_consumer as int;
        let message = w.producer_next[i]->Forward_message;
        lemma_queue_given(w.consumer_queue, consumer, message, by_message_bytes());
        lemma_queue_given(w.consumer_queue, consumer, message, by_message_buffers());
        assert forall|x: int| 0 <= x < w.c() implies #[trigger] w2.ends_agree(x) by {
            assert(w.ends_agree(x));
            if x == consumer {
                lemma_ends_agree_push(w, x, message, w2);
            } else {
                lemma_ends_agree_kept(w, x, w2);
            }
        }
        assert forall|x: int, b: int|
            0 <= x < w2.c() && 0 <= b < w2.consumer_queue[x].len() implies w2.fits_consumer(
            #[trigger] w2.consumer_queue[x][b],
        ) by {
            if x == consumer && b == w.consumer_queue[x].len() {
            } else {
                assert(w.fits_consumer(w.consumer_queue[x][b]));
            }
        }
    }
}

/// After a message that fits was sent to any of the consumers, their queues
/// hold only what fits.
proof fn lemma_broadcast_fits(w: Pipeline, reached: Seq<bool>, message: Message, w2: Pipeline)
    requires
        w.inv(),
        w2.partition == w.partition,
        w2.num_consumers == w.num_consumers,
        w2.failures == w.failures,
        w2.source == w.source,
        reached.len() == w.consumer_queue.len(),
        w.fits_consumer(message),
        message_bytes(message) == 0,
        message_buffers(message) == 0,
        w2.consumer_queue == broadcast(w.consumer_queue, reached, message),
    ensures
        w2.consumer_queue.len() == w.consumer_queue.len(),
        w2.waiting_bytes() == w.waiting_bytes(),
        total(w2.consumer_queue, by_queue(by_message_buffers())) == total(
            w.consumer_queue,
            by_queue(by_message_buffers()),
        ),
        forall|x: int, b: int|
            0 <= x < w2.c() && 0 <= b < w2.consumer_queue[x].len() ==> w2.fits_consumer(
                #[trigger] w2.consumer_queue[x][b],
            ),
{
    lemma_queue_broadcast(w.consumer_queue, reached, message, by_message_bytes());
    lemma_queue_broadcast(w.consumer_queue, reached, message, by_message_buffers());
    assert forall|x: int, b: int|
        0 <= x < w2.c() && 0 <= b < w2.consumer_queue[x].len() implies w2.fits_consumer(
        #[trigger] w2.consumer_queue[x][b],
    ) by {
        if b < w.consumer_queue[x].len() {
            assert(w.fits_consumer(w.consumer_queue[x][b]));
        }
    }
}

/// A producer whose end was announced keeps the invariant, and its caller
/// has met what `drained` asks for.
pub(crate) proof fn lemma_producer_announces(w: Pipeline, i: int, reached: Seq<bool>, w2: Pipeline)
    requires
        w.inv(),
        w.steps(Step::ProducerAnnounces { producer: i, reached }, w2),
    ensures
        w2.inv(),
        w.producers[i].may_drain(),
{
    lemma_producer_moves(w, i, w2);
    lemma_queues_kept(w, w2);
    assert(w.producer_agrees(i));
    assert(w2.producer_agrees(i));
    let message = Message::End(
        w.producer_next[i]->BroadcastEnd_producer,
        w.producer_next[i]->BroadcastEnd_num_producers,
    );
    lemma_broadcast_fits(w, reached, message, w2);
    assert forall|at: int| 0 <= at < w2.file.len() implies #[trigger] w2.is_settled(at) by {
        assert(w.is_settled(at));
        lemma_settled_after_producer(w, i, w2, at);
    }
    assert forall|x: int| 0 <= x < w.c() implies #[trigger] w2.ends_agree(x) by {
        assert(w.ends_agree(x));
        assert(!w.closed[x][i]);
        if reached[x] {
            let queue = w.consumer_queue[x];
            lemma_total_push(queue, by_message_ends(), message);
            lemma_total_update(w.closed[x], by_flag(), i, true);
            assert forall|j: int, b: int|
                0 <= j < w2.p() && w2.closed[x][j] && 0 <= b < w2.consumer_queue[x].len()
                    && #[trigger] is_chunk_of(w2.consumer_queue[x][b], j) implies end_follows(
                w2.consumer_queue[x],
                b,
                j,
            ) by {
                assert(b < queue.len());
                assert(is_chunk_of(queue[b], j));
                if j == i {
                    assert(is_end_of(w2.consumer_queue[x][queue.len() as int], i));
                } else {
                    lemma_end_follows_push(queue, message, b, j);
                }
            }
        } else {
            lemma_ends_agree_kept(w, x, w2);
        }
    }
}

/// A producer whose error was told keeps the invariant.
pub(crate) proof fn lemma_producer_reports(w: Pipeline, i: int, reached: Seq<bool>, w2: Pipeline)
    requires
        w.inv(),
        w.steps(Step::ProducerReports { producer: i, reached }, w2),
    ensures
        w2.inv(),
{
    lemma_producer_moves(w, i, w2);
    lemma_queues_kept(w, w2);
    assert(w.producer_agrees(i));
    assert(w2.producer_agrees(i));
    let message = Message::Error(w.producer_next[i]->BroadcastError_0);
    lemma_broadcast_fits(w, reached, message, w2);
    assert(w.has_failed());
    lemma_failed_kept(w, w2);
    assert forall|at: int| 0 <= at < w2.file.len() implies #[trigger] w2.is_settled(at) by {
    }
    assert forall|x: int| 0 <= x < w.c() implies #[trigger] w2.ends_agree(x) by {
        if reached[x] {
            lemma_ends_agree_push(w, x, message, w2);
        } else {
            lemma_ends_agree_kept(w, x, w2);
        }
    }
}

/// The consumers have counted no more bytes than the producers have handed
/// on, and the producers have handed on no more than the file holds.
pub proof fn lemma_bytes_bounded(w: Pipeline)
    requires
        w.inv(),
    ensures
        w.counted_bytes() + w.waiting_bytes() <= w.produced_bytes(),
        w.produced_bytes() <= w.partition.total_size,
{
    let n = w.partition.n();
    let p = w.partition.p();
    let k = w.partition.k();
    lemma_produced_bounded(w, p);
    crate::accounting::lemma_file_bytes(n, p, k, p);
    assert(w.producers.take(p as int) == w.producers);
}

/// The first `q` producers have handed on no more than their ranges hold.
proof fn lemma_produced_bounded(w: Pipeline, q: nat)
    requires
        w.inv(),
        q <= w.p(),
    ensures
        total(w.producers.take(q as int), by_progress()) <= crate::accounting::file_bytes(
            w.partition.n(),
            w.partition.p(),
            w.partition.k(),
            q,
        ),
    decreases q,
{
    let n = w.partition.n();
    let p = w.partition.p();
    let k = w.partition.k();
    if q > 0 {
        let i = (q - 1) as nat;
        lemma_produced_bounded(w, i);
        assert(w.producers.take(q as int).drop_last() == w.producers.take(i as int));
        assert(w.producers.take(q as int).last() == w.producers[i as int]);
        assert(w.producer_agrees(i as int));
        crate::accounting::lemma_range_bytes(n, p, k, i, k);
        crate::partition::lemma_chunk_chain(n, p, k, i, w.producers[i as int].dispatched as nat);
        crate::partition::lemma_producer_ranges(n, p, i);
    }
}

/// A consumer that takes a message keeps the invariant, and its caller has
/// met what `receive` asks for.
pub(crate) proof fn lemma_consumer_takes(w: Pipeline, x: int, w2: Pipeline)
    requires
        w.inv(),
        w.steps(Step::ConsumerTakes { consumer: x }, w2),
    ensures
        w2.inv(),
        w.consumers[x].may_receive(Some(w.consumer_queue[x][0])),
{
    let head = w.consumer_queue[x][0];
    lemma_consumer_moves(w, x, w2);
    lemma_queues_kept(w, w2);
    assert(w.consumer_agrees(x));
    assert(w.fits_consumer(head));
    lemma_queue_taken(w.consumer_queue, x, by_message_bytes());
    lemma_queue_taken(w.consumer_queue, x, by_message_buffers());
    lemma_bytes_bounded(w);
    lemma_total_bounds(w.consumers, by_counted(), x);
    lemma_total_bounds(w.consumer_queue, by_queue(by_message_bytes()), x);
    lemma_total_bounds(w.consumer_queue[x], by_message_bytes(), 0);
    assert(w.consumers[x].bytes + message_bytes(head) <= usize::MAX);
    assert(w2.consumer_agrees(x));
    assert forall|at: int| 0 <= at < w2.file.len() implies #[trigger] w2.is_settled(at) by {
        assert(w.is_settled(at));
        lemma_settled_after_consumer(w, x, w2, at);
    }
    assert(w2.ends_agree(x)) by {
        let queue = w.consumer_queue[x];
        assert(w.ends_agree(x));
        lemma_total_drop_first(queue, by_message_ends());
        assert forall|i: int, b: int|
            0 <= i < w2.p() && w2.closed[x][i] && 0 <= b < w2.consumer_queue[x].len()
                && #[trigger] is_chunk_of(w2.consumer_queue[x][b], i) implies end_follows(
            w2.consumer_queue[x],
            b,
            i,
        ) by {
            assert(is_chunk_of(queue[b + 1], i));
            lemma_end_follows_drop_first(queue, b, i);
        }
    }
    assert forall|y: int, b: int|
        0 <= y < w2.c() && 0 <= b < w2.consumer_queue[y].len() implies w2.fits_consumer(
        #[trigger] w2.consumer_queue[y][b],
    ) by {
        if y == x {
            assert(w2.consumer_queue[y][b] == w.consumer_queue[x][b + 1]);
            assert(w.fits_consumer(w.consumer_queue[x][b + 1]));
        } else {
            assert(w.fits_consumer(w.consumer_queue[y][b]));
        }
    }
}

/// A consumer that finds its queue closed keeps the invariant, and its
/// caller has met what `receive` asks for.
pub(crate) proof fn lemma_consumer_closes(w: Pipeline, x: int, w2: Pipeline)
    requires
        w.inv(),
        w.steps(Step::ConsumerCloses { consumer: x }, w2),
    ensures
        w2.inv(),
        w.consumers[x].may_receive(None),
{
    lemma_consumer_moves(w, x, w2);
    lemma_queues_kept(w, w2);
    assert(w.consumer_agrees(x));
    assert(w2.consumer_agrees(x));
    assert forall|at: int| 0 <= at < w2.file.len() implies #[trigger] w2.is_settled(at) by {
        assert(w.is_settled(at));
        lemma_settled_after_consumer(w, x, w2, at);
    }
}

/// A consumer whose buffer was serviced, or could not be, keeps the
/// invariant, and its caller has met what `serviced` asks for.
pub(crate) proof fn lemma_consumer_services(
    w: Pipeline,
    x: int,
    outcome: Result<(), WriteError>,
    w2: Pipeline,
)
    requires
        w.inv(),
        w.steps(Step::ConsumerServices { consumer: x, outcome }, w2),
    ensures
        w2.inv(),
        w.consumers[x].phase == ConsumerPhase::Servicing,
{
    lemma_consumer_moves(w, x, w2);
    lemma_queues_kept(w, w2);
    assert(w.consumer_agrees(x));
    assert(w2.consumer_agrees(x));
    assert forall|at: int| 0 <= at < w2.file.len() implies #[trigger] w2.is_settled(at) by {
        assert(w.is_settled(at));
        let config = w.consumer_next[x]->Service_config;
        let buffer = w.consumer_next[x]->Service_buffer;
        lemma_settled_after_consumer(w, x, w2, at);
    }
    if outcome is Ok {
        let config = w.consumer_next[x]->Service_config;
        let buffer = w.consumer_next[x]->Service_buffer;
        let chunk = (config.offset, buffer.bytes@.len());
        lemma_total_push(w.serviced, by_length(), chunk);
        assert(w.holds_chunk(config, buffer));
        assert forall|e: int, at: int|
            0 <= e < w2.serviced.len() && covers(#[trigger] w2.serviced[e], at) implies 0 <= at
            < w2.file.len() && w2.file[at] == #[trigger] w2.source[at] by {
            if e < w.serviced.len() {
                assert(covers(w.serviced[e], at));
                assert(w.file[at] == w.source[at]);
            }
            if config.offset <= at < config.offset + buffer.bytes@.len() {
                assert(buffer.bytes@[at - config.offset] == w.source[config.offset + (at
                    - config.offset)]);
            }
        }
        assert forall|e: int| 0 <= e < w2.serviced.len() implies is_chunk(
            w2.partition.n(),
            w2.partition.p(),
            w2.partition.k(),
            (#[trigger] w2.serviced[e]).0 as nat,
            w2.serviced[e].1,
        ) by {
            if e < w.serviced.len() {
                assert(w2.serviced[e] == w.serviced[e]);
            }
        }
    }
}

/// A consumer whose buffer returned to its producer, or was dropped, keeps
/// the invariant.
pub(crate) proof fn lemma_consumer_returns(w: Pipeline, x: int, delivered: bool, w2: Pipeline)
    requires
        w.inv(),
        w.steps(Step::ConsumerReturns { consumer: x, delivered }, w2),
    ensures
        w2.inv(),
{
    lemma_consumer_moves(w, x, w2);
    lemma_queues_kept(w, w2);
    assert(w.consumer_agrees(x));
    assert(w2.consumer_agrees(x));
    assert forall|at: int| 0 <= at < w2.file.len() implies #[trigger] w2.is_settled(at) by {
        assert(w.is_settled(at));
        lemma_settled_after_consumer(w, x, w2, at);
    }
    if delivered {
        let producer = w.consumer_next[x]->Return_producer as int;
        lemma_queue_given(
            w.producer_queue,
            producer,
            w.consumer_next[x]->Return_message,
            by_message_buffers(),
        );
        assert forall|j: int, b: int|
            0 <= j < w2.p() && 0 <= b < w2.producer_queue[j].len() implies w2.fits_producer(
            j,
            #[trigger] w2.producer_queue[j][b],
        ) by {
            if j == producer && b == w.producer_queue[j].len() {
            } else {
                assert(w.fits_producer(j, w.producer_queue[j][b]));
            }
        }
    }
}

} // verus!
