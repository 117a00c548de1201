//! Byte accounting: what the chunks of a partition add up to, producer by
//! producer and consumer by consumer.
//!
//! Producers hand their chunks to the consumers in round-robin order, so
//! which consumer gets which chunk is known in advance. Whatever the numbers
//! of producers, chunks and consumers are, the byte counts of the consumers
//! add up to the length of the file.
use crate::partition::{
    chunk_len,
    chunk_offset,
    lemma_chunk_chain,
    lemma_producer_ranges,
    producer_share,
    producer_start,
};
use crate::producer::next_consumer;
use crate::write::{consumed, counted, WriteError};
use vstd::prelude::*;

verus! {

/// The bytes in the first `m` chunks of producer `i`.
pub open spec fn range_bytes(n: nat, p: nat, k: nat, i: nat, m: nat) -> nat
    decreases m,
{
    if m == 0 {
        0
    } else {
        range_bytes(n, p, k, i, (m - 1) as nat) + chunk_len(n, p, k, i, (m - 1) as nat)
    }
}

/// The bytes in all chunks of the first `q` producers.
pub open spec fn file_bytes(n: nat, p: nat, k: nat, q: nat) -> nat
    decreases q,
{
    if q == 0 {
        0
    } else {
        file_bytes(n, p, k, (q - 1) as nat) + range_bytes(n, p, k, (q - 1) as nat, k)
    }
}

/// The chunks of a producer add up to its range.
pub proof fn lemma_range_bytes(n: nat, p: nat, k: nat, i: nat, m: nat)
    requires
        p > 0,
        k > 0,
        i < p,
    ensures
        range_bytes(n, p, k, i, m) == chunk_offset(n, p, k, i, m) - producer_start(n, p, i),
        m >= k ==> range_bytes(n, p, k, i, m) == producer_share(n, p, i),
    decreases m,
{
    lemma_chunk_chain(n, p, k, i, m);
    if m > 0 {
        lemma_range_bytes(n, p, k, i, (m - 1) as nat);
        lemma_chunk_chain(n, p, k, i, (m - 1) as nat);
    }
}

/// The chunks of all producers add up to the file.
pub proof fn lemma_file_bytes(n: nat, p: nat, k: nat, q: nat)
    requires
        p > 0,
        k > 0,
        q <= p,
    ensures
        file_bytes(n, p, k, q) == producer_start(n, p, q),
        q == p ==> file_bytes(n, p, k, q) == n,
    decreases q,
{
    if q > 0 {
        lemma_file_bytes(n, p, k, (q - 1) as nat);
        lemma_range_bytes(n, p, k, (q - 1) as nat, k);
        lemma_producer_ranges(n, p, (q - 1) as nat);
    } else {
        lemma_producer_ranges(n, p, 0);
    }
}

/// The consumer that chunk `j` of producer `i` goes to, of `c` consumers.
pub open spec fn route(c: nat, i: nat, j: nat) -> nat {
    (i + j + 1) % c
}

/// The route of a producer's chunks is the round-robin order that starts
/// after the consumer with the producer's own number.
pub proof fn lemma_route_is_round_robin(c: nat, i: nat, j: nat)
    requires
        c > 0,
    ensures
        route(c, i, 0) == next_consumer(i, c),
        route(c, i, j + 1) == next_consumer(route(c, i, j), c),
        route(c, i, j) < c,
{
    let a = (i + j + 1) as int;
    let d = c as int;
    assert((a + 1) % d == (a % d + 1) % d && 0 <= a % d < d) by (nonlinear_arith)
        requires
            d > 0,
            a >= 0,
    ;
}

/// The bytes that consumer `x` gets from the first `m` chunks of producer
/// `i`.
pub open spec fn routed_range_bytes(n: nat, p: nat, k: nat, c: nat, x: nat, i: nat, m: nat) -> nat
    decreases m,
{
    if m == 0 {
        0
    } else {
        routed_range_bytes(n, p, k, c, x, i, (m - 1) as nat) + if route(c, i, (m - 1) as nat)
            == x {
            chunk_len(n, p, k, i, (m - 1) as nat)
        } else {
            0
        }
    }
}

/// The bytes that consumer `x` gets from the first `q` producers.
pub open spec fn routed_bytes(n: nat, p: nat, k: nat, c: nat, x: nat, q: nat) -> nat
    decreases q,
{
    if q == 0 {
        0
    } else {
        routed_bytes(n, p, k, c, x, (q - 1) as nat) + routed_range_bytes(
            n,
            p,
            k,
            c,
            x,
            (q - 1) as nat,
            k,
        )
    }
}

/// The bytes that the first `y` consumers get from the first `m` chunks of
/// producer `i`.
pub open spec fn shared_range_bytes(n: nat, p: nat, k: nat, c: nat, y: nat, i: nat, m: nat) -> nat
    decreases m,
{
    if m == 0 {
        0
    } else {
        shared_range_bytes(n, p, k, c, y, i, (m - 1) as nat) + if route(c, i, (m - 1) as nat)
            < y {
            chunk_len(n, p, k, i, (m - 1) as nat)
        } else {
            0
        }
    }
}

/// The bytes that the first `y` consumers get from the first `q` producers.
pub open spec fn shared_bytes(n: nat, p: nat, k: nat, c: nat, y: nat, q: nat) -> nat
    decreases q,
{
    if q == 0 {
        0
    } else {
        shared_bytes(n, p, k, c, y, (q - 1) as nat) + shared_range_bytes(
            n,
            p,
            k,
            c,
            y,
            (q - 1) as nat,
            k,
        )
    }
}

/// One more consumer adds what is routed to it, and all consumers together
/// get every chunk of a producer.
proof fn lemma_shared_range_bytes(n: nat, p: nat, k: nat, c: nat, y: nat, i: nat, m: nat)
    requires
        c > 0,
    ensures
        shared_range_bytes(n, p, k, c, y + 1, i, m) == shared_range_bytes(n, p, k, c, y, i, m)
            + routed_range_bytes(n, p, k, c, y, i, m),
        shared_range_bytes(n, p, k, c, 0, i, m) == 0,
        y >= c ==> shared_range_bytes(n, p, k, c, y, i, m) == range_bytes(n, p, k, i, m),
    decreases m,
{
    if m > 0 {
        lemma_shared_range_bytes(n, p, k, c, y, i, (m - 1) as nat);
        lemma_route_is_round_robin(c, i, (m - 1) as nat);
    }
}

/// One more consumer adds what is routed to it, and all consumers together
/// get every chunk of every producer.
proof fn lemma_shared_bytes(n: nat, p: nat, k: nat, c: nat, y: nat, q: nat)
    requires
        c > 0,
    ensures
        shared_bytes(n, p, k, c, y + 1, q) == shared_bytes(n, p, k, c, y, q) + routed_bytes(
            n,
            p,
            k,
            c,
            y,
            q,
        ),
        shared_bytes(n, p, k, c, 0, q) == 0,
        y >= c ==> shared_bytes(n, p, k, c, y, q) == file_bytes(n, p, k, q),
    decreases q,
{
    if q > 0 {
        lemma_shared_bytes(n, p, k, c, y, (q - 1) as nat);
        lemma_shared_range_bytes(n, p, k, c, y, (q - 1) as nat, k);
    }
}

/// What each of the first `y` consumers returns when no worker fails: the
/// bytes of the chunks that were routed to it.
pub open spec fn consumer_results(n: nat, p: nat, k: nat, c: nat, y: nat) -> Seq<
    Result<usize, WriteError>,
> {
    Seq::new(y, |x: int| Ok(routed_bytes(n, p, k, c, x as nat, p) as usize))
}

/// The results of the first `y` consumers add up to what is routed to them.
proof fn lemma_consumer_results(n: nat, p: nat, k: nat, c: nat, y: nat)
    requires
        p > 0,
        k > 0,
        c > 0,
        n <= usize::MAX,
    ensures
        shared_bytes(n, p, k, c, y, p) <= n,
        consumed(consumer_results(n, p, k, c, y)) == Ok::<nat, WriteError>(
            shared_bytes(n, p, k, c, y, p),
        ),
        counted(consumer_results(n, p, k, c, y)) == shared_bytes(n, p, k, c, y, p),
    decreases y,
{
    lemma_shared_bytes(n, p, k, c, y, p);
    lemma_file_bytes(n, p, k, p);
    lemma_shared_total(n, p, k, c, y);
    if y > 0 {
        let shorter = (y - 1) as nat;
        lemma_consumer_results(n, p, k, c, shorter);
        lemma_shared_bytes(n, p, k, c, shorter, p);
        assert(consumer_results(n, p, k, c, y).drop_last() == consumer_results(
            n,
            p,
            k,
            c,
            shorter,
        ));
    }
}

/// The first `y` consumers get no more than the file holds.
proof fn lemma_shared_total(n: nat, p: nat, k: nat, c: nat, y: nat)
    requires
        p > 0,
        k > 0,
        c > 0,
    ensures
        shared_bytes(n, p, k, c, y, p) <= n,
    decreases c + 1 - y,
{
    lemma_shared_bytes(n, p, k, c, y, p);
    if y >= c {
        lemma_file_bytes(n, p, k, p);
    } else {
        lemma_shared_total(n, p, k, c, y + 1);
    }
}

/// Byte accounting: when no worker fails, every consumer returns the bytes
/// of the chunks that the producers routed to it, and these results combine
/// to the length of the file.
pub proof fn lemma_byte_accounting(n: nat, p: nat, k: nat, c: nat)
    requires
        p > 0,
        k > 0,
        c > 0,
        n <= usize::MAX,
    ensures
        counted(consumer_results(n, p, k, c, c)) <= usize::MAX,
        consumed(consumer_results(n, p, k, c, c)) == Ok::<nat, WriteError>(n),
{
    lemma_consumer_results(n, p, k, c, c);
    lemma_shared_bytes(n, p, k, c, c, p);
    lemma_file_bytes(n, p, k, p);
}

} // verus!
