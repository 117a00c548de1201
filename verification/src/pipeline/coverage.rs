//! Counting how often the bytes of a file are covered by a list of chunks:
//! chunks that cover every byte of the file and are together as long as the
//! file cover every byte exactly once.
use crate::pipeline::state::{by_length, covers};
use crate::total::total;
use vstd::prelude::*;

verus! {

/// Whether one of the chunks covers the byte at `at`.
pub open spec fn is_covered(chunks: Seq<(u64, nat)>, at: int) -> bool {
    exists|e: int| 0 <= e < chunks.len() && covers(#[trigger] chunks[e], at)
}

/// How many of the first `m` chunks cover the byte at `at`.
pub open spec fn cover_count(chunks: Seq<(u64, nat)>, m: nat, at: int) -> nat
    decreases m,
{
    if m == 0 {
        0
    } else {
        cover_count(chunks, (m - 1) as nat, at) + if covers(chunks[m - 1], at) {
            1nat
        } else {
            0nat
        }
    }
}

/// How often the first `q` bytes are covered by the first `m` chunks, all
/// bytes together.
pub open spec fn cover_sum(chunks: Seq<(u64, nat)>, m: nat, q: nat) -> nat
    decreases q,
{
    if q == 0 {
        0
    } else {
        cover_sum(chunks, m, (q - 1) as nat) + cover_count(chunks, m, q - 1)
    }
}

/// How many of the first `q` bytes a chunk covers.
pub open spec fn span(chunk: (u64, nat), q: nat) -> nat
    decreases q,
{
    if q == 0 {
        0
    } else {
        span(chunk, (q - 1) as nat) + if covers(chunk, q - 1) {
            1nat
        } else {
            0nat
        }
    }
}

/// A chunk covers as many of the first `q` bytes as lie between its start
/// and its end.
proof fn lemma_span(chunk: (u64, nat), q: nat)
    ensures
        span(chunk, q) == if q <= chunk.0 {
            0
        } else if q <= chunk.0 + chunk.1 {
            q - chunk.0
        } else {
            chunk.1 as int
        },
    decreases q,
{
    if q > 0 {
        lemma_span(chunk, (q - 1) as nat);
    }
}

/// One more chunk covers the first `q` bytes as often more as it covers
/// bytes among them.
proof fn lemma_cover_sum_step(chunks: Seq<(u64, nat)>, m: nat, q: nat)
    requires
        m < chunks.len(),
    ensures
        cover_sum(chunks, m + 1, q) == cover_sum(chunks, m, q) + span(chunks[m as int], q),
    decreases q,
{
    if q > 0 {
        lemma_cover_sum_step(chunks, m, (q - 1) as nat);
    }
}

/// No chunks cover nothing.
proof fn lemma_cover_sum_none(chunks: Seq<(u64, nat)>, q: nat)
    ensures
        cover_sum(chunks, 0, q) == 0,
    decreases q,
{
    if q > 0 {
        lemma_cover_sum_none(chunks, (q - 1) as nat);
    }
}

/// Chunks that lie within the first `n` bytes cover them as often as they
/// are long together.
proof fn lemma_cover_sum(chunks: Seq<(u64, nat)>, m: nat, n: nat)
    requires
        m <= chunks.len(),
        forall|e: int| 0 <= e < chunks.len() ==> (#[trigger] chunks[e]).0 + chunks[e].1 <= n,
    ensures
        cover_sum(chunks, m, n) == total(chunks.take(m as int), by_length()),
    decreases m,
{
    if m == 0 {
        lemma_cover_sum_none(chunks, n);
    } else {
        let shorter = (m - 1) as nat;
        lemma_cover_sum(chunks, shorter, n);
        lemma_cover_sum_step(chunks, shorter, n);
        lemma_span(chunks[shorter as int], n);
        assert(chunks.take(m as int).drop_last() == chunks.take(shorter as int));
        assert(chunks.take(m as int).last() == chunks[shorter as int]);
    }
}

/// Bytes that are each covered at least once are covered at least as often
/// together as there are bytes.
proof fn lemma_cover_sum_least(chunks: Seq<(u64, nat)>, m: nat, q: nat)
    requires
        forall|at: int| 0 <= at < q ==> #[trigger] cover_count(chunks, m, at) >= 1,
    ensures
        cover_sum(chunks, m, q) >= q,
    decreases q,
{
    if q > 0 {
        lemma_cover_sum_least(chunks, m, (q - 1) as nat);
        assert(cover_count(chunks, m, q - 1) >= 1);
    }
}

/// Bytes that are each covered at least once, and together no more often
/// than there are bytes, are each covered exactly once.
proof fn lemma_covered_once(chunks: Seq<(u64, nat)>, m: nat, q: nat, at: int)
    requires
        forall|a: int| 0 <= a < q ==> #[trigger] cover_count(chunks, m, a) >= 1,
        cover_sum(chunks, m, q) <= q,
        0 <= at < q,
    ensures
        cover_count(chunks, m, at) == 1,
    decreases q,
{
    lemma_cover_sum_least(chunks, m, (q - 1) as nat);
    assert(cover_count(chunks, m, q - 1) >= 1);
    if at < q - 1 {
        lemma_covered_once(chunks, m, (q - 1) as nat, at);
    }
}

/// A byte that one of the first `m` chunks covers is counted.
proof fn lemma_cover_count_least(chunks: Seq<(u64, nat)>, m: nat, at: int, e: int)
    requires
        0 <= e < m,
        covers(chunks[e], at),
    ensures
        cover_count(chunks, m, at) >= cover_count(chunks, e as nat, at) + 1,
    decreases m,
{
    if e < m - 1 {
        lemma_cover_count_least(chunks, (m - 1) as nat, at, e);
    }
}

/// Exactly once: where chunks within the first `n` bytes cover each of them
/// and are together `n` bytes long, no byte lies in two of the chunks.
pub proof fn lemma_no_byte_twice(chunks: Seq<(u64, nat)>, n: nat, at: int, e1: int, e2: int)
    requires
        forall|e: int| 0 <= e < chunks.len() ==> (#[trigger] chunks[e]).0 + chunks[e].1 <= n,
        forall|a: int| 0 <= a < n ==> #[trigger] is_covered(chunks, a),
        total(chunks, by_length()) == n,
        0 <= e1 < chunks.len(),
        0 <= e2 < chunks.len(),
        covers(chunks[e1], at),
        covers(chunks[e2], at),
    ensures
        e1 == e2,
{
    let m = chunks.len();
    assert forall|a: int| 0 <= a < n implies #[trigger] cover_count(chunks, m, a) >= 1 by {
        assert(is_covered(chunks, a));
        let e = choose|e: int| 0 <= e < chunks.len() && covers(#[trigger] chunks[e], a);
        lemma_cover_count_least(chunks, m, a, e);
    }
    lemma_cover_sum(chunks, m, n);
    assert(chunks.take(m as int) == chunks);
    lemma_covered_once(chunks, m, n, at);
    if e1 < e2 {
        lemma_cover_count_least(chunks, m, at, e2);
        lemma_cover_count_least(chunks, e2 as nat, at, e1);
    } else if e2 < e1 {
        lemma_cover_count_least(chunks, m, at, e1);
        lemma_cover_count_least(chunks, e1 as nat, at, e2);
    }
}

} // verus!
