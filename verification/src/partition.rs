//! The partitioner: which byte range of the file belongs to which task of
//! which producer.
//!
//! A file of `n` bytes is cut into `p` producer ranges of
//! `ceil(n / p)` bytes each, the last ones shortened so that they end at `n`.
//! Every producer cuts its range into at most `k` chunks of equal size, the
//! last one shortened so that it ends where the range ends.
use vstd::prelude::*;

verus! {

/// `a / b`, rounded up.
pub open spec fn ceil_div(a: nat, b: nat) -> nat
    recommends
        b > 0,
{
    ((a + b - 1) / (b as int)) as nat
}

/// The smaller of two numbers.
pub open spec fn min_nat(a: nat, b: nat) -> nat {
    if a <= b {
        a
    } else {
        b
    }
}

/// The nominal size of a producer's range: `ceil(n / p)`.
pub open spec fn producer_chunk(n: nat, p: nat) -> nat {
    ceil_div(n, p)
}

/// Where the range of producer `i` starts.
pub open spec fn producer_start(n: nat, p: nat, i: nat) -> nat {
    min_nat(i * producer_chunk(n, p), n)
}

/// Where the range of producer `i` ends (exclusive).
pub open spec fn producer_end(n: nat, p: nat, i: nat) -> nat {
    min_nat((i + 1) * producer_chunk(n, p), n)
}

/// How many bytes producer `i` is responsible for.
pub open spec fn producer_share(n: nat, p: nat, i: nat) -> nat {
    (producer_end(n, p, i) - producer_start(n, p, i)) as nat
}

/// The size of the chunks of producer `i`, but for its last one. The last
/// producer divides what it really has; every other producer divides the
/// nominal range.
pub open spec fn task_chunk(n: nat, p: nat, k: nat, i: nat) -> nat {
    if i + 1 == p {
        ceil_div(producer_share(n, p, i), k)
    } else {
        ceil_div(producer_chunk(n, p), k)
    }
}

/// The file offset of chunk `j` of producer `i`.
pub open spec fn chunk_offset(n: nat, p: nat, k: nat, i: nat, j: nat) -> nat {
    min_nat(producer_start(n, p, i) + j * task_chunk(n, p, k, i), producer_end(n, p, i))
}

/// The length of chunk `j` of producer `i`.
pub open spec fn chunk_len(n: nat, p: nat, k: nat, i: nat, j: nat) -> nat {
    min_nat(
        task_chunk(n, p, k, i),
        (producer_end(n, p, i) - chunk_offset(n, p, k, i, j)) as nat,
    )
}

/// The largest chunk of the whole partition.
pub open spec fn max_chunk(n: nat, p: nat, k: nat) -> nat {
    ceil_div(producer_chunk(n, p), k)
}

/// Rounding up gives the least multiple of `b` that is not below `a`.
pub proof fn lemma_ceil_div(a: nat, b: nat)
    requires
        b > 0,
    ensures
        ceil_div(a, b) * b >= a,
        ceil_div(a, b) * b < a + b,
        ceil_div(a, b) <= a,
        a == 0 <==> ceil_div(a, b) == 0,
        ceil_div(a, b) == a / b + if a % b == 0 { 0int } else { 1int },
{
    let q = (a + b - 1) / (b as int);
    assert(q * b <= a + b - 1 < q * b + b && q >= 0) by (nonlinear_arith)
        requires
            q == (a + b - 1) / (b as int),
            b > 0,
            a >= 0,
    ;
    assert(q <= a) by (nonlinear_arith)
        requires
            q * b <= a + b - 1,
            b > 0,
            q >= 0,
            a >= 0,
    ;
    assert(q == a / b + if a % b == 0 { 0int } else { 1int }) by (nonlinear_arith)
        requires
            q == (a + b - 1) / (b as int),
            b > 0,
            a >= 0,
    ;
    assert(a == 0 ==> q == 0) by (nonlinear_arith)
        requires
            q * b < a + b,
            b > 0,
            q >= 0,
    ;
}

/// Rounding up keeps the order.
pub proof fn lemma_ceil_div_monotonic(a: nat, a2: nat, b: nat)
    requires
        b > 0,
        a <= a2,
    ensures
        ceil_div(a, b) <= ceil_div(a2, b),
{
    assert((a + b - 1) / (b as int) <= (a2 + b - 1) / (b as int)) by (nonlinear_arith)
        requires
            b > 0,
            0 <= a <= a2,
    ;
}

/// `a / b`, rounded up, without an intermediate sum that could overflow.
pub fn div_round_up(a: u64, b: u64) -> (q: u64)
    requires
        b > 0,
    ensures
        q == ceil_div(a as nat, b as nat),
{
    proof {
        lemma_ceil_div(a as nat, b as nat);
    }
    if a % b == 0 {
        a / b
    } else {
        a / b + 1
    }
}


/// The ranges of the producers follow one another from `0` to `n`, and none
/// is longer than the nominal size.
pub proof fn lemma_producer_ranges(n: nat, p: nat, i: nat)
    requires
        p > 0,
        i < p,
    ensures
        producer_start(n, p, i) <= producer_end(n, p, i) <= n,
        producer_share(n, p, i) <= producer_chunk(n, p),
        producer_end(n, p, i) == producer_start(n, p, i + 1),
        producer_start(n, p, 0) == 0,
        producer_end(n, p, (p - 1) as nat) == n,
{
    let c = producer_chunk(n, p);
    lemma_ceil_div(n, p);
    assert((i + 1) * c == i * c + c) by (nonlinear_arith);
    assert(0 * c == 0);
    assert(((p - 1) as nat + 1) * c == c * p) by (nonlinear_arith)
        requires
            p > 0,
    ;
}

/// A later producer starts no earlier than an earlier one ends.
pub proof fn lemma_producer_ranges_ordered(n: nat, p: nat, i1: nat, i2: nat)
    requires
        p > 0,
        i1 < i2,
    ensures
        producer_end(n, p, i1) <= producer_start(n, p, i2),
{
    let c = producer_chunk(n, p);
    assert((i1 + 1) * c <= i2 * c) by (nonlinear_arith)
        requires
            i1 + 1 <= i2,
            c >= 0,
    ;
}

/// `k` chunks of the producer's chunk size are enough for its whole range,
/// and no chunk size exceeds the largest one.
pub proof fn lemma_task_chunk(n: nat, p: nat, k: nat, i: nat)
    requires
        p > 0,
        k > 0,
        i < p,
    ensures
        k * task_chunk(n, p, k, i) >= producer_share(n, p, i),
        task_chunk(n, p, k, i) <= max_chunk(n, p, k),
        producer_share(n, p, i) > 0 ==> task_chunk(n, p, k, i) > 0,
{
    lemma_producer_ranges(n, p, i);
    lemma_ceil_div(producer_share(n, p, i), k);
    lemma_ceil_div(producer_chunk(n, p), k);
    lemma_ceil_div_monotonic(producer_share(n, p, i), producer_chunk(n, p), k);
    let t = task_chunk(n, p, k, i);
    assert(k * t == t * k) by (nonlinear_arith);
}

/// The chunks of one producer follow one another from the start of its range
/// to its end.
pub proof fn lemma_chunk_chain(n: nat, p: nat, k: nat, i: nat, j: nat)
    requires
        p > 0,
        k > 0,
        i < p,
    ensures
        chunk_offset(n, p, k, i, 0) == producer_start(n, p, i),
        chunk_offset(n, p, k, i, j) + chunk_len(n, p, k, i, j) == chunk_offset(n, p, k, i, j + 1),
        producer_start(n, p, i) <= chunk_offset(n, p, k, i, j) <= producer_end(n, p, i),
        chunk_len(n, p, k, i, j) <= max_chunk(n, p, k),
        j >= k ==> chunk_offset(n, p, k, i, j) == producer_end(n, p, i),
{
    lemma_producer_ranges(n, p, i);
    lemma_task_chunk(n, p, k, i);
    let t = task_chunk(n, p, k, i);
    assert(0 * t == 0);
    assert((j + 1) * t == j * t + t) by (nonlinear_arith);
    assert(j * t >= 0) by (nonlinear_arith)
        requires
            j >= 0,
            t >= 0,
    ;
    if j >= k {
        assert(j * t >= k * t) by (nonlinear_arith)
            requires
                j >= k,
                t >= 0,
        ;
    }
}

/// A later chunk of a producer starts no earlier than an earlier one ends.
pub proof fn lemma_chunks_ordered(n: nat, p: nat, k: nat, i: nat, j1: nat, j2: nat)
    requires
        p > 0,
        k > 0,
        i < p,
        j1 < j2,
    ensures
        chunk_offset(n, p, k, i, j1) + chunk_len(n, p, k, i, j1) <= chunk_offset(n, p, k, i, j2),
{
    lemma_chunk_chain(n, p, k, i, j1);
    let t = task_chunk(n, p, k, i);
    assert((j1 + 1) * t <= j2 * t) by (nonlinear_arith)
        requires
            j1 + 1 <= j2,
            t >= 0,
    ;
}

/// Whether byte `b` of the file lies in chunk `j` of producer `i`.
pub open spec fn chunk_holds(n: nat, p: nat, k: nat, i: nat, j: nat, b: nat) -> bool {
    &&& i < p
    &&& j < k
    &&& chunk_offset(n, p, k, i, j) <= b
    &&& b < chunk_offset(n, p, k, i, j) + chunk_len(n, p, k, i, j)
}

/// Whether a chunk that holds bytes starts at `offset`.
pub open spec fn is_chunk_start(n: nat, p: nat, k: nat, offset: nat) -> bool {
    exists|i: nat, j: nat|
        i < p && j < k && #[trigger] chunk_offset(n, p, k, i, j) == offset && chunk_len(
            n,
            p,
            k,
            i,
            j,
        ) > 0
}

/// Whether the bytes from `offset` on, `len` of them, are a chunk of the
/// partition that holds bytes.
pub open spec fn is_chunk(n: nat, p: nat, k: nat, offset: nat, len: nat) -> bool {
    exists|i: nat, j: nat|
        i < p && j < k && #[trigger] chunk_offset(n, p, k, i, j) == offset && chunk_len(
            n,
            p,
            k,
            i,
            j,
        ) == len && len > 0
}

/// The producer whose range holds byte `b`.
pub open spec fn producer_of_byte(n: nat, p: nat, b: nat) -> nat {
    b / producer_chunk(n, p)
}

/// The chunk of producer `i` that holds byte `b` of its range.
pub open spec fn task_at(n: nat, p: nat, k: nat, i: nat, b: nat) -> nat {
    ((b - producer_start(n, p, i)) / (task_chunk(n, p, k, i) as int)) as nat
}

/// The chunk, within its producer's range, that holds byte `b`.
pub open spec fn task_of_byte(n: nat, p: nat, k: nat, b: nat) -> nat {
    task_at(n, p, k, producer_of_byte(n, p, b), b)
}

/// The number of chunk `j` of producer `i` among all chunks of the file.
pub open spec fn chunk_id(k: nat, i: nat, j: nat) -> nat {
    i * k + j
}

/// Every byte of a producer's range lies in one of its chunks.
pub proof fn lemma_byte_in_range(n: nat, p: nat, k: nat, i: nat, b: nat)
    requires
        p > 0,
        k > 0,
        i < p,
        producer_start(n, p, i) <= b < producer_end(n, p, i),
    ensures
        chunk_holds(n, p, k, i, task_at(n, p, k, i, b), b),
        task_chunk(n, p, k, i) > 0,
{
    lemma_producer_ranges(n, p, i);
    lemma_task_chunk(n, p, k, i);
    let s = producer_start(n, p, i);
    let t = task_chunk(n, p, k, i);
    let j = task_at(n, p, k, i, b);
    let d = b - s;
    assert(j * t <= d < j * t + t && j >= 0) by (nonlinear_arith)
        requires
            j == d / (t as int),
            t > 0,
            d >= 0,
    ;
    assert(j < k) by (nonlinear_arith)
        requires
            j * t <= d,
            d < k * t,
            t > 0,
            j >= 0,
    ;
    lemma_chunk_chain(n, p, k, i, j);
    assert((j + 1) * t == j * t + t) by (nonlinear_arith);
}

/// Every byte of the file lies in a chunk.
pub proof fn lemma_byte_is_covered(n: nat, p: nat, k: nat, b: nat)
    requires
        p > 0,
        k > 0,
        b < n,
    ensures
        chunk_holds(n, p, k, producer_of_byte(n, p, b), task_of_byte(n, p, k, b), b),
{
    let c = producer_chunk(n, p);
    lemma_ceil_div(n, p);
    let i = producer_of_byte(n, p, b);
    assert(c > 0);
    assert(i * c <= b < i * c + c && i >= 0) by (nonlinear_arith)
        requires
            i == b / c,
            c > 0,
            b >= 0,
    ;
    assert(i < p) by (nonlinear_arith)
        requires
            i * c <= b,
            b < n,
            n <= c * p,
            c > 0,
            i >= 0,
    ;
    assert((i + 1) * c == i * c + c) by (nonlinear_arith);
    lemma_byte_in_range(n, p, k, i, b);
}

/// Every byte of the file lies in the range of the producer that
/// `producer_of_byte` names.
pub proof fn lemma_producer_of_byte(n: nat, p: nat, b: nat)
    requires
        p > 0,
        b < n,
    ensures
        producer_of_byte(n, p, b) < p,
        producer_start(n, p, producer_of_byte(n, p, b)) <= b < producer_end(
            n,
            p,
            producer_of_byte(n, p, b),
        ),
{
    let c = producer_chunk(n, p);
    lemma_ceil_div(n, p);
    let i = producer_of_byte(n, p, b);
    assert(i * c <= b < i * c + c && i >= 0) by (nonlinear_arith)
        requires
            i == b / c,
            c > 0,
            b >= 0,
    ;
    assert(i < p) by (nonlinear_arith)
        requires
            i * c <= b,
            b < n,
            n <= c * p,
            c > 0,
            i >= 0,
    ;
    assert((i + 1) * c == i * c + c) by (nonlinear_arith);
}

/// The chunk that holds the first byte of a chunk is that chunk: numbering
/// the chunk at an offset gives back the chunk that starts there.
pub proof fn lemma_task_at_chunk_start(n: nat, p: nat, k: nat, i: nat, j: nat)
    requires
        p > 0,
        k > 0,
        i < p,
        chunk_len(n, p, k, i, j) > 0,
    ensures
        j < k,
        task_at(n, p, k, i, chunk_offset(n, p, k, i, j)) == j,
        chunk_id(k, i, j) < p * k,
{
    let b = chunk_offset(n, p, k, i, j);
    lemma_chunk_chain(n, p, k, i, j);
    lemma_producer_ranges(n, p, i);
    lemma_task_chunk(n, p, k, i);
    assert(j < k);
    lemma_byte_in_range(n, p, k, i, b);
    lemma_byte_is_covered_once(n, p, k, b, i, j, i, task_at(n, p, k, i, b));
    assert(i * k + j < p * k) by (nonlinear_arith)
        requires
            i < p,
            j < k,
    ;
}

/// A chunk holds bytes exactly when it starts before the end of its
/// producer's range.
pub proof fn lemma_chunk_nonempty(n: nat, p: nat, k: nat, i: nat, j: nat)
    requires
        p > 0,
        k > 0,
        i < p,
    ensures
        chunk_len(n, p, k, i, j) > 0 <==> chunk_offset(n, p, k, i, j) < producer_end(n, p, i),
        chunk_len(n, p, k, i, j) > 0 ==> j < k,
{
    lemma_chunk_chain(n, p, k, i, j);
    lemma_producer_ranges(n, p, i);
    lemma_task_chunk(n, p, k, i);
}

/// No byte lies in two chunks.
pub proof fn lemma_byte_is_covered_once(
    n: nat,
    p: nat,
    k: nat,
    b: nat,
    i1: nat,
    j1: nat,
    i2: nat,
    j2: nat,
)
    requires
        p > 0,
        k > 0,
        chunk_holds(n, p, k, i1, j1, b),
        chunk_holds(n, p, k, i2, j2, b),
    ensures
        i1 == i2,
        j1 == j2,
{
    lemma_chunk_chain(n, p, k, i1, j1);
    lemma_chunk_chain(n, p, k, i1, j1 + 1);
    lemma_chunk_chain(n, p, k, i2, j2);
    lemma_chunk_chain(n, p, k, i2, j2 + 1);
    if i1 < i2 {
        lemma_producer_ranges_ordered(n, p, i1, i2);
    } else if i2 < i1 {
        lemma_producer_ranges_ordered(n, p, i2, i1);
    } else if j1 < j2 {
        lemma_chunks_ordered(n, p, k, i1, j1, j2);
    } else if j2 < j1 {
        lemma_chunks_ordered(n, p, k, i1, j2, j1);
    }
}


/// The sizes that a file of `total_size` bytes is cut into for
/// `num_producers` producers with `chunks_per_producer` chunks each.
#[derive(Clone, Copy, Debug, PartialEq, Eq, Structural)]
pub struct Partition {
    /// Length of the file.
    pub total_size: u64,
    /// Number of producers.
    pub num_producers: u64,
    /// Number of chunks that each producer cuts its range into.
    pub chunks_per_producer: u64,
    /// Nominal size of a producer's range.
    pub producer_chunk_size: u64,
    /// Size of the last producer's range.
    pub last_producer_chunk_size: u64,
    /// Size of the chunks of every producer but the last.
    pub task_chunk_size: u64,
    /// Size of the last chunk of a producer with a full range.
    pub last_task_chunk_size: u64,
    /// Size of the chunks of the last producer.
    pub last_prod_task_chunk_size: u64,
    /// Size of the last chunk of the last producer.
    pub last_last_prod_task_chunk_size: u64,
}

/// `min(base + count * size, limit)`, computed without overflow.
fn bounded_offset(base: u64, count: u64, size: u64, limit: u64) -> (r: u64)
    ensures
        r == min_nat((base + count * size) as nat, limit as nat),
{
    assert(0 <= count * size <= 0xFFFF_FFFF_FFFF_FFFF * 0xFFFF_FFFF_FFFF_FFFF) by (nonlinear_arith)
        requires
            0 <= count <= 0xFFFF_FFFF_FFFF_FFFF,
            0 <= size <= 0xFFFF_FFFF_FFFF_FFFF,
    ;
    let wide: u128 = base as u128 + (count as u128) * (size as u128);
    if wide >= limit as u128 {
        limit
    } else {
        wide as u64
    }
}

impl Partition {
    /// The number of bytes as a mathematical integer.
    pub open spec fn n(&self) -> nat {
        self.total_size as nat
    }

    /// The number of producers as a mathematical integer.
    pub open spec fn p(&self) -> nat {
        self.num_producers as nat
    }

    /// The number of chunks per producer as a mathematical integer.
    pub open spec fn k(&self) -> nat {
        self.chunks_per_producer as nat
    }

    /// The sizes are those of the partition of `total_size` bytes.
    pub open spec fn wf(&self) -> bool {
        &&& self.num_producers > 0
        &&& self.chunks_per_producer > 0
        &&& self.producer_chunk_size == producer_chunk(self.n(), self.p())
        &&& self.last_producer_chunk_size == producer_share(
            self.n(),
            self.p(),
            (self.p() - 1) as nat,
        )
        &&& self.task_chunk_size == max_chunk(self.n(), self.p(), self.k())
        &&& self.last_task_chunk_size == chunk_len(
            self.n(),
            self.p(),
            self.k(),
            0,
            (self.k() - 1) as nat,
        )
        &&& self.last_prod_task_chunk_size == task_chunk(
            self.n(),
            self.p(),
            self.k(),
            (self.p() - 1) as nat,
        )
        &&& self.last_last_prod_task_chunk_size == chunk_len(
            self.n(),
            self.p(),
            self.k(),
            (self.p() - 1) as nat,
            (self.k() - 1) as nat,
        )
    }

    /// The partition of a file of `total_size` bytes.
    pub open spec fn of(total_size: u64, num_producers: u64, chunks_per_producer: u64) -> Partition {
        let n = total_size as nat;
        let p = num_producers as nat;
        let k = chunks_per_producer as nat;
        Partition {
            total_size,
            num_producers,
            chunks_per_producer,
            producer_chunk_size: producer_chunk(n, p) as u64,
            last_producer_chunk_size: producer_share(n, p, (p - 1) as nat) as u64,
            task_chunk_size: max_chunk(n, p, k) as u64,
            last_task_chunk_size: chunk_len(n, p, k, 0, (k - 1) as nat) as u64,
            last_prod_task_chunk_size: task_chunk(n, p, k, (p - 1) as nat) as u64,
            last_last_prod_task_chunk_size: chunk_len(
                n,
                p,
                k,
                (p - 1) as nat,
                (k - 1) as nat,
            ) as u64,
        }
    }

    /// Cuts a file of `total_size` bytes.
    pub fn new(total_size: u64, num_producers: u64, chunks_per_producer: u64) -> (part: Partition)
        requires
            num_producers > 0,
            chunks_per_producer > 0,
        ensures
            part == Partition::of(total_size, num_producers, chunks_per_producer),
            part.wf(),
    {
        let ghost n = total_size as nat;
        let ghost p = num_producers as nat;
        let ghost k = chunks_per_producer as nat;
        let ghost last = (p - 1) as nat;
        let ghost tail_task = (k - 1) as nat;
        proof {
            lemma_producer_ranges(n, p, 0);
            lemma_producer_ranges(n, p, last);
            lemma_ceil_div(n, p);
        }
        let producer_chunk_size: u64 = div_round_up(total_size, num_producers);
        let ghost c = producer_chunk_size as nat;
        assert(c == producer_chunk(n, p));
        assert(0 * c == 0 && 1 * c == c) by (nonlinear_arith);
        assert(producer_start(n, p, 0) == 0);
        assert(producer_end(n, p, 0) == c);
        let last_start: u64 = bounded_offset(0, num_producers - 1, producer_chunk_size, total_size);
        assert(last_start == producer_start(n, p, last));
        let last_producer_chunk_size: u64 = total_size - last_start;
        assert(last_producer_chunk_size == producer_share(n, p, last));
        let task_chunk_size: u64 = div_round_up(producer_chunk_size, chunks_per_producer);
        let last_prod_task_chunk_size: u64 = div_round_up(
            last_producer_chunk_size,
            chunks_per_producer,
        );
        assert(task_chunk_size == max_chunk(n, p, k));
        assert(task_chunk_size == task_chunk(n, p, k, 0));
        assert(last_prod_task_chunk_size == task_chunk(n, p, k, last));
        let first_end: u64 = producer_chunk_size;
        let tail: u64 = bounded_offset(0, chunks_per_producer - 1, task_chunk_size, first_end);
        assert(tail == chunk_offset(n, p, k, 0, tail_task));
        let rest: u64 = first_end - tail;
        let last_task_chunk_size: u64 = if rest < task_chunk_size {
            rest
        } else {
            task_chunk_size
        };
        assert(last_task_chunk_size == chunk_len(n, p, k, 0, tail_task));
        let last_tail: u64 = bounded_offset(
            last_start,
            chunks_per_producer - 1,
            last_prod_task_chunk_size,
            total_size,
        );
        assert(last_tail == chunk_offset(n, p, k, last, tail_task));
        let last_rest: u64 = total_size - last_tail;
        let last_last_prod_task_chunk_size: u64 = if last_rest < last_prod_task_chunk_size {
            last_rest
        } else {
            last_prod_task_chunk_size
        };
        assert(last_last_prod_task_chunk_size == chunk_len(n, p, k, last, tail_task));
        Partition {
            total_size,
            num_producers,
            chunks_per_producer,
            producer_chunk_size,
            last_producer_chunk_size,
            task_chunk_size,
            last_task_chunk_size,
            last_prod_task_chunk_size,
            last_last_prod_task_chunk_size,
        }
    }

    /// The largest chunk of the partition.
    pub fn reserved_size(&self) -> (r: u64)
        requires
            self.wf(),
        ensures
            r == max_chunk(self.n(), self.p(), self.k()),
    {
        let a: u64 = if self.last_task_chunk_size > self.last_last_prod_task_chunk_size {
            self.last_task_chunk_size
        } else {
            self.last_last_prod_task_chunk_size
        };
        proof {
            lemma_chunk_chain(self.n(), self.p(), self.k(), 0, (self.k() - 1) as nat);
            lemma_chunk_chain(
                self.n(),
                self.p(),
                self.k(),
                (self.p() - 1) as nat,
                (self.k() - 1) as nat,
            );
        }
        if a > self.task_chunk_size {
            a
        } else {
            self.task_chunk_size
        }
    }

    /// The range of producer `i`: where it starts and where it ends.
    pub fn producer_range(&self, i: u64) -> (range: (u64, u64))
        requires
            self.wf(),
            i < self.num_producers,
        ensures
            range.0 == producer_start(self.n(), self.p(), i as nat),
            range.1 == producer_end(self.n(), self.p(), i as nat),
    {
        proof {
            lemma_producer_ranges(self.n(), self.p(), i as nat);
        }
        let start: u64 = bounded_offset(0, i, self.producer_chunk_size, self.total_size);
        let end: u64 = bounded_offset(start, 1, self.producer_chunk_size, self.total_size);
        proof {
            let c = self.producer_chunk_size as nat;
            assert((i as nat + 1) * c == i as nat * c + c) by (nonlinear_arith);
            assert(1 * c == c) by (nonlinear_arith);
        }
        (start, end)
    }

    /// The size of the chunks of producer `i`, but for its last one.
    pub fn task_chunk(&self, i: u64) -> (size: u64)
        requires
            self.wf(),
            i < self.num_producers,
        ensures
            size == task_chunk(self.n(), self.p(), self.k(), i as nat),
    {
        if i != self.num_producers - 1 {
            self.task_chunk_size
        } else {
            self.last_prod_task_chunk_size
        }
    }

    /// Chunk `j` of producer `i`: its file offset and its length.
    pub fn chunk(&self, i: u64, j: u64) -> (chunk: (u64, u64))
        requires
            self.wf(),
            i < self.num_producers,
        ensures
            chunk.0 == chunk_offset(self.n(), self.p(), self.k(), i as nat, j as nat),
            chunk.1 == chunk_len(self.n(), self.p(), self.k(), i as nat, j as nat),
    {
        let (start, end) = self.producer_range(i);
        let size: u64 = self.task_chunk(i);
        let offset: u64 = bounded_offset(start, j, size, end);
        let rest: u64 = end - offset;
        let len: u64 = if rest < size {
            rest
        } else {
            size
        };
        (offset, len)
    }

    /// The number, among all chunks of the file, of the chunk of producer
    /// `i` that holds the byte at `offset`.
    pub fn chunk_id_at(&self, i: u64, offset: u64) -> (id: u64)
        requires
            self.wf(),
            i < self.num_producers,
            self.num_producers * self.chunks_per_producer <= u64::MAX,
            producer_start(self.n(), self.p(), i as nat) <= offset < producer_end(
                self.n(),
                self.p(),
                i as nat,
            ),
        ensures
            id == chunk_id(self.k(), i as nat, task_at(self.n(), self.p(), self.k(), i as nat, offset as nat)),
            id < self.num_producers * self.chunks_per_producer,
    {
        proof {
            lemma_byte_in_range(self.n(), self.p(), self.k(), i as nat, offset as nat);
        }
        let (start, _end) = self.producer_range(i);
        let size: u64 = self.task_chunk(i);
        let j: u64 = (offset - start) / size;
        proof {
            let kk = self.chunks_per_producer as int;
            let pp = self.num_producers as int;
            assert(i * kk + j < pp * kk && i * kk >= 0) by (nonlinear_arith)
                requires
                    0 <= i < pp,
                    0 <= j < kk,
            ;
        }
        i * self.chunks_per_producer + j
    }
}

} // verus!
