//! The HTTP downloader's logic: buffer reuse, download status, splitting a file
//! into chunks, re-splitting the largest unfinished chunk, following the bytes
//! of one chunk, and reading the file size from response headers.
use vstd::prelude::*;

use crate::download::{engine_default_user_agent, engine_user_agent};
use crate::text::{
    after_last, after_last_spec, decimal, format_i64, parse_i64, parse_i64_spec, push_str,
    string_of,
};

verus! {

// ---------------------------------------------------------------------------
// Buffer pool

#[verifier::external_type_specification]
#[verifier::external_body]
#[verifier::reject_recursive_types(T)]
pub struct ExSegQueue<T>(crossbeam::queue::SegQueue<T>);

/// The buffers held by a queue, front first.
pub uninterp spec fn queue_contents(q: crossbeam::queue::SegQueue<Vec<u8>>) -> Seq<Seq<u8>>;

/// `SegQueue::new`. Trusted: the new queue holds nothing.
#[verifier::external_body]
fn queue_new() -> (q: crossbeam::queue::SegQueue<Vec<u8>>)
    ensures
        queue_contents(q) == Seq::<Seq<u8>>::empty(),
{
    crossbeam::queue::SegQueue::new()
}

/// `SegQueue::push`. Trusted: the buffer is added at the back.
#[verifier::external_body]
fn queue_push(q: &mut crossbeam::queue::SegQueue<Vec<u8>>, v: Vec<u8>)
    ensures
        queue_contents(*final(q)) == queue_contents(*old(q)).push(v@),
{
    q.push(v);
}

/// `SegQueue::pop`. Trusted: an empty queue gives `None` and stays empty;
/// otherwise the front buffer is removed and returned.
#[verifier::external_body]
fn queue_pop(q: &mut crossbeam::queue::SegQueue<Vec<u8>>) -> (r: Option<Vec<u8>>)
    ensures
        queue_contents(*old(q)).len() == 0 ==> r is None && queue_contents(*final(q))
            == queue_contents(*old(q)),
        queue_contents(*old(q)).len() > 0 ==> (r matches Some(b) && b@ == queue_contents(
            *old(q),
        )[0]) && queue_contents(*final(q)) == queue_contents(*old(q)).drop_first(),
{
    q.pop()
}

/// A pool of equally sized buffers kept for reuse.
pub struct BufferPool {
    pool: crossbeam::queue::SegQueue<Vec<u8>>,
    chunk_size: usize,
}

/// `n` zero bytes.
pub open spec fn zeros(n: nat) -> Seq<u8> {
    Seq::new(n, |_i: int| 0u8)
}

impl BufferPool {
    #[verifier::type_invariant]
    spec fn sizes_match(self) -> bool {
        forall|i: int|
            0 <= i < queue_contents(self.pool).len() ==> #[trigger] queue_contents(self.pool)[i].len()
                == self.chunk_size
    }

    /// The buffers in the pool, the next one handed out first.
    pub closed spec fn buffers(&self) -> Seq<Seq<u8>> {
        queue_contents(self.pool)
    }

    /// The size of every buffer of the pool.
    pub closed spec fn buffer_size(&self) -> usize {
        self.chunk_size
    }

    /// A pool of `initial_count` zeroed buffers of `chunk_size` bytes.
    pub fn new(chunk_size: usize, initial_count: usize) -> (p: BufferPool)
        ensures
            p.buffer_size() == chunk_size,
            p.buffers() == Seq::new(initial_count as nat, |_i: int| zeros(chunk_size as nat)),
    {
        let mut pool = queue_new();
        let mut i: usize = 0;
        while i < initial_count
            invariant
                0 <= i <= initial_count,
                queue_contents(pool) == Seq::new(i as nat, |_i: int| zeros(chunk_size as nat)),
            decreases initial_count - i,
        {
            let buf: Vec<u8> = vec![0u8; chunk_size];
            assert(buf@ =~= zeros(chunk_size as nat));
            queue_push(&mut pool, buf);
            assert(queue_contents(pool) =~= Seq::new((i + 1) as nat, |_i: int| zeros(chunk_size as nat)));
            i = i + 1;
        }
        BufferPool { pool, chunk_size }
    }

    /// A buffer of the pool's size: the pool's next buffer, or a new zeroed one
    /// when the pool is empty.
    pub fn get(&mut self) -> (b: Vec<u8>)
        ensures
            final(self).buffer_size() == old(self).buffer_size(),
            b.len() == old(self).buffer_size(),
            old(self).buffers().len() > 0 ==> b@ == old(self).buffers()[0] && final(self).buffers()
                == old(self).buffers().drop_first(),
            old(self).buffers().len() == 0 ==> b@ == zeros(old(self).buffer_size() as nat)
                && final(self).buffers() == old(self).buffers(),
    {
        proof {
            use_type_invariant(&*self);
        }
        let mut q = queue_new();
        std::mem::swap(&mut q, &mut self.pool);
        let popped = queue_pop(&mut q);
        self.pool = q;
        match popped {
            Some(b) => b,
            None => {
                let b: Vec<u8> = vec![0u8; self.chunk_size];
                assert(b@ =~= zeros(self.chunk_size as nat));
                b
            },
        }
    }

    /// Returns a buffer to the pool; one of another size is dropped.
    pub fn put(&mut self, buffer: Vec<u8>)
        ensures
            final(self).buffer_size() == old(self).buffer_size(),
            final(self).buffers() == if buffer.len() == old(self).buffer_size() {
                old(self).buffers().push(buffer@)
            } else {
                old(self).buffers()
            },
    {
        proof {
            use_type_invariant(&*self);
        }
        if buffer.len() == self.chunk_size {
            let mut q = queue_new();
            std::mem::swap(&mut q, &mut self.pool);
            queue_push(&mut q, buffer);
            self.pool = q;
        }
    }
}

/// A buffer of the pool's size returned to an empty pool is the next buffer
/// handed out, and the pool is empty again afterwards.
pub proof fn lemma_put_then_get(buffers: Seq<Seq<u8>>, b: Seq<u8>)
    requires
        buffers.len() == 0,
    ensures
        buffers.push(b).len() > 0,
        buffers.push(b)[0] == b,
        buffers.push(b).drop_first() == buffers,
{
    assert(buffers.push(b).drop_first() =~= buffers);
}

/// Every buffer of `bufs` is `size` zero bytes.
pub open spec fn all_zeroed(bufs: Seq<Seq<u8>>, size: nat) -> bool {
    forall|i: int| 0 <= i < bufs.len() ==> #[trigger] bufs[i] == zeros(size)
}

/// A pool just made holds zeroed buffers, and as long as only `get` is called
/// on it, each call hands out a zeroed buffer of the pool's size: `pools[k]` is
/// the pool before the `k`-th call, `outs[k]` what that call returned.
pub proof fn lemma_gets_after_new_are_zeroed(
    chunk_size: usize,
    initial_count: usize,
    pools: Seq<BufferPool>,
    outs: Seq<Seq<u8>>,
)
    requires
        pools.len() == outs.len() + 1,
        pools[0].buffer_size() == chunk_size,
        pools[0].buffers() == Seq::new(initial_count as nat, |_i: int| zeros(chunk_size as nat)),
        forall|k: int|
            0 <= k < outs.len() ==> {
                &&& #[trigger] pools[k + 1].buffer_size() == pools[k].buffer_size()
                &&& pools[k].buffers().len() > 0 ==> outs[k] == pools[k].buffers()[0]
                    && pools[k + 1].buffers() == pools[k].buffers().drop_first()
                &&& pools[k].buffers().len() == 0 ==> outs[k] == zeros(
                    pools[k].buffer_size() as nat,
                ) && pools[k + 1].buffers() == pools[k].buffers()
            },
    ensures
        forall|k: int| 0 <= k < outs.len() ==> #[trigger] outs[k] == zeros(chunk_size as nat),
{
    assert forall|k: int| 0 <= k < outs.len() implies #[trigger] outs[k] == zeros(
        chunk_size as nat,
    ) by {
        lemma_pool_stays_zeroed(chunk_size, initial_count, pools, outs, k);
    }
}

/// Before the `j`-th `get` the pool still holds only zeroed buffers of the
/// pool's size, so that call hands out a zeroed buffer.
#[verifier::spinoff_prover]
proof fn lemma_pool_stays_zeroed(
    chunk_size: usize,
    initial_count: usize,
    pools: Seq<BufferPool>,
    outs: Seq<Seq<u8>>,
    j: int,
)
    requires
        pools.len() == outs.len() + 1,
        0 <= j < outs.len(),
        pools[0].buffer_size() == chunk_size,
        pools[0].buffers() == Seq::new(initial_count as nat, |_i: int| zeros(chunk_size as nat)),
        forall|k: int|
            0 <= k < outs.len() ==> {
                &&& #[trigger] pools[k + 1].buffer_size() == pools[k].buffer_size()
                &&& pools[k].buffers().len() > 0 ==> outs[k] == pools[k].buffers()[0]
                    && pools[k + 1].buffers() == pools[k].buffers().drop_first()
                &&& pools[k].buffers().len() == 0 ==> outs[k] == zeros(
                    pools[k].buffer_size() as nat,
                ) && pools[k + 1].buffers() == pools[k].buffers()
            },
    ensures
        pools[j].buffer_size() == chunk_size,
        all_zeroed(pools[j].buffers(), chunk_size as nat),
        outs[j] == zeros(chunk_size as nat),
    decreases j,
{
    if j > 0 {
        lemma_pool_stays_zeroed(chunk_size, initial_count, pools, outs, j - 1);
        let k = j - 1;
        let prev = pools[k].buffers();
        assert(pools[k + 1].buffer_size() == pools[k].buffer_size());
        assert(k + 1 == j);
        if prev.len() > 0 {
            assert(pools[k + 1].buffers() == prev.drop_first());
            assert forall|i: int| 0 <= i < pools[j].buffers().len() implies #[trigger] pools[j].buffers()[i]
                == zeros(chunk_size as nat) by {
                assert(pools[j].buffers()[i] == prev[i + 1]);
            }
        }
    }
    let cur = pools[j].buffers();
    assert(pools[j + 1].buffer_size() == pools[j].buffer_size());
    if cur.len() > 0 {
        assert(cur[0] == zeros(chunk_size as nat));
    }
}

// ---------------------------------------------------------------------------
// Download status

/// The progress of one download: total size, bytes received, and an error.
pub struct DownloadStatus {
    total_size: i64,
    downloaded: i64,
    error_message: Option<String>,
}

impl DownloadStatus {
    /// The size of the file.
    pub closed spec fn total(&self) -> i64 {
        self.total_size
    }

    /// The bytes received so far.
    pub closed spec fn downloaded_bytes(&self) -> i64 {
        self.downloaded
    }

    /// The error recorded, if any.
    pub closed spec fn error(&self) -> Option<Seq<char>> {
        match self.error_message {
            Some(m) => Some(m@),
            None => None,
        }
    }

    /// Nothing received, no error.
    pub fn new(total_size: i64) -> (s: DownloadStatus)
        ensures
            s.total() == total_size,
            s.downloaded_bytes() == 0,
            s.error() is None,
    {
        DownloadStatus { total_size, downloaded: 0, error_message: None }
    }

    /// Records an error message, replacing any earlier one.
    pub fn set_error(&mut self, msg: String)
        ensures
            final(self).error() == Some(msg@),
            final(self).total() == old(self).total(),
            final(self).downloaded_bytes() == old(self).downloaded_bytes(),
    {
        self.error_message = Some(msg);
    }

    /// The recorded error message, if any.
    pub fn get_error(&self) -> (r: Option<String>)
        ensures
            match r {
                Some(m) => self.error() == Some(m@),
                None => self.error() is None,
            },
    {
        match &self.error_message {
            Some(m) => Some(m.clone()),
            None => None,
        }
    }

    /// Counts `bytes` more bytes as received.
    pub fn add_downloaded(&mut self, bytes: i64)
        requires
            i64::MIN <= old(self).downloaded_bytes() + bytes <= i64::MAX,
        ensures
            final(self).downloaded_bytes() == old(self).downloaded_bytes() + bytes,
            final(self).total() == old(self).total(),
            final(self).error() == old(self).error(),
    {
        self.downloaded = self.downloaded + bytes;
    }

    /// The size of the file.
    pub fn total_size(&self) -> (r: i64)
        ensures
            r == self.total(),
    {
        self.total_size
    }

    /// The bytes received so far.
    pub fn get_downloaded(&self) -> (r: i64)
        ensures
            r == self.downloaded_bytes(),
    {
        self.downloaded
    }

    /// Finished: every byte received, or an error recorded.
    pub fn is_finished(&self) -> (r: bool)
        ensures
            r == (self.downloaded_bytes() >= self.total() || self.error() is Some),
    {
        self.downloaded >= self.total_size || self.error_message.is_some()
    }
}


/// The sum of the byte counts of `adds`.
pub open spec fn sum_of(adds: Seq<i64>) -> int
    decreases adds.len(),
{
    if adds.len() == 0 {
        0
    } else {
        sum_of(adds.drop_last()) + adds.last()
    }
}

/// Taking one count out of `s` takes it out of the sum.
proof fn lemma_sum_remove(s: Seq<i64>, j: int)
    requires
        0 <= j < s.len(),
    ensures
        sum_of(s) == sum_of(s.remove(j)) + s[j],
    decreases s.len(),
{
    if j == s.len() - 1 {
        assert(s.remove(j) == s.drop_last());
    } else {
        lemma_sum_remove(s.drop_last(), j);
        assert(s.remove(j).drop_last() == s.drop_last().remove(j));
        assert(s.remove(j).last() == s.last());
    }
}

/// The sum of the counts does not depend on their order: two lists holding the
/// same counts, each as often, have the same sum.
#[verifier::spinoff_prover]
pub proof fn lemma_sum_any_order(a: Seq<i64>, b: Seq<i64>)
    requires
        a.to_multiset() == b.to_multiset(),
    ensures
        sum_of(a) == sum_of(b),
    decreases a.len(),
{
    broadcast use vstd::seq_lib::group_to_multiset_ensures;

    if a.len() == 0 {
        assert(b.to_multiset().len() == 0);
        assert(b.len() == 0);
    } else {
        let x = a.last();
        let rest = a.drop_last();
        assert(a == rest.push(x));
        assert(a.to_multiset().count(x) > 0);
        assert(b.contains(x));
        let j = b.index_of(x);
        assert(b[j] == x);
        assert(b.remove(j).to_multiset() =~= rest.to_multiset()) by {
            assert(a.to_multiset() =~= rest.to_multiset().insert(x));
        }
        lemma_sum_any_order(rest, b.remove(j));
        lemma_sum_remove(b, j);
    }
}

/// After a run of `add_downloaded` calls, the counter is what it was plus the
/// sum of the counts added: `states[k]` is the status before the `k`-th call,
/// which added `adds[k]`. With `lemma_sum_any_order`, the order of the calls
/// does not matter.
#[verifier::spinoff_prover]
pub proof fn lemma_downloaded_is_sum(states: Seq<DownloadStatus>, adds: Seq<i64>)
    requires
        states.len() == adds.len() + 1,
        forall|k: int|
            0 <= k < adds.len() ==> #[trigger] states[k + 1].downloaded_bytes()
                == states[k].downloaded_bytes() + adds[k],
    ensures
        states.last().downloaded_bytes() == states[0].downloaded_bytes() + sum_of(adds),
    decreases adds.len(),
{
    if adds.len() > 0 {
        let n = adds.len() - 1;
        let front = states.take(n + 1);
        assert forall|k: int| 0 <= k < adds.drop_last().len() implies #[trigger] front[k
            + 1].downloaded_bytes() == front[k].downloaded_bytes() + adds.drop_last()[k] by {
            assert(states[k + 1].downloaded_bytes() == states[k].downloaded_bytes() + adds[k]);
        }
        lemma_downloaded_is_sum(front, adds.drop_last());
        assert(states[n + 1].downloaded_bytes() == states[n].downloaded_bytes() + adds[n]);
    }
}

/// The error after a run of calls: the message of the last `set_error` among
/// them (`Some(m)` in `sets`), or `start` if there was none.
pub open spec fn last_error(start: Option<Seq<char>>, sets: Seq<Option<Seq<char>>>) -> Option<
    Seq<char>,
>
    decreases sets.len(),
{
    if sets.len() == 0 {
        start
    } else {
        match sets.last() {
            Some(m) => Some(m),
            None => last_error(start, sets.drop_last()),
        }
    }
}

/// The error a status reports is the message of the last `set_error`, or none
/// if there was none: `states[k]` is the status before the `k`-th call, which
/// is `set_error(m)` for `sets[k] == Some(m)` and otherwise a call that keeps
/// the error (`add_downloaded`, `get_error` and the other readers).
#[verifier::spinoff_prover]
pub proof fn lemma_error_is_last_set(states: Seq<DownloadStatus>, sets: Seq<Option<Seq<char>>>)
    requires
        states.len() == sets.len() + 1,
        forall|k: int|
            0 <= k < sets.len() ==> (#[trigger] sets[k] matches Some(m) ==> states[k
                + 1].error() == Some(m)) && (sets[k] is None ==> states[k + 1].error()
                == states[k].error()),
    ensures
        states.last().error() == last_error(states[0].error(), sets),
    decreases sets.len(),
{
    if sets.len() > 0 {
        let n = sets.len() - 1;
        let front = states.take(n + 1);
        let first = sets.drop_last();
        assert forall|k: int| 0 <= k < first.len() implies (#[trigger] first[k] matches Some(m)
            ==> front[k + 1].error() == Some(m)) && (first[k] is None ==> front[k + 1].error()
            == front[k].error()) by {
            assert(sets[k] == first[k]);
        }
        lemma_error_is_last_set(front, first);
        assert(sets[n] == sets.last());
    }
}

// ---------------------------------------------------------------------------
// Chunks

/// One byte range `[start_offset, end_offset]` of the file.
#[derive(Debug, Clone, Copy)]
pub struct DownloadChunk {
    pub start_offset: i64,
    pub end_offset: i64,
    pub done: bool,
}

/// One mebibyte.
pub const MIB: i64 = 1048576;

/// `2 * thread_count` read as an `i64`, as the cast from `usize` gives it:
/// a double above `i64::MAX` wraps round to a negative number.
pub open spec fn wrapped_double(thread_count: usize) -> int {
    if 2 * thread_count <= i64::MAX {
        2 * thread_count
    } else {
        2 * thread_count - 0x1_0000_0000_0000_0000
    }
}

/// The quotient of `n` by a non-zero `d`, rounded toward zero.
pub open spec fn div_toward_zero(n: int, d: int) -> int {
    if d > 0 {
        if n >= 0 {
            n / d
        } else {
            -((-n) / d)
        }
    } else {
        if n >= 0 {
            -(n / (-d))
        } else {
            (-n) / (-d)
        }
    }
}

/// The chunk size used for a file: the configured one, unless the file split
/// into `2 * thread_count` parts gives larger parts, in which case that part
/// size, at least one mebibyte.
pub open spec fn effective_chunk_size(file_size: i64, chunk_size: i64, thread_count: usize) -> int {
    let parts = div_toward_zero(file_size as int, wrapped_double(thread_count));
    if parts > chunk_size {
        if parts < MIB {
            MIB as int
        } else {
            parts
        }
    } else {
        chunk_size as int
    }
}

/// The part size `file_size / (2 * thread_count)`, the divisor read as an
/// `i64` (see `wrapped_double`).
fn part_size(file_size: i64, thread_count: usize) -> (r: i64)
    requires
        0 < thread_count,
        2 * thread_count <= usize::MAX,
    ensures
        r == div_toward_zero(file_size as int, wrapped_double(thread_count)),
{
    let doubled: usize = thread_count * 2;
    let wide: i128 = doubled as i128;
    let d: i128 = if wide <= 0x7fff_ffff_ffff_ffff {
        wide
    } else {
        wide - 0x1_0000_0000_0000_0000
    };
    assert(d == wrapped_double(thread_count));
    assert(d != 0 && (d >= 2 || d <= -2));
    let n: i128 = file_size as i128;
    let an: u128 = if n >= 0 { n as u128 } else { (-n) as u128 };
    let ad: u128 = if d > 0 { d as u128 } else { (-d) as u128 };
    let qa: u128 = an / ad;
    assert(qa <= 0x4000_0000_0000_0000) by (nonlinear_arith)
        requires
            ad >= 2,
            an <= 0x8000_0000_0000_0000,
            qa == an / ad,
    ;
    proof {
        let ni = file_size as int;
        let di = wrapped_double(thread_count);
        if ni >= 0 {
            assert(an as int == ni);
        } else {
            assert(an as int == -ni);
        }
        if di > 0 {
            assert(ad as int == di);
        } else {
            assert(ad as int == -di);
        }
    }
    let same_sign = (n >= 0) == (d > 0);
    let q: i64 = if same_sign {
        qa as i64
    } else {
        -(qa as i64)
    };
    q
}

/// Whether `create_chunks` can split a file of `file_size` bytes with these
/// settings: a positive worker count whose double fits in a `usize`, and a
/// positive effective chunk size when the file is not empty.
pub fn can_create_chunks(file_size: i64, chunk_size: i64, thread_count: usize) -> (r: bool)
    ensures
        r == (0 < thread_count && 2 * thread_count <= usize::MAX && (file_size > 0
            ==> effective_chunk_size(file_size, chunk_size, thread_count) > 0)),
{
    if thread_count == 0 || thread_count > usize::MAX / 2 {
        return false;
    }
    if file_size <= 0 {
        return true;
    }
    let parts = part_size(file_size, thread_count);
    if parts > chunk_size {
        true
    } else {
        chunk_size > 0
    }
}

/// The chunk size of a non-empty file, for a worker count whose double fits
/// in an `i64`: with `q` the file size divided by twice the worker count, it is
/// the configured size when `q` is not larger, else `q` raised to at least one
/// mebibyte. So it is never below the configured size, and it differs from it
/// exactly when `q` exceeds it.
pub proof fn lemma_effective_chunk_size_value(file_size: i64, chunk_size: i64, thread_count: usize)
    requires
        0 < thread_count,
        2 * thread_count <= i64::MAX,
        file_size > 0,
    ensures
        ({
            let q = (file_size as int) / (2 * thread_count as int);
            let e = effective_chunk_size(file_size, chunk_size, thread_count);
            &&& q <= chunk_size ==> e == chunk_size
            &&& q > chunk_size && q < 1048576 ==> e == 1048576
            &&& q > chunk_size && q >= 1048576 ==> e == q
            &&& e >= chunk_size
            &&& (e == chunk_size <==> q <= chunk_size)
        }),
{
    assert(wrapped_double(thread_count) == 2 * thread_count);
}

/// With a worker count whose double does not fit in an `i64` (read as a
/// negative divisor), a non-negative configured chunk size is kept.
pub proof fn lemma_effective_chunk_size_wrapped(file_size: i64, chunk_size: i64, thread_count: usize)
    requires
        2 * thread_count > i64::MAX,
        2 * thread_count <= usize::MAX,
        file_size > 0,
        chunk_size >= 0,
    ensures
        effective_chunk_size(file_size, chunk_size, thread_count) == chunk_size,
{
    let d = wrapped_double(thread_count);
    assert(d < 0);
    assert((file_size as int) / (-d) >= 0) by (nonlinear_arith)
        requires
            file_size > 0,
            -d > 0,
    ;
}

/// Chunk `i` of a file of `file_size` bytes cut in pieces of `cs` bytes.
pub open spec fn chunk_bounds(i: int, cs: int, file_size: int) -> (int, int) {
    let start = i * cs;
    let end = if (i + 1) * cs - 1 < file_size - 1 {
        (i + 1) * cs - 1
    } else {
        file_size - 1
    };
    (start, end)
}

/// Chunk `i` of `r` is `chunk_bounds(i, cs, file_size)`, not yet done.
pub open spec fn chunks_follow(r: Seq<DownloadChunk>, cs: int, file_size: int) -> bool {
    forall|i: int|
        0 <= i < r.len() ==> (#[trigger] r[i].start_offset as int, r[i].end_offset as int)
            == chunk_bounds(i, cs, file_size) && !r[i].done
}

/// The number of chunks: the file size divided by the chunk size, rounded up.
pub open spec fn chunk_count(cs: int, file_size: int) -> int {
    (file_size + cs - 1) / cs
}

/// Splits a file of `file_size` bytes into consecutive chunks of the effective
/// chunk size (the last one possibly shorter), none when the file is empty.
#[verifier::spinoff_prover]
pub fn create_chunks(file_size: i64, chunk_size: i64, thread_count: usize) -> (r: Vec<DownloadChunk>)
    requires
        0 < thread_count,
        2 * thread_count <= usize::MAX,
        file_size > 0 ==> effective_chunk_size(file_size, chunk_size, thread_count) > 0,
    ensures
        file_size <= 0 ==> r.len() == 0,
        file_size > 0 ==> r.len() == chunk_count(
            effective_chunk_size(file_size, chunk_size, thread_count),
            file_size as int,
        ),
        file_size > 0 ==> chunks_follow(
            r@,
            effective_chunk_size(file_size, chunk_size, thread_count),
            file_size as int,
        ),
{
    let mut chunks: Vec<DownloadChunk> = Vec::new();
    if file_size <= 0 {
        return chunks;
    }
    let parts = part_size(file_size, thread_count);
    let mut cs = chunk_size;
    if parts > cs {
        cs = parts;
        if cs < MIB {
            cs = MIB;
        }
    }
    assert(cs == effective_chunk_size(file_size, chunk_size, thread_count));
    let mut offset: i64 = 0;
    proof {
        lemma_mul_step(0, cs as int);
    }
    while offset < file_size
        invariant
            0 < cs,
            0 < file_size,
            0 <= offset <= file_size,
            offset < file_size ==> offset == chunks.len() * cs,
            offset == file_size ==> file_size <= chunks.len() * cs,
            chunks.len() > 0 ==> (chunks.len() - 1) * cs < file_size,
            forall|i: int|
                0 <= i < chunks.len() ==> (#[trigger] chunks@[i].start_offset as int, chunks@[i].end_offset as int)
                    == chunk_bounds(i, cs as int, file_size as int) && !chunks@[i].done,
        decreases file_size - offset,
    {
        let ghost n = chunks.len() as int;
        let ghost before = chunks@;
        proof {
            lemma_mul_step(n, cs as int);
        }
        let end = if cs - 1 >= file_size - 1 - offset {
            file_size - 1
        } else {
            offset + cs - 1
        };
        let c = DownloadChunk { start_offset: offset, end_offset: end, done: false };
        assert((c.start_offset as int, c.end_offset as int) == chunk_bounds(n, cs as int, file_size as int));
        chunks.push(c);
        proof {
            assert forall|i: int| 0 <= i < chunks.len() implies (#[trigger] chunks@[i].start_offset as int, chunks@[i].end_offset as int)
                == chunk_bounds(i, cs as int, file_size as int) && !chunks@[i].done by {
                if i < n {
                    assert(chunks@[i] == before[i]);
                }
            }
        }
        offset = end + 1;
    }
    proof {
        let n = chunks.len() as int;
        lemma_ceil_div(n, cs as int, file_size as int);
    }
    chunks
}

/// One more chunk of `c` bytes: `(n + 1) * c == n * c + c`, and `0 * c == 0`.
proof fn lemma_mul_step(n: int, c: int)
    ensures
        (n + 1) * c == n * c + c,
        0 * c == 0,
{
    assert((n + 1) * c == n * c + c) by (nonlinear_arith);
    assert(0 * c == 0) by (nonlinear_arith);
}

/// `n` is the rounded-up quotient when `(n - 1) * c < f <= n * c`.
pub proof fn lemma_ceil_div(n: int, c: int, f: int)
    requires
        0 < c,
        0 < f,
        n > 0 ==> (n - 1) * c < f,
        f <= n * c,
    ensures
        n == (f + c - 1) / c,
{
    assert(n > 0) by (nonlinear_arith)
        requires
            0 < c,
            0 < f,
            f <= n * c,
    ;
    let q = (f + c - 1) / c;
    assert(q == n) by (nonlinear_arith)
        requires
            0 < c,
            (n - 1) * c < f,
            f <= n * c,
            q == (f + c - 1) / c,
    ;
}

/// The chunks of a file are consecutive and cover it exactly: the first starts
/// at 0, each starts right after the one before, all but the last hold `cs`
/// bytes, and the last ends at the file's last byte.
pub proof fn lemma_chunks_partition(cs: int, file_size: int, i: int)
    requires
        0 < cs,
        0 < file_size,
        0 <= i < chunk_count(cs, file_size),
    ensures
        chunk_bounds(0, cs, file_size).0 == 0,
        chunk_bounds(i, cs, file_size).0 <= chunk_bounds(i, cs, file_size).1,
        i + 1 < chunk_count(cs, file_size) ==> chunk_bounds(i + 1, cs, file_size).0
            == chunk_bounds(i, cs, file_size).1 + 1 && chunk_bounds(i, cs, file_size).1
            - chunk_bounds(i, cs, file_size).0 + 1 == cs,
        i + 1 == chunk_count(cs, file_size) ==> chunk_bounds(i, cs, file_size).1 == file_size - 1,
        chunk_bounds(i, cs, file_size).1 - chunk_bounds(i, cs, file_size).0 + 1 <= cs,
{
    let n = chunk_count(cs, file_size);
    assert((n - 1) * cs < file_size && file_size <= n * cs) by (nonlinear_arith)
        requires
            0 < cs,
            0 < file_size,
            n == (file_size + cs - 1) / cs,
    ;
    assert(i * cs < file_size) by (nonlinear_arith)
        requires
            0 < cs,
            0 <= i <= n - 1,
            (n - 1) * cs < file_size,
    ;
    assert((i + 1) * cs == i * cs + cs) by (nonlinear_arith);
    if i + 1 < n {
        assert((i + 1) * cs < file_size) by (nonlinear_arith)
            requires
                0 < cs,
                i + 1 <= n - 1,
                (n - 1) * cs < file_size,
        ;
        assert((i + 2) * cs == (i + 1) * cs + cs) by (nonlinear_arith);
    } else {
        assert(file_size <= (i + 1) * cs);
    }
    assert(0 * cs == 0) by (nonlinear_arith);
}

// ---------------------------------------------------------------------------
// Chunk workers and re-splitting

/// The smallest remaining range worth splitting (2 MiB).
pub const MIN_REASSIGN_SIZE: i64 = 2097152;

/// The largest number of connections.
pub const MAX_CONNECTIONS: usize = 64;

/// The state of one chunk being downloaded: where it started, the next byte to
/// fetch, and the last byte of its range (inclusive; it may be moved down to
/// hand work to a new worker).
#[derive(Debug, Clone, Copy)]
pub struct ChunkWorker {
    pub start_pos: i64,
    pub progress: i64,
    pub end_pos: i64,
}

/// The bytes a worker still has to fetch: those of `[progress, end_pos]`.
pub open spec fn remaining_spec(w: ChunkWorker) -> int {
    if w.end_pos >= w.progress {
        w.end_pos - w.progress + 1
    } else {
        0
    }
}

/// The remaining work of `w` can be counted in an `i64`.
pub open spec fn worker_in_range(w: ChunkWorker) -> bool {
    i64::MIN <= w.end_pos - w.progress && w.end_pos - w.progress + 1 <= i64::MAX
}

impl ChunkWorker {
    /// A worker for `[start, end]` that has fetched nothing yet.
    pub fn new(start: i64, end: i64) -> (w: ChunkWorker)
        ensures
            w.start_pos == start,
            w.progress == start,
            w.end_pos == end,
    {
        ChunkWorker { start_pos: start, progress: start, end_pos: end }
    }

    /// Remaining bytes not downloaded.
    pub fn remaining(&self) -> (r: i64)
        requires
            worker_in_range(*self),
        ensures
            r == remaining_spec(*self),
    {
        let d = self.end_pos - self.progress;
        if d >= 0 {
            d + 1
        } else {
            0
        }
    }
}

/// A decision to split worker `worker`: it keeps `[progress, mid]` and a new
/// worker takes `[new_start, new_end]`.
#[derive(Debug, Clone, Copy)]
pub struct SplitPlan {
    pub worker: usize,
    pub mid: i64,
    pub new_start: i64,
    pub new_end: i64,
}

/// `i` is the first worker with the most remaining work, which is positive.
pub open spec fn first_busiest(ws: Seq<ChunkWorker>, i: int) -> bool {
    &&& 0 <= i < ws.len()
    &&& remaining_spec(ws[i]) > 0
    &&& forall|j: int| 0 <= j < i ==> remaining_spec(#[trigger] ws[j]) < remaining_spec(ws[i])
    &&& forall|j: int| i < j < ws.len() ==> remaining_spec(#[trigger] ws[j]) <= remaining_spec(ws[i])
}

/// The remaining work of every worker can be counted in an `i64`.
pub open spec fn all_in_range(ws: Seq<ChunkWorker>) -> bool {
    forall|i: int| 0 <= i < ws.len() ==> worker_in_range(#[trigger] ws[i])
}

/// `p` halves the first busiest worker of `ws`, whose remaining work exceeds
/// `MIN_REASSIGN_SIZE`, while fewer than `MAX_CONNECTIONS` are active.
pub open spec fn is_split_of(ws: Seq<ChunkWorker>, active_count: usize, p: SplitPlan) -> bool {
    let w = ws[p.worker as int];
    &&& active_count < MAX_CONNECTIONS
    &&& first_busiest(ws, p.worker as int)
    &&& remaining_spec(w) > MIN_REASSIGN_SIZE
    &&& p.mid == w.progress + (w.end_pos - w.progress) / 2
    &&& p.new_start == p.mid + 1
    &&& p.new_end == w.end_pos
}

/// No split is made: `MAX_CONNECTIONS` are active, or no worker has more than
/// `MIN_REASSIGN_SIZE` left.
pub open spec fn no_split(ws: Seq<ChunkWorker>, active_count: usize) -> bool {
    active_count >= MAX_CONNECTIONS || forall|i: int|
        0 <= i < ws.len() ==> remaining_spec(#[trigger] ws[i]) <= MIN_REASSIGN_SIZE
}

/// The split chosen when a worker finishes: while fewer than `MAX_CONNECTIONS`
/// are active, the first worker with the most remaining work is halved if that
/// work exceeds `MIN_REASSIGN_SIZE`.
#[verifier::spinoff_prover]
pub fn plan_split(workers: &Vec<ChunkWorker>, active_count: usize) -> (r: Option<SplitPlan>)
    requires
        all_in_range(workers@),
    ensures
        match r {
            Some(p) => is_split_of(workers@, active_count, p),
            None => no_split(workers@, active_count),
        },
{
    if active_count >= MAX_CONNECTIONS {
        return None;
    }
    let mut max_remaining: i64 = 0;
    let mut max_worker: Option<usize> = None;
    let mut i: usize = 0;
    while i < workers.len()
        invariant
            0 <= i <= workers.len(),
            forall|k: int| 0 <= k < workers.len() ==> worker_in_range(#[trigger] workers@[k]),
            max_remaining >= 0,
            forall|k: int| 0 <= k < i ==> remaining_spec(#[trigger] workers@[k]) <= max_remaining,
            match max_worker {
                Some(m) => m < i && max_remaining == remaining_spec(workers@[m as int])
                    && max_remaining > 0 && forall|k: int|
                    0 <= k < m ==> remaining_spec(#[trigger] workers@[k]) < max_remaining,
                None => max_remaining == 0,
            },
        decreases workers.len() - i,
    {
        let remaining = workers[i].remaining();
        if remaining > max_remaining {
            max_remaining = remaining;
            max_worker = Some(i);
        }
        i = i + 1;
    }
    if max_remaining > MIN_REASSIGN_SIZE {
        if let Some(m) = max_worker {
            let w = workers[m];
            let mid = w.progress + (w.end_pos - w.progress) / 2;
            return Some(SplitPlan { worker: m, mid, new_start: mid + 1, new_end: w.end_pos });
        }
    }
    None
}

/// The bytes all workers still have to fetch.
pub open spec fn total_remaining(ws: Seq<ChunkWorker>) -> int
    decreases ws.len(),
{
    if ws.len() == 0 {
        0
    } else {
        total_remaining(ws.drop_last()) + remaining_spec(ws.last())
    }
}

/// Total remaining bytes after replacing worker `i`.
#[verifier::spinoff_prover]
pub proof fn lemma_total_remaining_update(ws: Seq<ChunkWorker>, i: int, w: ChunkWorker)
    requires
        0 <= i < ws.len(),
    ensures
        total_remaining(ws.update(i, w)) == total_remaining(ws) - remaining_spec(ws[i])
            + remaining_spec(w),
    decreases ws.len(),
{
    let t = ws.update(i, w);
    if i < ws.len() - 1 {
        assert(t.drop_last() == ws.drop_last().update(i, w));
        lemma_total_remaining_update(ws.drop_last(), i, w);
    } else {
        assert(t.drop_last() == ws.drop_last());
    }
}

/// The worker that takes over `[plan.new_start, plan.new_end]`.
pub open spec fn split_worker(plan: SplitPlan) -> ChunkWorker {
    ChunkWorker { start_pos: plan.new_start, progress: plan.new_start, end_pos: plan.new_end }
}

/// Carries out a split on the chosen worker: it now ends at `mid`. The caller
/// starts the worker for `[new_start, new_end]`; the list of workers that
/// later splits choose from does not grow.
pub fn apply_split(workers: &mut Vec<ChunkWorker>, plan: SplitPlan)
    requires
        plan.worker < old(workers).len(),
    ensures
        final(workers)@ == old(workers)@.update(
            plan.worker as int,
            ChunkWorker { end_pos: plan.mid, ..old(workers)@[plan.worker as int] },
        ),
{
    let mut w = workers[plan.worker];
    w.end_pos = plan.mid;
    workers.set(plan.worker, w);
}

/// A worker has `end_pos - progress + 1` bytes left while its range is not
/// used up, and none after; a fresh worker for `[start, end]` has the whole
/// range left.
pub proof fn lemma_remaining_counts_range(w: ChunkWorker, start: i64, end: i64)
    ensures
        w.progress <= w.end_pos ==> remaining_spec(w) == w.end_pos - w.progress + 1,
        w.progress > w.end_pos ==> remaining_spec(w) == 0,
        start <= end ==> remaining_spec(ChunkWorker { start_pos: start, progress: start, end_pos: end })
            == end - start + 1,
{
}

/// A split picks a worker with no less remaining work than any other and more
/// than any worker before it, whose remaining work exceeds 2 MiB, while fewer
/// than 64 connections are active; the chosen worker keeps the lower half
/// `[progress, mid]` and the new range is the rest of its range. No split is
/// made only when 64 connections are active or no worker has more than 2 MiB
/// left.
pub proof fn lemma_split_choice(ws: Seq<ChunkWorker>, active_count: usize, p: SplitPlan)
    ensures
        is_split_of(ws, active_count, p) ==> {
            let i = p.worker as int;
            let w = ws[i];
            &&& 0 <= i < ws.len()
            &&& active_count < 64
            &&& w.end_pos - w.progress + 1 > 2097152
            &&& forall|j: int| 0 <= j < ws.len() ==> remaining_spec(#[trigger] ws[j]) <= w.end_pos - w.progress + 1
            &&& forall|j: int| 0 <= j < i ==> remaining_spec(#[trigger] ws[j]) < w.end_pos - w.progress + 1
            &&& p.mid - w.progress == (w.end_pos - w.progress) / 2
            &&& p.new_start == p.mid + 1
            &&& p.new_end == w.end_pos
        },
        no_split(ws, active_count) <==> (active_count >= 64 || forall|j: int|
            0 <= j < ws.len() ==> #[trigger] remaining_spec(ws[j]) <= 2097152),
{
    if is_split_of(ws, active_count, p) {
        let i = p.worker as int;
        assert forall|j: int| 0 <= j < ws.len() implies remaining_spec(#[trigger] ws[j])
            <= ws[i].end_pos - ws[i].progress + 1 by {
            if j < i {
                assert(remaining_spec(ws[j]) < remaining_spec(ws[i]));
            } else if j > i {
                assert(remaining_spec(ws[j]) <= remaining_spec(ws[i]));
            }
        }
    }
}

/// What the download loop does after a worker task ended.
#[derive(Debug, Clone, Copy)]
pub struct LoopStep {
    /// The task failed: its error is reported and recorded.
    pub record_error: bool,
    /// The split carried out on the workers; the caller starts a worker for
    /// `[new_start, new_end]` and moves the chosen worker's end to `mid`.
    pub split: Option<SplitPlan>,
    /// The number of workers started so far.
    pub active_count: usize,
}

/// The step of the download loop after a worker task ended (`failed` when it
/// ended in an error): the error is recorded, then the first busiest worker is
/// split (see `plan_split`) and one more worker counted. Workers whose
/// remaining work cannot be counted in an `i64` leave everything as it is.
pub fn after_worker_ended(failed: bool, workers: &mut Vec<ChunkWorker>, active_count: usize) -> (r:
    LoopStep)
    ensures
        r.record_error == failed,
        !all_in_range(old(workers)@) ==> r.split is None,
        all_in_range(old(workers)@) ==> match r.split {
            Some(p) => is_split_of(old(workers)@, active_count, p),
            None => no_split(old(workers)@, active_count),
        },
        match r.split {
            Some(p) => final(workers)@ == old(workers)@.update(
                p.worker as int,
                ChunkWorker { end_pos: p.mid, ..old(workers)@[p.worker as int] },
            ) && r.active_count == active_count + 1,
            None => final(workers)@ == old(workers)@ && r.active_count == active_count,
        },
{
    let mut i: usize = 0;
    while i < workers.len()
        invariant
            0 <= i <= workers.len(),
            forall|k: int| 0 <= k < i ==> worker_in_range(#[trigger] workers@[k]),
        decreases workers.len() - i,
    {
        let w = workers[i];
        if w.end_pos.checked_sub(w.progress).is_none() {
            return LoopStep { record_error: failed, split: None, active_count };
        }
        let d = w.end_pos - w.progress;
        if d == i64::MAX {
            return LoopStep { record_error: failed, split: None, active_count };
        }
        i = i + 1;
    }
    match plan_split(workers, active_count) {
        Some(p) => {
            apply_split(workers, p);
            LoopStep { record_error: failed, split: Some(p), active_count: active_count + 1 }
        },
        None => LoopStep { record_error: failed, split: None, active_count },
    }
}

/// Splitting hands the upper half of the chosen worker's range to a new
/// worker without losing or duplicating a byte: the two ranges are non-empty
/// and adjacent, their sizes differ by at most one byte, and the bytes the
/// shortened workers and the new one still have to fetch are those the workers
/// had to fetch before.
pub proof fn lemma_split_keeps_work(ws: Seq<ChunkWorker>, p: SplitPlan)
    requires
        0 <= p.worker < ws.len(),
        remaining_spec(ws[p.worker as int]) > MIN_REASSIGN_SIZE,
        p.mid == ws[p.worker as int].progress + (ws[p.worker as int].end_pos
            - ws[p.worker as int].progress) / 2,
        p.new_start == p.mid + 1,
        p.new_end == ws[p.worker as int].end_pos,
    ensures
        ({
            let w = ws[p.worker as int];
            let kept = ChunkWorker { end_pos: p.mid, ..w };
            let fresh = split_worker(p);
            &&& w.progress <= p.mid < p.new_start <= p.new_end
            &&& remaining_spec(kept) + remaining_spec(fresh) == remaining_spec(w)
            &&& remaining_spec(kept) <= remaining_spec(fresh) + 1
            &&& remaining_spec(fresh) <= remaining_spec(kept) + 1
            &&& total_remaining(ws.update(p.worker as int, kept)) + remaining_spec(fresh)
                == total_remaining(ws)
        }),
{
    let w = ws[p.worker as int];
    let kept = ChunkWorker { end_pos: p.mid, ..w };
    lemma_total_remaining_update(ws, p.worker as int, kept);
}

// ---------------------------------------------------------------------------
// Following the bytes of one chunk

/// Received bytes are added to the shared counter in batches of this size.
pub const BATCH_UPDATE_THRESHOLD: i64 = 524288;

/// The position of one chunk download: where it started, where the next byte
/// goes, and the bytes received but not yet added to the shared counter.
#[derive(Debug, Clone, Copy)]
pub struct ChunkCursor {
    pub start: i64,
    pub current_pos: i64,
    pub local_downloaded: i64,
}

/// What to do with a block of received bytes.
#[derive(Debug, Clone, Copy)]
pub struct ReceiveStep {
    /// How many of the bytes to write at the current position.
    pub write_len: i64,
    /// Bytes to add to the shared counter now (0 for none).
    pub flush: i64,
    /// The range was shortened past this block: stop after writing.
    pub stop: bool,
}

impl ChunkCursor {
    /// A chunk download starting at `start`, nothing received yet.
    pub fn new(start: i64) -> (c: ChunkCursor)
        ensures
            c.start == start,
            c.current_pos == start,
            c.local_downloaded == 0,
    {
        ChunkCursor { start, current_pos: start, local_downloaded: 0 }
    }

    /// A block of `bytes_len` bytes arrived while the chunk ends at
    /// `dynamic_end`. If the block reaches past `dynamic_end`, only the part up
    /// to it is written and the download stops; otherwise the whole block is
    /// written, and once at least `BATCH_UPDATE_THRESHOLD` bytes are pending
    /// they are flushed to the shared counter.
    pub fn receive(&mut self, bytes_len: i64, dynamic_end: i64) -> (s: ReceiveStep)
        requires
            0 <= bytes_len,
            0 <= old(self).local_downloaded,
            old(self).current_pos + bytes_len <= i64::MAX,
            dynamic_end + 1 <= i64::MAX,
            old(self).local_downloaded + bytes_len <= i64::MAX,
            i64::MIN <= dynamic_end + 1 - old(self).current_pos <= i64::MAX,
        ensures
            final(self).start == old(self).start,
            old(self).current_pos + bytes_len > dynamic_end + 1 ==> {
                &&& s.stop
                &&& s.flush == 0
                &&& s.write_len == if dynamic_end + 1 - old(self).current_pos > 0 {
                    dynamic_end + 1 - old(self).current_pos
                } else {
                    0
                }
            },
            old(self).current_pos + bytes_len <= dynamic_end + 1 ==> {
                &&& !s.stop
                &&& s.write_len == bytes_len
                &&& s.flush == if old(self).local_downloaded + bytes_len >= BATCH_UPDATE_THRESHOLD {
                    old(self).local_downloaded + bytes_len
                } else {
                    0
                }
            },
            final(self).current_pos == old(self).current_pos + s.write_len,
            final(self).local_downloaded + s.flush == old(self).local_downloaded + s.write_len,
            0 <= final(self).local_downloaded,
    {
        if self.current_pos + bytes_len > dynamic_end + 1 {
            let room = dynamic_end + 1 - self.current_pos;
            let usable = if room > 0 {
                room
            } else {
                0
            };
            self.local_downloaded = self.local_downloaded + usable;
            self.current_pos = self.current_pos + usable;
            ReceiveStep { write_len: usable, flush: 0, stop: true }
        } else {
            self.local_downloaded = self.local_downloaded + bytes_len;
            self.current_pos = self.current_pos + bytes_len;
            if self.local_downloaded >= BATCH_UPDATE_THRESHOLD {
                let flush = self.local_downloaded;
                self.local_downloaded = 0;
                ReceiveStep { write_len: bytes_len, flush, stop: false }
            } else {
                ReceiveStep { write_len: bytes_len, flush: 0, stop: false }
            }
        }
    }

    /// The download of the chunk ended: the pending bytes to add to the shared
    /// counter (0 for none).
    pub fn finish(&mut self) -> (flush: i64)
        ensures
            flush == old(self).local_downloaded,
            final(self).local_downloaded == 0,
            final(self).current_pos == old(self).current_pos,
            final(self).start == old(self).start,
    {
        let flush = self.local_downloaded;
        self.local_downloaded = 0;
        flush
    }
}

/// The bytes written by a chunk download are the bytes flushed to the shared
/// counter plus those still pending: a receive step keeps
/// `flushed + pending == current_pos - start`.
pub proof fn lemma_receive_keeps_count(
    before: ChunkCursor,
    after: ChunkCursor,
    step: ReceiveStep,
    flushed: int,
)
    requires
        flushed + before.local_downloaded == before.current_pos - before.start,
        after.start == before.start,
        after.current_pos == before.current_pos + step.write_len,
        after.local_downloaded + step.flush == before.local_downloaded + step.write_len,
    ensures
        (flushed + step.flush) + after.local_downloaded == after.current_pos - after.start,
{
}

// ---------------------------------------------------------------------------
// Requests and responses

/// The `Range` header value `bytes={start}-{end}`.
pub open spec fn range_spec(start: i64, end: i64) -> Seq<char> {
    "bytes="@ + decimal(start as int) + seq!['-'] + decimal(end as int)
}

/// The `Range` header value for `[start, end]`.
pub fn range_header(start: i64, end: i64) -> (r: String)
    ensures
        r@ == range_spec(start, end),
{
    let mut r = string_of("bytes=");
    let a = format_i64(start);
    push_str(&mut r, a.as_str());
    crate::text::push_char(&mut r, '-');
    let b = format_i64(end);
    push_str(&mut r, b.as_str());
    r
}

/// The User-Agent sent: the configured one if there is a configuration and
/// it is not empty, else the engine's.
pub fn effective_user_agent(configured: Option<&str>) -> (r: String)
    ensures
        r@ == match configured {
            Some(ua) => if ua@.len() > 0 {
                ua@
            } else {
                engine_user_agent()
            },
            None => engine_user_agent(),
        },
{
    match configured {
        Some(ua) => if !ua.is_empty() {
            string_of(ua)
        } else {
            engine_default_user_agent()
        },
        None => engine_default_user_agent(),
    }
}

/// Name and value of each pair of `s`, as text.
pub open spec fn pairs_text(s: Seq<(String, String)>) -> Seq<(Seq<char>, Seq<char>)> {
    s.map_values(|p: (String, String)| (p.0@, p.1@))
}

/// The headers every chunk request carries, in the order they are set: the
/// User-Agent `ua`, the range `[start, end]`, and fixed `Accept`,
/// `Accept-Language`, `Accept-Encoding` and `Cache-Control` values.
pub open spec fn fixed_headers_spec(ua: Seq<char>, start: i64, end: i64) -> Seq<(Seq<char>, Seq<char>)> {
    seq![
        ("user-agent"@, ua),
        ("range"@, range_spec(start, end)),
        ("accept"@, "*/*"@),
        ("accept-language"@, "en-US,en;q=0.9"@),
        ("accept-encoding"@, "identity"@),
        ("cache-control"@, "no-cache"@),
    ]
}

/// The headers of a chunk request. `fixed` must all be sent; `extra` (the
/// configured headers, then the task's) are each sent when they form a valid
/// header, laid in order over what came before, so that a task header wins
/// over a configured one and both over a fixed one of the same name.
#[derive(Debug)]
pub struct RequestHeaders {
    pub fixed: Vec<(String, String)>,
    pub extra: Vec<(String, String)>,
}

fn text_pair(name: &str, value: String) -> (p: (String, String))
    ensures
        p.0@ == name@,
        p.1@ == value@,
{
    (string_of(name), value)
}

/// Appends a copy of the pairs of `from` to `to`.
fn append_pairs(to: &mut Vec<(String, String)>, from: &Vec<(String, String)>)
    ensures
        pairs_text(final(to)@) == pairs_text(old(to)@) + pairs_text(from@),
{
    let ghost start = to@;
    let mut i: usize = 0;
    while i < from.len()
        invariant
            0 <= i <= from.len(),
            pairs_text(to@) == pairs_text(start) + pairs_text(from@.take(i as int)),
        decreases from.len() - i,
    {
        let p = (from[i].0.clone(), from[i].1.clone());
        let ghost prev = to@;
        to.push(p);
        proof {
            assert(pairs_text(to@) =~= pairs_text(prev).push((from@[i as int].0@, from@[i as int].1@)));
            assert(pairs_text(from@.take(i + 1)) =~= pairs_text(from@.take(i as int)).push(
                (from@[i as int].0@, from@[i as int].1@),
            ));
        }
        i = i + 1;
    }
    assert(from@.take(from.len() as int) =~= from@);
}

/// The headers of the request for `[start, end]` sent with User-Agent `ua`,
/// the configured headers `global` and the task's headers `task`.
pub fn request_headers(
    ua: &str,
    start: i64,
    end: i64,
    global: &Vec<(String, String)>,
    task: &Vec<(String, String)>,
) -> (r: RequestHeaders)
    ensures
        pairs_text(r.fixed@) == fixed_headers_spec(ua@, start, end),
        pairs_text(r.extra@) == pairs_text(global@) + pairs_text(task@),
{
    let mut fixed: Vec<(String, String)> = Vec::new();
    fixed.push(text_pair("user-agent", string_of(ua)));
    fixed.push(text_pair("range", range_header(start, end)));
    fixed.push(text_pair("accept", string_of("*/*")));
    fixed.push(text_pair("accept-language", string_of("en-US,en;q=0.9")));
    fixed.push(text_pair("accept-encoding", string_of("identity")));
    fixed.push(text_pair("cache-control", string_of("no-cache")));
    assert(pairs_text(fixed@) =~= fixed_headers_spec(ua@, start, end));
    let mut extra: Vec<(String, String)> = Vec::new();
    append_pairs(&mut extra, global);
    append_pairs(&mut extra, task);
    assert(pairs_text(Seq::<(String, String)>::empty()) =~= Seq::<(Seq<char>, Seq<char>)>::empty());
    assert(pairs_text(global@) =~= Seq::<(Seq<char>, Seq<char>)>::empty() + pairs_text(global@));
    RequestHeaders { fixed, extra }
}

/// A header value read as a positive size.
pub open spec fn positive_size(v: Option<i64>) -> Option<i64> {
    match v {
        Some(n) => if n > 0 {
            Some(n)
        } else {
            None
        },
        None => None,
    }
}

/// The file size announced by a response: the total after the last `/` of
/// `Content-Range` if it is a positive number, else `Content-Length` if it is a
/// positive number; otherwise an error.
pub open spec fn file_size_spec(content_range: Option<Seq<char>>, content_length: Option<Seq<char>>) -> Result<
    i64,
    Seq<char>,
> {
    let from_range = match content_range {
        Some(cr) => positive_size(parse_i64_spec(after_last_spec(cr, '/'))),
        None => None,
    };
    let from_length = match content_length {
        Some(cl) => positive_size(parse_i64_spec(cl)),
        None => None,
    };
    match from_range {
        Some(n) => Ok(n),
        None => match from_length {
            Some(n) => Ok(n),
            None => Err("Unable to determine file size"@),
        },
    }
}

/// The file size from the `Content-Range` and `Content-Length` header values
/// of a successful response (see `file_size_spec`).
pub fn file_size_from_headers(content_range: Option<&str>, content_length: Option<&str>) -> (r:
    Result<i64, String>)
    ensures
        match r {
            Ok(n) => file_size_spec(crate::download::opt_seq(content_range), crate::download::opt_seq(content_length)) == Ok::<i64, Seq<char>>(n),
            Err(e) => file_size_spec(crate::download::opt_seq(content_range), crate::download::opt_seq(content_length)) == Err::<i64, Seq<char>>(e@),
        },
{
    if let Some(cr) = content_range {
        let total = after_last(cr, '/');
        if let Some(n) = parse_i64(total.as_str()) {
            if n > 0 {
                return Ok(n);
            }
        }
    }
    if let Some(cl) = content_length {
        if let Some(n) = parse_i64(cl) {
            if n > 0 {
                return Ok(n);
            }
        }
    }
    Err(string_of("Unable to determine file size"))
}

/// The message when the bytes received differ from the file size.
pub open spec fn incomplete_spec(received: i64, file_size: i64) -> Seq<char> {
    "download incomplete: "@ + decimal(received as int) + seq!['/'] + decimal(file_size as int)
        + " bytes"@
}

/// Success when every byte of the file was received, else the error.
pub fn check_complete(received: i64, file_size: i64) -> (r: Result<(), String>)
    ensures
        received == file_size <==> r is Ok,
        r matches Err(e) ==> e@ == incomplete_spec(received, file_size),
{
    if received != file_size {
        let mut m = string_of("download incomplete: ");
        let a = format_i64(received);
        push_str(&mut m, a.as_str());
        crate::text::push_char(&mut m, '/');
        let b = format_i64(file_size);
        push_str(&mut m, b.as_str());
        push_str(&mut m, " bytes");
        return Err(m);
    }
    Ok(())
}

// ---------------------------------------------------------------------------
// Worker count and chunk size

/// `num_cpus::get`. Trusted: the number of CPUs available to the process,
/// which the crate documents to be at least 1; it depends on the machine.
#[verifier::external_body]
fn available_cpus() -> (n: usize)
    ensures
        n >= 1,
{
    num_cpus::get()
}

/// The worker count used without a configuration on a machine with `cpus`
/// CPUs: twice the CPU count (`usize::MAX` if that does not fit).
pub open spec fn fallback_spec(cpus: usize) -> int {
    if cpus <= usize::MAX / 2 {
        2 * cpus
    } else {
        usize::MAX as int
    }
}

/// The worker count used without a configuration (see `fallback_spec`).
pub fn fallback_thread_count(cpus: usize) -> (r: usize)
    ensures
        r == fallback_spec(cpus),
{
    if cpus <= usize::MAX / 2 {
        cpus * 2
    } else {
        usize::MAX
    }
}

/// The worker count: the configured one, else twice the CPU count of the
/// machine, which is at least 1 (so at least 2 workers).
pub fn thread_count(configured: Option<usize>) -> (r: usize)
    ensures
        configured matches Some(t) ==> r == t,
        configured is None ==> exists|cpus: usize| cpus >= 1 && r == fallback_spec(cpus),
        configured is None ==> r >= 2,
{
    match configured {
        Some(t) => t,
        None => {
            let cpus = available_cpus();
            let r = fallback_thread_count(cpus);
            assert(cpus >= 1 && r == fallback_spec(cpus));
            r
        },
    }
}

/// The chunk size in bytes: the configured mebibytes, else 10 MiB.
pub fn chunk_size_bytes(configured_mb: Option<usize>) -> (r: i64)
    requires
        configured_mb matches Some(mb) ==> mb * 1048576 <= usize::MAX,
    ensures
        r == match configured_mb {
            Some(mb) => (mb * 1048576) as i64,
            None => 10485760i64,
        },
{
    match configured_mb {
        Some(mb) => {
            let bytes = mb * 1024 * 1024;
            #[verifier::truncate]
            (bytes as i64)
        },
        None => 10 * MIB,
    }
}

} // verus!
