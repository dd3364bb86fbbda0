//! The streaming chunker: a single-producer / single-consumer pipeline that
//! turns a byte-stream write interface into a stream of bounded-size chunks.
//!
//! A pair of sides, [`Writer`] and [`Reader`], communicate through a shared
//! [`ChunkerShared`] record holding two bounded FIFO queues and a write-once
//! completion cell.  The `full_pending_read` queue carries filled buffers from
//! the writer to the reader; the `empty_pending_write` queue carries recycled
//! buffers back.  A `None` envelope on either queue means "my side is
//! leaving; read the completion cell to learn whether this is success or
//! failure".  Exactly two buffers are seeded at construction and cycle
//! between the sides for the life of the pair.
//!
//! The two sides run on separate tasks in a real deployment; here every
//! operation is a step of a state machine acting on the shared record, and an
//! operation that would suspend (a queue it must read from is empty) returns
//! a "pending" outcome so that the surrounding runtime can let the other side
//! make progress.

use vstd::prelude::*;

use crate::error::WuffError;

verus! {

/// Each queue can hold 3 items: 2 buffers, and a `None` sentinel.
pub const QUEUE_CAPACITY: usize = 3;

// ---------------------------------------------------------------------------
// Trusted view of the MD5 hasher.
// ---------------------------------------------------------------------------

#[verifier::external_type_specification]
#[verifier::external_body]
pub struct ExMd5(md5::Md5);

/// The bytes a hasher has absorbed so far, in order.
pub uninterp spec fn md5_absorbed(hasher: md5::Md5) -> Seq<u8>;

/// The MD5 digest of a byte sequence, as the 16 output bytes.
pub uninterp spec fn md5_of(bytes: Seq<u8>) -> Seq<u8>;

/// Relies on `md5::Md5` via `digest::Digest::new`: a fresh hasher has
/// absorbed nothing.
#[verifier::external_body]
fn md5_new() -> (h: md5::Md5)
    ensures
        md5_absorbed(h) == Seq::<u8>::empty(),
{
    <md5::Md5 as md5::Digest>::new()
}

/// Relies on `md5::Md5` via `digest::Digest::update`: absorbing data appends
/// it to what the hasher has already absorbed.
#[verifier::external_body]
fn md5_update(h: &mut md5::Md5, data: &Vec<u8>)
    ensures
        md5_absorbed(*final(h)) == md5_absorbed(*old(h)) + data@,
{
    <md5::Md5 as md5::Digest>::update(h, data.as_slice())
}

/// Relies on `md5::Md5` via `digest::Digest::finalize`: the digest is 16
/// bytes and depends on the absorbed bytes alone.
#[verifier::external_body]
fn md5_digest(h: &md5::Md5) -> (d: Vec<u8>)
    ensures
        d@ == md5_of(md5_absorbed(*h)),
        d@.len() == 16,
{
    <md5::Md5 as md5::Digest>::finalize(h.clone()).to_vec()
}

// ---------------------------------------------------------------------------
// Specification helpers.
// ---------------------------------------------------------------------------

/// The bytes held by an optional buffer.
pub open spec fn buf_bytes(b: Option<Vec<u8>>) -> Seq<u8> {
    match b {
        Some(v) => v@,
        None => Seq::<u8>::empty(),
    }
}

/// The data bytes carried by a queue, in order, skipping `None` sentinels.
pub open spec fn queue_data(q: Seq<Option<Vec<u8>>>) -> Seq<u8>
    decreases q.len(),
{
    if q.len() == 0 {
        Seq::<u8>::empty()
    } else {
        buf_bytes(q[0]) + queue_data(q.drop_first())
    }
}

/// How many buffers (`Some` envelopes) a queue holds.
pub open spec fn queue_bufs(q: Seq<Option<Vec<u8>>>) -> int
    decreases q.len(),
{
    if q.len() == 0 {
        0int
    } else {
        (if q[0] is Some { 1int } else { 0int }) + queue_bufs(q.drop_first())
    }
}

/// Whether a queue holds a `None` sentinel anywhere.
pub open spec fn queue_has_none(q: Seq<Option<Vec<u8>>>) -> bool {
    exists|i: int| 0 <= i < q.len() && q[i] is None
}

/// The concatenation of a sequence of chunks.
pub open spec fn concat_chunks(chunks: Seq<Seq<u8>>) -> Seq<u8>
    decreases chunks.len(),
{
    if chunks.len() == 0 {
        Seq::<u8>::empty()
    } else {
        concat_chunks(chunks.drop_last()) + chunks.last()
    }
}

/// The chunk-size schedule: the target size of the `i`-th chunk, starting at
/// `initial` and doubling each time, saturating at `max`.
pub open spec fn sched(initial: nat, max: nat, i: nat) -> nat
    decreases i,
{
    if i == 0 {
        initial
    } else {
        let prev = sched(initial, max, (i - 1) as nat);
        if 2 * prev <= max {
            2 * prev
        } else {
            max
        }
    }
}

proof fn lemma_sched_bounds(initial: nat, max: nat, i: nat)
    requires
        1 <= initial <= max,
    ensures
        1 <= sched(initial, max, i) <= max,
    decreases i,
{
    if i > 0 {
        lemma_sched_bounds(initial, max, (i - 1) as nat);
    }
}

proof fn lemma_queue_data_push(q: Seq<Option<Vec<u8>>>, e: Option<Vec<u8>>)
    ensures
        queue_data(q.push(e)) == queue_data(q) + buf_bytes(e),
        queue_bufs(q.push(e)) == queue_bufs(q) + (if e is Some { 1int } else { 0int }),
    decreases q.len(),
{
    if q.len() == 0 {
        let s = q.push(e);
        assert(s[0] == e);
        assert(s.drop_first() =~= Seq::<Option<Vec<u8>>>::empty());
        assert(queue_data(s.drop_first()) =~= Seq::<u8>::empty());
        assert(queue_bufs(s.drop_first()) == 0);
        assert(queue_data(s) =~= buf_bytes(e));
        assert(queue_data(q) + buf_bytes(e) =~= buf_bytes(e));
    } else {
        assert(q.push(e)[0] == q[0]);
        assert(q.push(e).drop_first() =~= q.drop_first().push(e));
        lemma_queue_data_push(q.drop_first(), e);
        assert(queue_data(q.push(e)) =~= queue_data(q) + buf_bytes(e));
    }
}

proof fn lemma_queue_head(q: Seq<Option<Vec<u8>>>)
    requires
        q.len() > 0,
    ensures
        queue_data(q) == buf_bytes(q[0]) + queue_data(q.drop_first()),
        queue_bufs(q) == (if q[0] is Some { 1int } else { 0int }) + queue_bufs(q.drop_first()),
{
}

proof fn lemma_concat_push(chunks: Seq<Seq<u8>>, c: Seq<u8>)
    ensures
        concat_chunks(chunks.push(c)) == concat_chunks(chunks) + c,
{
    assert(chunks.push(c).drop_last() =~= chunks);
    assert(chunks.push(c).last() == c);
}

proof fn lemma_queue_snoc(q: Seq<Option<Vec<u8>>>)
    requires
        q.len() > 0,
    ensures
        queue_data(q) == queue_data(q.drop_last()) + buf_bytes(q.last()),
        queue_bufs(q) == queue_bufs(q.drop_last()) + (if q.last() is Some {
            1int
        } else {
            0int
        }),
    decreases q.len(),
{
    if q.len() == 1 {
        assert(q.drop_last() =~= Seq::<Option<Vec<u8>>>::empty());
        assert(q.drop_first() =~= Seq::<Option<Vec<u8>>>::empty());
        assert(queue_data(q.drop_first()) =~= Seq::<u8>::empty());
        assert(q.last() == q[0]);
        assert(queue_data(q) =~= buf_bytes(q[0]));
        assert(queue_data(q.drop_last()) + buf_bytes(q.last()) =~= buf_bytes(q[0]));
    } else {
        lemma_queue_snoc(q.drop_first());
        assert(q.drop_first().drop_last() =~= q.drop_last().drop_first());
        assert(q.drop_first().last() == q.last());
        assert(q.drop_last()[0] == q[0]);
        lemma_queue_head(q.drop_last());
        assert(queue_data(q) =~= queue_data(q.drop_last()) + buf_bytes(q.last()));
    }
}

proof fn lemma_queue_bufs_nonneg(q: Seq<Option<Vec<u8>>>)
    ensures
        queue_bufs(q) >= 0,
    decreases q.len(),
{
    if q.len() > 0 {
        lemma_queue_bufs_nonneg(q.drop_first());
    }
}

proof fn lemma_queue_all_bufs(q: Seq<Option<Vec<u8>>>)
    requires
        !queue_has_none(q),
    ensures
        queue_bufs(q) == q.len(),
    decreases q.len(),
{
    if q.len() > 0 {
        assert(!(q[0] is None));
        assert forall|i: int| 0 <= i < q.drop_first().len() implies !(#[trigger] q.drop_first()[i]
            is None) by {
            assert(q.drop_first()[i] == q[i + 1]);
        }
        lemma_queue_all_bufs(q.drop_first());
    }
}

// ---------------------------------------------------------------------------
// The completion cell.
// ---------------------------------------------------------------------------

/// The write-once completion cell shared by the two sides.  Success may only
/// be recorded by the reader's clean finalize; either side may record a
/// failure.  The first value written wins.
#[derive(Debug, Clone)]
pub enum Completion {
    Pending,
    Succeeded,
    Failed(WuffError),
}

impl Completion {
    /// Whether no failure has been recorded.
    pub open spec fn is_ok_so_far(self) -> bool {
        !(self is Failed)
    }

    /// Whether the cell is still unset.
    pub fn is_pending(&self) -> (b: bool)
        ensures
            b == (*self is Pending),
    {
        match self {
            Completion::Pending => true,
            _ => false,
        }
    }

    /// Hands out a copy of the recorded failure, if that is what the cell
    /// holds.
    pub fn get_failure(&self) -> (r: Option<WuffError>)
        ensures
            match *self {
                Completion::Failed(e) => r == Some(e),
                _ => r is None,
            },
    {
        match self {
            Completion::Failed(e) => Some(e.duplicate()),
            _ => None,
        }
    }
}

// ---------------------------------------------------------------------------
// The shared record: two queues and the completion cell.
// ---------------------------------------------------------------------------

/// The state shared by the two sides of a chunker pair.
pub struct ChunkerShared {
    /// Filled buffers flowing writer -> reader; `None` is the end marker.
    pub full_pending_read: Vec<Option<Vec<u8>>>,
    /// Recycled buffers flowing reader -> writer; `None` is the end marker.
    pub empty_pending_write: Vec<Option<Vec<u8>>>,
    /// The write-once completion cell.
    pub result: Completion,
    /// Whether the writer side is still attached (not torn down).
    pub writer_attached: bool,
    /// Whether the reader side is still attached (not torn down).
    pub reader_attached: bool,
    /// Ghost: the configured maximum chunk size.
    pub max_chunk: Ghost<nat>,
    /// Ghost: the bytes the reader has absorbed into its hash so far.
    pub consumed: Ghost<Seq<u8>>,
    /// Ghost: once the writer has signalled a clean end of stream, the
    /// complete byte stream it wrote.
    pub stream_end: Ghost<Option<Seq<u8>>>,
    /// Ghost: whether the writer has finished (sent its end marker or failed
    /// trying).
    pub writer_done: Ghost<bool>,
    /// Ghost: whether the reader has finished.
    pub reader_done: Ghost<bool>,
    /// Ghost: whether the writer currently owns an in-progress buffer.
    pub writer_holding: Ghost<bool>,
    /// Ghost: whether the reader currently owns a delivered buffer.
    pub reader_holding: Ghost<bool>,
    /// Ghost: whether the reader has observed the end of the stream.
    pub reader_eof: Ghost<bool>,
    /// Ghost: how many of the two seeded buffers have left circulation
    /// (dropped by a side tearing down, or drained during finalize).
    pub destroyed: Ghost<int>,
}

impl ChunkerShared {
    /// The internal consistency of the shared record.
    pub open spec fn inv(self) -> bool {
        let pending = self.result is Pending;
        let ok = self.result.is_ok_so_far();
        &&& self.full_pending_read@.len() <= QUEUE_CAPACITY
        &&& self.empty_pending_write@.len() <= QUEUE_CAPACITY
        // The double-buffer budget: two buffers, wherever they are.
        &&& queue_bufs(self.full_pending_read@) + queue_bufs(self.empty_pending_write@)
            + (if self.writer_holding@ { 1int } else { 0int })
            + (if self.reader_holding@ { 1int } else { 0int })
            + self.destroyed@ == 2
        &&& self.destroyed@ >= 0
        // Recycled buffers come back empty.
        &&& forall|i: int| 0 <= i < self.empty_pending_write@.len()
                ==> buf_bytes(#[trigger] self.empty_pending_write@[i]) == Seq::<u8>::empty()
        // Delivered chunks respect the configured maximum.
        &&& forall|i: int| 0 <= i < self.full_pending_read@.len()
                ==> buf_bytes(#[trigger] self.full_pending_read@[i]).len() <= self.max_chunk@
        // An end marker on the recycle queue is only sent after the cell is
        // populated.
        &&& (queue_has_none(self.empty_pending_write@) ==> !pending)
        // An end marker on the data queue comes from the writer finishing or
        // from a recorded failure.
        &&& (queue_has_none(self.full_pending_read@) ==> !pending || self.writer_done@)
        // While nothing has failed, the end of the stream is marked iff the
        // writer has finished.
        &&& (ok ==> (self.stream_end@ is Some <==> self.writer_done@))
        // After a clean end of stream, and until the reader observes it, the
        // data queue is data followed by one end marker.
        &&& (ok && self.writer_done@ && !self.reader_eof@ ==> {
            &&& self.full_pending_read@.len() >= 1
            &&& self.full_pending_read@.last() is None
            &&& forall|i: int| 0 <= i < self.full_pending_read@.len() - 1
                    ==> #[trigger] self.full_pending_read@[i] is Some
        })
        &&& (ok ==> match self.stream_end@ {
            Some(s) => self.consumed@ + queue_data(self.full_pending_read@) == s,
            None => true,
        })
        // Once the reader has observed a clean end of stream, it has consumed
        // the whole stream.
        &&& (ok && self.reader_eof@ ==> self.stream_end@ == Some(self.consumed@))
        // A finished reader has observed the end of the stream.
        &&& (self.reader_done@ ==> self.reader_eof@)
        // Success is recorded only once both sides have finished cleanly.
        &&& (self.result is Succeeded ==> self.writer_done@ && self.reader_done@)
        // A side that tore down first recorded the outcome.
        &&& (!self.writer_attached ==> !pending)
        &&& (!self.reader_attached ==> !pending)
    }

    /// The parts of the shared record that the reader relies on; writer-side
    /// operations leave them untouched.
    pub open spec fn reader_view_eq(self, other: ChunkerShared) -> bool {
        &&& other.consumed == self.consumed
        &&& other.reader_done == self.reader_done
        &&& other.reader_holding == self.reader_holding
        &&& other.reader_eof == self.reader_eof
        &&& other.reader_attached == self.reader_attached
        &&& other.max_chunk == self.max_chunk
    }

    /// The parts of the shared record that the writer relies on; reader-side
    /// operations leave them untouched.
    pub open spec fn writer_view_eq(self, other: ChunkerShared) -> bool {
        &&& other.writer_done == self.writer_done
        &&& other.writer_holding == self.writer_holding
        &&& other.writer_attached == self.writer_attached
        &&& other.stream_end == self.stream_end
        &&& other.max_chunk == self.max_chunk
    }
}

/// A reader stays linked to the shared record across writer-side operations:
/// those keep the reader-facing fields, only ever move the completion cell
/// away from `Pending`, and extend `stream_end` only from `None`.
pub proof fn lemma_reader_link_preserved(r: Reader, a: ChunkerShared, b: ChunkerShared)
    requires
        r.linked(a),
        a.reader_view_eq(b),
        b.result.is_ok_so_far() ==> a.result.is_ok_so_far(),
        b.result.is_ok_so_far() && a.stream_end@ is Some ==> b.stream_end@ == a.stream_end@,
    ensures
        r.linked(b),
{
}

/// A writer stays linked to the shared record across reader-side operations:
/// those keep the writer-facing fields and conserve the bytes that are
/// consumed or still queued.
pub proof fn lemma_writer_link_preserved(w: Writer, a: ChunkerShared, b: ChunkerShared)
    requires
        w.linked(a),
        a.writer_view_eq(b),
        b.result.is_ok_so_far() ==> a.result.is_ok_so_far(),
        b.result.is_ok_so_far() ==> b.consumed@ + queue_data(b.full_pending_read@)
            == a.consumed@ + queue_data(a.full_pending_read@),
    ensures
        w.linked(b),
{
    if b.result.is_ok_so_far() {
        assert(w.written@ == a.consumed@ + queue_data(a.full_pending_read@) + buf_bytes(w.buf));
    }
}

// ---------------------------------------------------------------------------
// The writer side.
// ---------------------------------------------------------------------------

/// The producing side of a chunker pair.
pub struct Writer {
    /// The current chunk-size target; doubles as buffers fill, up to
    /// `max_chunk_size`.
    pub chunk_size: usize,
    pub max_chunk_size: usize,
    pub max_num_chunks: usize,
    /// How many buffer acquisitions have happened so far.
    pub num_chunks: usize,
    pub done: bool,
    /// The in-progress buffer, if one is held.
    pub buf: Option<Vec<u8>>,
    /// Ghost: the configured initial chunk size.
    pub initial_size: Ghost<nat>,
    /// Ghost: every chunk shipped to the data queue so far, in order.
    pub emitted: Ghost<Seq<Seq<u8>>>,
    /// Ghost: every byte accepted by `write` so far, in order.
    pub written: Ghost<Seq<u8>>,
}

impl Writer {
    /// The chunk-size schedule and the accounting of accepted bytes, while
    /// the writer is still active.
    pub open spec fn wf_sched(self) -> bool {
        &&& self.chunk_size == sched(self.initial_size@, self.max_chunk_size as nat, self.emitted@.len())
        &&& self.num_chunks == self.emitted@.len() + (if self.buf is Some { 1int } else { 0int })
        &&& self.num_chunks <= self.max_num_chunks
        &&& self.written@ == concat_chunks(self.emitted@) + buf_bytes(self.buf)
        &&& match self.buf {
            Some(b) => b@.len() < self.chunk_size,
            None => true,
        }
        &&& forall|i: int| 0 <= i < self.emitted@.len()
                ==> (#[trigger] self.emitted@[i]).len()
                    == sched(self.initial_size@, self.max_chunk_size as nat, i as nat)
    }

    /// The writer's own consistency.
    pub open spec fn wf(self) -> bool {
        &&& 1 <= self.initial_size@ <= self.max_chunk_size
        &&& self.max_num_chunks >= 1
        &&& (!self.done ==> self.wf_sched())
        &&& (!self.done ==> match self.buf {
            Some(b) => b@.len() >= 1,
            None => true,
        })
        &&& (self.done ==> self.buf is None)
    }

    /// How the writer relates to the shared record.
    pub open spec fn linked(self, sh: ChunkerShared) -> bool {
        &&& self.done == sh.writer_done@
        &&& (self.buf is Some) == sh.writer_holding@
        &&& self.max_chunk_size as nat == sh.max_chunk@
        &&& (sh.result.is_ok_so_far()
            ==> self.written@ == sh.consumed@ + queue_data(sh.full_pending_read@) + buf_bytes(self.buf))
        &&& (sh.result.is_ok_so_far() && self.done ==> sh.stream_end@ == Some(self.written@))
    }
}

// ---------------------------------------------------------------------------
// The reader side.
// ---------------------------------------------------------------------------

/// What the reader hands to its consumer: either one chunk of data, or the
/// end of the stream together with the MD5 digest of everything delivered.
#[derive(Debug)]
pub enum ChunkOrEof {
    Chunk(Vec<u8>),
    Eof(Vec<u8>),
}

/// The consuming side of a chunker pair.
pub struct Reader {
    pub consumed_all_input: bool,
    pub done: bool,
    /// The most recently delivered buffer, kept for recycling.
    pub chunk: Option<Vec<u8>>,
    /// The running MD5 hash of every chunk delivered so far.
    pub hasher: md5::Md5,
}

impl Reader {
    /// How the reader relates to the shared record.
    pub open spec fn linked(self, sh: ChunkerShared) -> bool {
        &&& self.done == sh.reader_done@
        &&& (self.chunk is Some) == sh.reader_holding@
        &&& self.consumed_all_input == sh.reader_eof@
        &&& md5_absorbed(self.hasher) == sh.consumed@
        &&& (self.consumed_all_input ==> self.chunk is None)
        &&& (self.done ==> self.consumed_all_input)
    }
}

// ---------------------------------------------------------------------------
// Construction.
// ---------------------------------------------------------------------------

/// Creates a chunker pair and its shared record.
///
/// The recycle queue is seeded with exactly two empty buffers, each
/// pre-allocated to `max_chunk_size` capacity: the double-buffer budget.
pub fn new(initial_chunk_size: usize, max_chunk_size: usize, max_num_chunks: usize) -> (r: (
    Writer,
    Reader,
    ChunkerShared,
))
    requires
        1 <= initial_chunk_size <= max_chunk_size,
        max_num_chunks >= 1,
    ensures
        ({
            let (w, rd, sh) = r;
            &&& sh.inv()
            &&& w.wf()
            &&& w.linked(sh)
            &&& rd.linked(sh)
            &&& w.chunk_size == initial_chunk_size
            &&& w.initial_size@ == initial_chunk_size
            &&& w.max_chunk_size == max_chunk_size
            &&& w.max_num_chunks == max_num_chunks
            &&& w.num_chunks == 0
            &&& !w.done
            &&& w.written@ == Seq::<u8>::empty()
            &&& !rd.consumed_all_input
            &&& !rd.done
            &&& sh.result is Pending
            &&& sh.consumed@ == Seq::<u8>::empty()
            &&& sh.writer_attached
            &&& sh.reader_attached
            &&& sh.full_pending_read@.len() == 0
            &&& sh.empty_pending_write@.len() == 2
        }),
{
    let mut empty_pending_write: Vec<Option<Vec<u8>>> = Vec::new();
    empty_pending_write.push(Some(Vec::with_capacity(max_chunk_size)));
    empty_pending_write.push(Some(Vec::with_capacity(max_chunk_size)));
    let writer = Writer {
        chunk_size: initial_chunk_size,
        max_chunk_size,
        max_num_chunks,
        num_chunks: 0,
        done: false,
        buf: None,
        initial_size: Ghost(initial_chunk_size as nat),
        emitted: Ghost(Seq::<Seq<u8>>::empty()),
        written: Ghost(Seq::<u8>::empty()),
    };
    let reader = Reader {
        consumed_all_input: false,
        done: false,
        chunk: None,
        hasher: md5_new(),
    };
    let shared = ChunkerShared {
        full_pending_read: Vec::new(),
        empty_pending_write,
        result: Completion::Pending,
        writer_attached: true,
        reader_attached: true,
        max_chunk: Ghost(max_chunk_size as nat),
        consumed: Ghost(Seq::<u8>::empty()),
        stream_end: Ghost(None),
        writer_done: Ghost(false),
        reader_done: Ghost(false),
        writer_holding: Ghost(false),
        reader_holding: Ghost(false),
        reader_eof: Ghost(false),
        destroyed: Ghost(0int),
    };
    proof {
        let q = shared.empty_pending_write@;
        assert(q.len() == 2);
        assert(q[0] is Some);
        assert(q.drop_first()[0] == q[1]);
        assert(q[1] is Some);
        assert(q.drop_first().drop_first() =~= Seq::<Option<Vec<u8>>>::empty());
        assert(queue_bufs(q.drop_first().drop_first()) == 0);
        assert(queue_bufs(q.drop_first()) == 1);
        assert(queue_bufs(q) == 2);
        assert(queue_data(shared.full_pending_read@) == Seq::<u8>::empty());
        assert(buf_bytes(q[0]) == Seq::<u8>::empty());
        assert(buf_bytes(q.drop_first()[0]) == Seq::<u8>::empty());
        assert(writer.written@ =~= concat_chunks(writer.emitted@) + buf_bytes(writer.buf));
        assert(writer.written@ =~= shared.consumed@ + queue_data(shared.full_pending_read@)
            + buf_bytes(writer.buf));
    }
    (writer, reader, shared)
}

// ---------------------------------------------------------------------------
// Writer operations.
// ---------------------------------------------------------------------------

impl Writer {
    /// Idempotently records `error` in the completion cell and wakes the
    /// reader by enqueueing an end marker on the data queue, best effort.
    pub fn observe_error(&self, sh: &mut ChunkerShared, error: WuffError)
        requires
            old(sh).inv(),
            self.linked(*old(sh)),
        ensures
            final(sh).inv(),
            self.linked(*final(sh)),
            old(sh).reader_view_eq(*final(sh)),
            final(sh).result == match old(sh).result {
                Completion::Pending => Completion::Failed(error),
                r => r,
            },
            final(sh).stream_end == old(sh).stream_end,
            final(sh).writer_done == old(sh).writer_done,
            final(sh).writer_holding == old(sh).writer_holding,
            final(sh).writer_attached == old(sh).writer_attached,
            final(sh).reader_attached == old(sh).reader_attached,
            final(sh).destroyed == old(sh).destroyed,
            final(sh).empty_pending_write == old(sh).empty_pending_write,
            queue_data(final(sh).full_pending_read@) == queue_data(old(sh).full_pending_read@),
    {
        if sh.result.is_pending() {
            sh.result = Completion::Failed(error);
        }
        if sh.reader_attached && sh.full_pending_read.len() < QUEUE_CAPACITY {
            let ghost q0 = sh.full_pending_read@;
            sh.full_pending_read.push(None);
            proof {
                lemma_queue_data_push(q0, None);
                assert forall|i: int| 0 <= i < sh.full_pending_read@.len() implies buf_bytes(
                    #[trigger] sh.full_pending_read@[i],
                ).len() <= sh.max_chunk@ by {
                    if i < q0.len() {
                        assert(sh.full_pending_read@[i] == q0[i]);
                    }
                }
            }
        }
    }

    /// Appends `data` to the stream, filling buffers up to the current
    /// chunk-size target and shipping each one as it fills, doubling the
    /// target as it goes (saturating at `max_chunk_size`).
    ///
    /// `Ok(n)` says the first `n` bytes were accepted; `n` falls short of
    /// `data.len()` only when the writer ran out of recycled buffers and
    /// must wait for the reader.  `Err` reports a failure already recorded
    /// by the other side, or the chunk-count ceiling being hit, which
    /// poisons the completion cell.
    pub fn write(&mut self, sh: &mut ChunkerShared, data: &[u8]) -> (r: Result<usize, WuffError>)
        requires
            old(self).wf(),
            old(self).linked(*old(sh)),
            old(sh).inv(),
            !old(self).done,
        ensures
            final(self).wf(),
            final(self).linked(*final(sh)),
            final(sh).inv(),
            old(sh).reader_view_eq(*final(sh)),
            final(sh).writer_attached == old(sh).writer_attached,
            final(sh).reader_attached == old(sh).reader_attached,
            final(sh).stream_end == old(sh).stream_end,
            final(sh).destroyed == old(sh).destroyed,
            !final(self).done,
            final(self).max_chunk_size == old(self).max_chunk_size,
            final(self).max_num_chunks == old(self).max_num_chunks,
            final(self).initial_size == old(self).initial_size,
            match r {
                Ok(n) => {
                    &&& old(sh).result is Pending
                    &&& final(sh).result is Pending
                    &&& n <= data@.len()
                    &&& final(self).written@ == old(self).written@ + data@.subrange(0, n as int)
                    &&& (n < data@.len() ==> {
                        &&& final(sh).empty_pending_write@.len() == 0
                        &&& final(self).buf is None
                        &&& final(self).num_chunks < final(self).max_num_chunks
                    })
                },
                Err(e) => {
                    &&& final(sh).result is Failed
                    &&& match old(sh).result {
                        Completion::Failed(e0) => {
                            &&& e == e0
                            &&& *final(self) == *old(self)
                            &&& *final(sh) == *old(sh)
                        },
                        Completion::Pending => {
                            &&& e.message@ == "Exceeded maximum file size"@
                            &&& final(sh).result == Completion::Failed(e)
                            &&& final(self).buf is None
                            &&& final(self).num_chunks == final(self).max_num_chunks
                            &&& exists|n: int|
                                0 <= n <= data@.len() && final(self).written@ == old(
                                    self,
                                ).written@ + data@.subrange(0, n)
                        },
                        Completion::Succeeded => false,
                    }
                },
            },
    {
        if let Some(e) = sh.result.get_failure() {
            return Err(e);
        }
        if !sh.result.is_pending() {
            // The cell can only hold success once both sides have finished,
            // and this writer has not.
            proof {
                assert(false);
            }
            return vstd::pervasive::unreached();
        }
        let mut consumed: usize = 0;
        while consumed < data.len()
            invariant
                sh.inv(),
                self.linked(*sh),
                1 <= self.initial_size@ <= self.max_chunk_size,
                self.max_num_chunks >= 1,
                self.wf_sched(),
                !self.done,
                sh.result is Pending,
                old(sh).result is Pending,
                consumed <= data@.len(),
                self.written@ == old(self).written@ + data@.subrange(0, consumed as int),
                match self.buf {
                    Some(b) => b@.len() == 0 ==> consumed < data@.len(),
                    None => true,
                },
                old(sh).reader_view_eq(*sh),
                sh.writer_attached == old(sh).writer_attached,
                sh.reader_attached == old(sh).reader_attached,
                sh.stream_end == old(sh).stream_end,
                sh.destroyed == old(sh).destroyed,
                self.max_chunk_size == old(self).max_chunk_size,
                self.max_num_chunks == old(self).max_num_chunks,
                self.initial_size == old(self).initial_size,
            decreases
                    data@.len() - consumed,
                    (if self.buf is Some {
                        0int
                    } else {
                        1int
                    }),
        {
            if self.buf.is_none() {
                if self.num_chunks >= self.max_num_chunks {
                    let error = WuffError::new("Exceeded maximum file size");
                    self.observe_error(sh, error.duplicate());
                    proof {
                        let n0 = consumed as int;
                        assert(0 <= n0 <= data@.len() && self.written@ == old(self).written@
                            + data@.subrange(0, n0));
                    }
                    return Err(error);
                }
                if sh.empty_pending_write.len() == 0 {
                    return Ok(consumed);
                }
                let ghost q0 = sh.empty_pending_write@;
                let fresh = sh.empty_pending_write.remove(0);
                proof {
                    lemma_queue_head(q0);
                    assert(sh.empty_pending_write@ =~= q0.drop_first());
                    assert forall|i: int|
                        0 <= i < sh.empty_pending_write@.len() implies (buf_bytes(
                        #[trigger] sh.empty_pending_write@[i],
                    ) == Seq::<u8>::empty() && !(sh.empty_pending_write@[i] is None)) by {
                        assert(sh.empty_pending_write@[i] == q0[i + 1]);
                        assert(!queue_has_none(q0));
                    }
                }
                match fresh {
                    None => {
                        // A `None` on the recycle queue is only ever sent
                        // after the cell is populated, and it is pending.
                        proof {
                            assert(queue_has_none(q0));
                            assert(false);
                        }
                        return vstd::pervasive::unreached();
                    },
                    Some(b) => {
                        proof {
                            assert(buf_bytes(q0[0]) == Seq::<u8>::empty());
                            lemma_sched_bounds(
                                self.initial_size@,
                                self.max_chunk_size as nat,
                                self.emitted@.len(),
                            );
                        }
                        self.buf = Some(b);
                        self.num_chunks = self.num_chunks + 1;
                        sh.writer_holding = Ghost(true);
                    },
                }
            } else {
                let mut b = self.buf.take().unwrap();
                let ghost b0 = b@;
                let avail = self.chunk_size - b.len();
                let remaining = data.len() - consumed;
                let t = if remaining < avail {
                    remaining
                } else {
                    avail
                };
                let end = consumed + t;
                let ghost start = consumed as int;
                while consumed < end
                    invariant
                        0 <= start <= consumed <= end <= data@.len(),
                        b@ == b0 + data@.subrange(start, consumed as int),
                        b0.len() + (end - start) <= self.chunk_size,
                    decreases end - consumed,
                {
                    let ghost before = consumed as int;
                    let byte = data[consumed];
                    b.push(byte);
                    consumed = consumed + 1;
                    proof {
                        assert(byte == data@[before]);
                        assert(data@.subrange(start, before + 1) =~= data@.subrange(
                            start,
                            before,
                        ).push(data@[before]));
                        assert(b@ =~= b0 + data@.subrange(start, consumed as int));
                    }
                }
                proof {
                    assert(data@.subrange(0, consumed as int) =~= data@.subrange(0, start)
                        + data@.subrange(start, consumed as int));
                }
                self.written = Ghost(self.written@ + data@.subrange(start, consumed as int));
                proof {
                    assert(self.written@ =~= old(self).written@ + data@.subrange(
                        0,
                        consumed as int,
                    ));
                    assert(self.written@ =~= concat_chunks(self.emitted@) + b@);
                    assert(self.written@ =~= sh.consumed@ + queue_data(sh.full_pending_read@)
                        + b@);
                }
                if b.len() == self.chunk_size {
                    // The buffer hit the target: ship it and double the
                    // target, saturating at the maximum.
                    let ghost fullq0 = sh.full_pending_read@;
                    let ghost shipped = b@;
                    proof {
                        assert(!queue_has_none(fullq0));
                        lemma_queue_all_bufs(fullq0);
                        lemma_queue_bufs_nonneg(sh.empty_pending_write@);
                    }
                    sh.full_pending_read.push(Some(b));
                    proof {
                        assert(sh.full_pending_read@.drop_last() =~= fullq0);
                        lemma_queue_snoc(sh.full_pending_read@);
                        lemma_sched_bounds(
                            self.initial_size@,
                            self.max_chunk_size as nat,
                            self.emitted@.len(),
                        );
                        lemma_concat_push(self.emitted@, shipped);
                    }
                    self.emitted = Ghost(self.emitted@.push(shipped));
                    sh.writer_holding = Ghost(false);
                    if self.chunk_size > self.max_chunk_size - self.chunk_size {
                        self.chunk_size = self.max_chunk_size;
                    } else {
                        self.chunk_size = 2 * self.chunk_size;
                    }
                    proof {
                        let init = self.initial_size@;
                        let maxn = self.max_chunk_size as nat;
                        let n1 = self.emitted@.len();
                        assert(sched(init, maxn, n1) == (if 2 * sched(init, maxn, (n1 - 1) as nat)
                            <= maxn {
                            2 * sched(init, maxn, (n1 - 1) as nat)
                        } else {
                            maxn
                        }));
                        assert(self.chunk_size == sched(init, maxn, n1));
                        assert forall|i: int|
                            0 <= i < sh.full_pending_read@.len() implies buf_bytes(
                            #[trigger] sh.full_pending_read@[i],
                        ).len() <= sh.max_chunk@ by {
                            if i < fullq0.len() {
                                assert(sh.full_pending_read@[i] == fullq0[i]);
                            }
                        }
                        assert forall|i: int|
                            0 <= i < sh.full_pending_read@.len() implies !(
                        #[trigger] sh.full_pending_read@[i] is None) by {
                            if i < fullq0.len() {
                                assert(sh.full_pending_read@[i] == fullq0[i]);
                                assert(!queue_has_none(fullq0));
                            }
                        }
                        assert forall|i: int|
                            0 <= i < self.emitted@.len() implies (#[trigger] self.emitted@[i]).len()
                            == sched(
                            self.initial_size@,
                            self.max_chunk_size as nat,
                            i as nat,
                        ) by {}
                        assert(self.written@ =~= concat_chunks(self.emitted@) + buf_bytes(
                            self.buf,
                        ));
                        assert(self.written@ =~= sh.consumed@ + queue_data(
                            sh.full_pending_read@,
                        ) + buf_bytes(self.buf));
                    }
                } else {
                    self.buf = Some(b);
                }
            }
        }
        proof {
            assert(data@.subrange(0, consumed as int) =~= data@.subrange(0, data@.len() as int));
        }
        Ok(consumed)
    }

    /// Flushes the in-progress buffer (even partially full), signals the end
    /// of the stream with an end marker, and marks the writer finished.
    /// After `Ok`, poll with [`Writer::finalize_poll`] until the reader has
    /// drained the stream and recorded the outcome.
    pub fn finalize(&mut self, sh: &mut ChunkerShared) -> (r: Result<(), WuffError>)
        requires
            old(self).wf(),
            old(self).linked(*old(sh)),
            old(sh).inv(),
            !old(self).done,
        ensures
            final(self).wf(),
            final(self).linked(*final(sh)),
            final(sh).inv(),
            old(sh).reader_view_eq(*final(sh)),
            final(sh).writer_attached == old(sh).writer_attached,
            final(sh).reader_attached == old(sh).reader_attached,
            final(sh).destroyed == old(sh).destroyed,
            final(self).written == old(self).written,
            match r {
                Ok(()) => {
                    &&& old(sh).result is Pending
                    &&& final(sh).result is Pending
                    &&& final(self).done
                    &&& final(sh).stream_end@ == Some(old(self).written@)
                    &&& final(sh).full_pending_read@.len() == old(sh).full_pending_read@.len() + 1
                        + (if old(self).buf is Some {
                        1int
                    } else {
                        0int
                    })
                    &&& final(sh).full_pending_read@.last() is None
                    &&& queue_data(final(sh).full_pending_read@) == queue_data(
                        old(sh).full_pending_read@,
                    ) + buf_bytes(old(self).buf)
                },
                Err(e) => {
                    &&& old(sh).result == Completion::Failed(e)
                    &&& *final(self) == *old(self)
                    &&& *final(sh) == *old(sh)
                },
            },
    {
        if let Some(e) = sh.result.get_failure() {
            return Err(e);
        }
        if !sh.result.is_pending() {
            proof {
                assert(false);
            }
            return vstd::pervasive::unreached();
        }
        // Flush the in-progress buffer, even if only partially full.
        if self.buf.is_some() {
            let b = self.buf.take().unwrap();
            let ghost fullq0 = sh.full_pending_read@;
            proof {
                assert(!queue_has_none(fullq0));
                lemma_queue_all_bufs(fullq0);
                lemma_queue_bufs_nonneg(sh.empty_pending_write@);
            }
            sh.full_pending_read.push(Some(b));
            sh.writer_holding = Ghost(false);
            proof {
                assert(sh.full_pending_read@.drop_last() =~= fullq0);
                lemma_queue_snoc(sh.full_pending_read@);
                assert(buf_bytes(sh.full_pending_read@.last()) == b@);
                assert(self.written@ =~= sh.consumed@ + queue_data(sh.full_pending_read@));
                assert forall|i: int| 0 <= i < sh.full_pending_read@.len() implies (buf_bytes(
                    #[trigger] sh.full_pending_read@[i],
                ).len() <= sh.max_chunk@ && !(sh.full_pending_read@[i] is None)) by {
                    if i < fullq0.len() {
                        assert(sh.full_pending_read@[i] == fullq0[i]);
                        assert(!queue_has_none(fullq0));
                    }
                }
            }
        }
        // Let the reader know this side is done.
        let ghost fullq1 = sh.full_pending_read@;
        proof {
            assert(!queue_has_none(fullq1));
            lemma_queue_all_bufs(fullq1);
            lemma_queue_bufs_nonneg(sh.empty_pending_write@);
            lemma_queue_data_push(fullq1, None);
        }
        sh.full_pending_read.push(None);
        self.done = true;
        sh.writer_done = Ghost(true);
        sh.stream_end = Ghost(Some(self.written@));
        proof {
            assert(sh.full_pending_read@ == fullq1.push(None));
            assert(queue_data(sh.full_pending_read@) == queue_data(fullq1));
            assert(queue_bufs(sh.full_pending_read@) == queue_bufs(fullq1));
            assert(self.written@ =~= sh.consumed@ + queue_data(sh.full_pending_read@));
            assert forall|i: int| 0 <= i < sh.full_pending_read@.len() implies buf_bytes(
                #[trigger] sh.full_pending_read@[i],
            ).len() <= sh.max_chunk@ by {
                if i < fullq1.len() {
                    assert(sh.full_pending_read@[i] == fullq1[i]);
                }
            }
            assert forall|i: int| 0 <= i < sh.full_pending_read@.len() - 1 implies (
            #[trigger] sh.full_pending_read@[i]) is Some by {
                assert(sh.full_pending_read@[i] == fullq1[i]);
                assert(!queue_has_none(fullq1));
            }
        }
        Ok(())
    }

    /// After [`Writer::finalize`], drains the recycle queue looking for the
    /// recorded outcome.  `None` means the reader has not recorded one yet
    /// and the writer would suspend.
    pub fn finalize_poll(&mut self, sh: &mut ChunkerShared) -> (r: Option<
        Result<(), WuffError>,
    >)
        requires
            old(self).wf(),
            old(self).linked(*old(sh)),
            old(sh).inv(),
            old(self).done,
        ensures
            final(self).wf(),
            final(self).linked(*final(sh)),
            final(sh).inv(),
            *final(self) == *old(self),
            final(sh).result == old(sh).result,
            final(sh).stream_end == old(sh).stream_end,
            final(sh).full_pending_read == old(sh).full_pending_read,
            final(sh).consumed == old(sh).consumed,
            final(sh).reader_done == old(sh).reader_done,
            final(sh).reader_holding == old(sh).reader_holding,
            final(sh).reader_eof == old(sh).reader_eof,
            final(sh).writer_attached == old(sh).writer_attached,
            final(sh).reader_attached == old(sh).reader_attached,
            old(sh).empty_pending_write@.len() > 0 && !(old(sh).result is Pending) ==> r is Some,
            match r {
                None => final(sh).empty_pending_write@.len() == 0,
                Some(Ok(())) => final(sh).result is Succeeded,
                Some(Err(e)) => final(sh).result == Completion::Failed(e),
            },
    {
        loop
            invariant
                sh.inv(),
                self.linked(*sh),
                self.wf(),
                self.done,
                sh.result == old(sh).result,
                sh.stream_end == old(sh).stream_end,
                sh.full_pending_read == old(sh).full_pending_read,
                sh.consumed == old(sh).consumed,
                sh.reader_done == old(sh).reader_done,
                sh.reader_holding == old(sh).reader_holding,
                sh.reader_eof == old(sh).reader_eof,
                sh.writer_attached == old(sh).writer_attached,
                sh.reader_attached == old(sh).reader_attached,
                !(old(sh).result is Pending) ==> sh.empty_pending_write@.len() == old(
                    sh,
                ).empty_pending_write@.len(),
            decreases sh.empty_pending_write@.len(),
        {
            if sh.empty_pending_write.len() == 0 {
                return None;
            }
            let ghost q0 = sh.empty_pending_write@;
            let popped = sh.empty_pending_write.remove(0);
            proof {
                lemma_queue_head(q0);
                assert(sh.empty_pending_write@ =~= q0.drop_first());
                assert forall|i: int|
                    0 <= i < sh.empty_pending_write@.len() implies buf_bytes(
                    #[trigger] sh.empty_pending_write@[i],
                ) == Seq::<u8>::empty() by {
                    assert(sh.empty_pending_write@[i] == q0[i + 1]);
                }
            }
            if popped.is_some() {
                // A drained buffer leaves circulation.
                sh.destroyed = Ghost(sh.destroyed@ + 1);
            } else {
                proof {
                    assert(queue_has_none(q0));
                }
            }
            proof {
                if queue_has_none(sh.empty_pending_write@) {
                    let i = choose|i: int|
                        0 <= i < sh.empty_pending_write@.len() && sh.empty_pending_write@[i]
                            is None;
                    assert(q0[i + 1] is None);
                    assert(queue_has_none(q0));
                }
            }
            if let Some(e) = sh.result.get_failure() {
                return Some(Err(e));
            }
            if !sh.result.is_pending() {
                // Success was recorded by the reader's finalize.
                return Some(Ok(()));
            }
        }
    }

    /// Tears the writer down.  If the pair has not finished cleanly, this
    /// behaves as observing an "Unexpected EOF" error, so that the reader's
    /// next operation reports it.
    pub fn abandon(self, sh: &mut ChunkerShared)
        requires
            old(sh).inv(),
            self.linked(*old(sh)),
        ensures
            final(sh).inv(),
            old(sh).reader_view_eq(*final(sh)),
            !final(sh).writer_attached,
            old(sh).result is Pending ==> final(sh).result is Failed
                && final(sh).result->Failed_0.message@ == "Unexpected EOF"@,
            !(old(sh).result is Pending) ==> final(sh).result == old(sh).result,
            final(sh).stream_end == old(sh).stream_end,
            queue_data(final(sh).full_pending_read@) == queue_data(old(sh).full_pending_read@),
    {
        self.observe_error(sh, WuffError::new("Unexpected EOF"));
        sh.writer_attached = false;
        if self.buf.is_some() {
            sh.destroyed = Ghost(sh.destroyed@ + 1);
        }
        sh.writer_holding = Ghost(false);
    }
}

// ---------------------------------------------------------------------------
// Laws of the chunker pair.
// ---------------------------------------------------------------------------

/// Law: once the reader has observed the end of the stream and nothing has
/// failed, the bytes it has absorbed into the running hash are exactly the
/// bytes the writer wrote, in order.  The digest reported at end of stream is
/// therefore the MD5 digest of the concatenation of all writes.
pub proof fn lemma_stream_integrity(w: Writer, r: Reader, sh: ChunkerShared)
    requires
        sh.inv(),
        w.linked(sh),
        r.linked(sh),
        sh.result.is_ok_so_far(),
        r.consumed_all_input,
    ensures
        md5_absorbed(r.hasher) == w.written@,
{
}

/// Law: every chunk the writer has shipped has exactly the scheduled size
/// for its position in the stream: the initial chunk size, doubled after
/// each shipped chunk, saturating at `max_chunk_size`.  In particular no
/// shipped chunk exceeds `max_chunk_size`.  (The final, partially filled
/// chunk is flushed by `finalize` and is shorter than the target in force
/// when it was cut.)
pub proof fn lemma_chunk_size_schedule(w: Writer, i: int)
    requires
        w.wf(),
        !w.done,
        0 <= i < w.emitted@.len(),
    ensures
        w.emitted@[i].len() == sched(w.initial_size@, w.max_chunk_size as nat, i as nat),
        w.emitted@[i].len() <= w.max_chunk_size,
{
    lemma_sched_bounds(w.initial_size@, w.max_chunk_size as nat, i as nat);
}

/// Law: the double-buffer budget.  A chunker pair is seeded with exactly two
/// buffers, and no operation ever allocates another: at any instant the
/// buffers sitting in the two queues, held in progress by the writer, held
/// for recycling by the reader, and already taken out of circulation total
/// exactly two.
pub proof fn lemma_double_buffer_budget(sh: ChunkerShared)
    requires
        sh.inv(),
    ensures
        queue_bufs(sh.full_pending_read@) + queue_bufs(sh.empty_pending_write@) + (
        if sh.writer_holding@ {
            1int
        } else {
            0int
        }) + (if sh.reader_holding@ {
            1int
        } else {
            0int
        }) + sh.destroyed@ == 2,
{
}

// ---------------------------------------------------------------------------
// Reader operations.
// ---------------------------------------------------------------------------

/// A byte-for-byte copy of a buffer, handed to the consumer while the
/// original stays in circulation for recycling.
fn clone_bytes(v: &Vec<u8>) -> (r: Vec<u8>)
    ensures
        r@ == v@,
{
    let mut r: Vec<u8> = Vec::new();
    let mut i: usize = 0;
    while i < v.len()
        invariant
            i <= v@.len(),
            r@ == v@.subrange(0, i as int),
        decreases v@.len() - i,
    {
        r.push(v[i]);
        proof {
            assert(v@.subrange(0, i + 1 as int) =~= v@.subrange(0, i as int).push(v@[i as int]));
        }
        i = i + 1;
    }
    proof {
        assert(v@.subrange(0, v@.len() as int) =~= v@);
    }
    r
}

impl Reader {
    /// Idempotently records `error` in the completion cell and wakes the
    /// writer by enqueueing an end marker on the recycle queue, best effort.
    pub fn observe_error(&self, sh: &mut ChunkerShared, error: WuffError)
        requires
            old(sh).inv(),
            self.linked(*old(sh)),
        ensures
            final(sh).inv(),
            self.linked(*final(sh)),
            old(sh).writer_view_eq(*final(sh)),
            final(sh).result == match old(sh).result {
                Completion::Pending => Completion::Failed(error),
                r => r,
            },
            final(sh).consumed == old(sh).consumed,
            final(sh).reader_done == old(sh).reader_done,
            final(sh).reader_holding == old(sh).reader_holding,
            final(sh).reader_eof == old(sh).reader_eof,
            final(sh).reader_attached == old(sh).reader_attached,
            final(sh).writer_attached == old(sh).writer_attached,
            final(sh).destroyed == old(sh).destroyed,
            final(sh).full_pending_read == old(sh).full_pending_read,
    {
        if sh.result.is_pending() {
            sh.result = Completion::Failed(error);
        }
        if sh.writer_attached && sh.empty_pending_write.len() < QUEUE_CAPACITY {
            let ghost q0 = sh.empty_pending_write@;
            sh.empty_pending_write.push(None);
            proof {
                lemma_queue_data_push(q0, None);
                assert forall|i: int| 0 <= i < sh.empty_pending_write@.len() implies buf_bytes(
                    #[trigger] sh.empty_pending_write@[i],
                ) == Seq::<u8>::empty() by {
                    if i < q0.len() {
                        assert(sh.empty_pending_write@[i] == q0[i]);
                    }
                }
            }
        }
    }

    /// Releases the previously delivered buffer back to the writer, then
    /// takes the next envelope off the data queue.
    ///
    /// `Ok(None)` says the data queue is empty and the reader would suspend
    /// awaiting the producer.  `Ok(Some(Chunk(..)))` delivers the next chunk
    /// and feeds it to the running hash.  `Ok(Some(Eof(..)))` reports a clean
    /// end of stream together with the MD5 digest of everything delivered;
    /// after that, further calls are a programming error.  `Err` reports a
    /// failure recorded by either side.
    pub fn get_next_chunk(&mut self, sh: &mut ChunkerShared) -> (r: Result<
        Option<ChunkOrEof>,
        WuffError,
    >)
        requires
            old(self).linked(*old(sh)),
            old(sh).inv(),
            !old(self).consumed_all_input,
            !old(self).done,
        ensures
            final(self).linked(*final(sh)),
            final(sh).inv(),
            old(sh).writer_view_eq(*final(sh)),
            final(sh).result == old(sh).result,
            final(sh).writer_attached == old(sh).writer_attached,
            final(sh).reader_attached == old(sh).reader_attached,
            final(sh).destroyed == old(sh).destroyed,
            !final(self).done,
            final(sh).result.is_ok_so_far() ==> final(sh).consumed@ + queue_data(
                final(sh).full_pending_read@,
            ) == old(sh).consumed@ + queue_data(old(sh).full_pending_read@),
            match r {
                Err(e) => {
                    &&& old(sh).result == Completion::Failed(e)
                    &&& *final(self) == *old(self)
                    &&& *final(sh) == *old(sh)
                },
                Ok(None) => {
                    &&& old(sh).result is Pending
                    &&& old(sh).full_pending_read@.len() == 0
                    &&& final(sh).full_pending_read == old(sh).full_pending_read
                    &&& final(self).chunk is None
                    &&& final(sh).consumed == old(sh).consumed
                    &&& !final(self).consumed_all_input
                },
                Ok(Some(ChunkOrEof::Chunk(c))) => {
                    &&& old(sh).result is Pending
                    &&& old(sh).full_pending_read@.len() > 0
                    &&& old(sh).full_pending_read@[0] is Some
                    &&& c@ == buf_bytes(old(sh).full_pending_read@[0])
                    &&& c@.len() <= final(sh).max_chunk@
                    &&& final(sh).full_pending_read@ == old(sh).full_pending_read@.drop_first()
                    &&& final(sh).consumed@ == old(sh).consumed@ + c@
                    &&& !final(self).consumed_all_input
                },
                Ok(Some(ChunkOrEof::Eof(d))) => {
                    &&& old(sh).result is Pending
                    &&& final(self).consumed_all_input
                    &&& final(sh).consumed == old(sh).consumed
                    &&& final(sh).stream_end@ == Some(final(sh).consumed@)
                    &&& d@ == md5_of(final(sh).consumed@)
                    &&& d@.len() == 16
                },
            },
    {
        if let Some(e) = sh.result.get_failure() {
            return Err(e);
        }
        if !sh.result.is_pending() {
            // The cell can only hold success once both sides have finished,
            // and this reader has not.
            proof {
                assert(false);
            }
            return vstd::pervasive::unreached();
        }
        // If we were holding onto a chunk, release it back to the writer.
        if self.chunk.is_some() {
            let mut old_chunk = self.chunk.take().unwrap();
            old_chunk.clear();
            let ghost q0 = sh.empty_pending_write@;
            proof {
                lemma_queue_bufs_nonneg(sh.full_pending_read@);
                assert(!queue_has_none(q0));
                lemma_queue_all_bufs(q0);
            }
            sh.empty_pending_write.push(Some(old_chunk));
            sh.reader_holding = Ghost(false);
            proof {
                assert(sh.empty_pending_write@.drop_last() =~= q0);
                lemma_queue_snoc(sh.empty_pending_write@);
                assert forall|i: int| 0 <= i < sh.empty_pending_write@.len() implies buf_bytes(
                    #[trigger] sh.empty_pending_write@[i],
                ) == Seq::<u8>::empty() by {
                    if i < q0.len() {
                        assert(sh.empty_pending_write@[i] == q0[i]);
                    }
                }
                assert forall|i: int|
                    0 <= i < sh.empty_pending_write@.len() implies !(
                #[trigger] sh.empty_pending_write@[i] is None) by {
                    if i < q0.len() {
                        assert(sh.empty_pending_write@[i] == q0[i]);
                        assert(!queue_has_none(q0));
                    }
                }
            }
        }
        // Take the next envelope off the data queue.
        if sh.full_pending_read.len() == 0 {
            return Ok(None);
        }
        let ghost fq0 = sh.full_pending_read@;
        let fresh = sh.full_pending_read.remove(0);
        proof {
            lemma_queue_head(fq0);
            assert(sh.full_pending_read@ =~= fq0.drop_first());
            assert forall|i: int| 0 <= i < sh.full_pending_read@.len() implies buf_bytes(
                #[trigger] sh.full_pending_read@[i],
            ).len() <= sh.max_chunk@ by {
                assert(sh.full_pending_read@[i] == fq0[i + 1]);
            }
        }
        match fresh {
            Some(c) => {
                proof {
                    if queue_has_none(sh.full_pending_read@) {
                        let i = choose|i: int|
                            0 <= i < sh.full_pending_read@.len() && sh.full_pending_read@[i]
                                is None;
                        assert(fq0[i + 1] is None);
                        assert(queue_has_none(fq0));
                    }
                    if sh.writer_done@ && !sh.reader_eof@ {
                        // The end marker stays at the back of the queue.
                        assert(fq0.last() is None);
                        assert(sh.full_pending_read@.len() > 0);
                        assert(sh.full_pending_read@.last() == fq0.last());
                        assert forall|i: int|
                            0 <= i < sh.full_pending_read@.len() - 1 implies (
                        #[trigger] sh.full_pending_read@[i]) is Some by {
                            assert(sh.full_pending_read@[i] == fq0[i + 1]);
                        }
                    }
                }
                let delivered = clone_bytes(&c);
                md5_update(&mut self.hasher, &c);
                sh.consumed = Ghost(sh.consumed@ + c@);
                self.chunk = Some(c);
                sh.reader_holding = Ghost(true);
                proof {
                    if sh.result.is_ok_so_far() {
                        match sh.stream_end@ {
                            Some(s) => {
                                assert(sh.consumed@ + queue_data(sh.full_pending_read@) =~= s);
                            },
                            None => {},
                        }
                        assert(sh.consumed@ + queue_data(sh.full_pending_read@) =~= old(
                            sh,
                        ).consumed@ + queue_data(old(sh).full_pending_read@));
                    }
                }
                Ok(Some(ChunkOrEof::Chunk(delivered)))
            },
            None => {
                // The writer is gone.  The cell is pending, so this is a
                // clean end of stream: everything written has been absorbed.
                proof {
                    assert(queue_has_none(fq0));
                    assert(sh.writer_done@);
                    assert(!sh.reader_eof@);
                    assert(fq0.last() is None);
                    assert(fq0[0] is None);
                    assert(fq0.len() == 1);
                    assert(sh.full_pending_read@.len() == 0);
                    assert(queue_data(fq0) =~= Seq::<u8>::empty());
                    match sh.stream_end@ {
                        Some(s) => {
                            assert(sh.consumed@ + queue_data(fq0) =~= sh.consumed@);
                            assert(sh.consumed@ =~= s);
                        },
                        None => {
                            assert(false);
                        },
                    }
                }
                self.consumed_all_input = true;
                sh.reader_eof = Ghost(true);
                let digest = md5_digest(&self.hasher);
                proof {
                    assert(sh.consumed@ + queue_data(sh.full_pending_read@)
                        =~= sh.consumed@);
                }
                Ok(Some(ChunkOrEof::Eof(digest)))
            },
        }
    }

    /// Records success in the completion cell (if nothing failed first) and
    /// unblocks the writer's finalize with an end marker on the recycle
    /// queue.  Requires the end of the stream to have been observed.
    pub fn finalize(&mut self, sh: &mut ChunkerShared) -> (r: Result<(), WuffError>)
        requires
            old(self).linked(*old(sh)),
            old(sh).inv(),
            old(self).consumed_all_input,
            !old(self).done,
        ensures
            final(self).linked(*final(sh)),
            final(sh).inv(),
            old(sh).writer_view_eq(*final(sh)),
            final(sh).consumed == old(sh).consumed,
            final(sh).full_pending_read == old(sh).full_pending_read,
            final(sh).writer_attached == old(sh).writer_attached,
            final(sh).reader_attached == old(sh).reader_attached,
            final(sh).destroyed == old(sh).destroyed,
            match r {
                Ok(()) => {
                    &&& old(sh).result is Pending
                    &&& final(sh).result is Succeeded
                    &&& final(self).done
                    &&& final(sh).empty_pending_write@.len() == old(
                        sh,
                    ).empty_pending_write@.len() + 1
                },
                Err(e) => {
                    &&& old(sh).result == Completion::Failed(e)
                    &&& *final(self) == *old(self)
                    &&& *final(sh) == *old(sh)
                },
            },
    {
        if let Some(e) = sh.result.get_failure() {
            return Err(e);
        }
        if !sh.result.is_pending() {
            proof {
                assert(false);
            }
            return vstd::pervasive::unreached();
        }
        self.done = true;
        sh.reader_done = Ghost(true);
        // Success may only be recorded here, by the reader's clean finalize.
        sh.result = Completion::Succeeded;
        // Let the writer know this side is done.
        let ghost q0 = sh.empty_pending_write@;
        proof {
            lemma_queue_bufs_nonneg(sh.full_pending_read@);
            lemma_queue_bufs_nonneg(q0);
            lemma_queue_all_bufs(q0);
        }
        sh.empty_pending_write.push(None);
        proof {
            lemma_queue_data_push(q0, None);
            assert forall|i: int| 0 <= i < sh.empty_pending_write@.len() implies buf_bytes(
                #[trigger] sh.empty_pending_write@[i],
            ) == Seq::<u8>::empty() by {
                if i < q0.len() {
                    assert(sh.empty_pending_write@[i] == q0[i]);
                }
            }
        }
        Ok(())
    }

    /// Tears the reader down.  If the pair has not finished cleanly, this
    /// behaves as observing a "Reader went away" error, so that the writer's
    /// next operation reports it.
    pub fn abandon(self, sh: &mut ChunkerShared)
        requires
            old(sh).inv(),
            self.linked(*old(sh)),
        ensures
            final(sh).inv(),
            old(sh).writer_view_eq(*final(sh)),
            !final(sh).reader_attached,
            old(sh).result is Pending ==> final(sh).result is Failed
                && final(sh).result->Failed_0.message@ == "Reader went away"@,
            !(old(sh).result is Pending) ==> final(sh).result == old(sh).result,
            final(sh).consumed == old(sh).consumed,
            final(sh).full_pending_read == old(sh).full_pending_read,
    {
        self.observe_error(sh, WuffError::new("Reader went away"));
        sh.reader_attached = false;
        if self.chunk.is_some() {
            sh.destroyed = Ghost(sh.destroyed@ + 1);
        }
        sh.reader_holding = Ghost(false);
    }
}

} // verus!
