//! Per-queue pool of timestamp query handles.
//!
//! Each handle holds two command buffers: the first writes a timestamp at the
//! top of the pipe, the second at its bottom. A submission wrapped as
//! `[start, ...user commands..., end]` has the GPU stamp the start and the end
//! of a frame into a query pool, which is read out asynchronously. A handle
//! that is dropped waits in a queue until a background thread has seen its
//! timestamps written; only then can its queries be handed out again.

pub mod bitset;

use crossbeam_queue::SegQueue;
use vstd::prelude::*;
use crate::seg_queue;
use crate::seg_queue::{queue_new, queue_pop, queue_push, Entry};
use crate::timestamp_pool::bitset::{Bitset, CHUNK_SIZE};
use crate::vk;

verus! {

/// A query pool with one command buffer for each of its queries.
pub struct QueryChunk {
    pub query_pool: u64,
    pub command_buffers: Vec<u64>,
    pub free: Bitset,
}

impl QueryChunk {
    pub open spec fn wf(self) -> bool {
        &&& self.command_buffers@.len() == CHUNK_SIZE
        &&& self.free.wf()
        &&& self.free.within_chunk()
    }

    /// The same chunk, but for which pairs are free.
    pub open spec fn same_handles(self, other: QueryChunk) -> bool {
        &&& self.query_pool == other.query_pool
        &&& self.command_buffers@ == other.command_buffers@
    }
}

/// A pair of queries in use, with its two command buffers.
#[derive(Debug, Clone, Copy)]
pub struct Handle {
    pub chunk_idx: usize,
    pub query_index: u32,
    pub start_cb: u64,
    pub end_cb: u64,
    pub was_submitted: bool,
}

impl Handle {
    /// The pair of queries that the handle holds.
    pub open spec fn pair(self) -> (int, int) {
        (self.chunk_idx as int, self.query_index as int / 2)
    }

    pub fn start_buffer(&self) -> (r: u64)
        ensures
            r == self.start_cb,
    {
        self.start_cb
    }

    pub fn end_buffer(&self) -> (r: u64)
        ensures
            r == self.end_cb,
    {
        self.end_cb
    }

    /// Whether the end of the submission has been stamped, by a read of its
    /// query that does not wait.
    pub fn has_end(&self, reply: &QueryReply) -> (r: bool)
        ensures
            r == reply.written(),
    {
        reply.has_ticks()
    }

    /// The ticks at the end of the submission, by a read of its query that
    /// waits for them.
    pub fn await_end(&self, reply: &QueryReply) -> (r: Option<u64>)
        ensures
            r == (if reply.written() {
                Some(reply.value)
            } else {
                None
            }),
    {
        reply.await_ticks()
    }

    /// The query that the end of the submission is stamped into.
    pub fn end_query(&self) -> (r: u32)
        requires
            self.query_index < CHUNK_SIZE,
        ensures
            r == self.query_index + 1,
    {
        self.query_index + 1
    }
}

/// A handle on its way back to the pool.
#[derive(Debug, Clone, Copy)]
pub struct ExpiringHandle {
    pub chunk_idx: usize,
    pub query_index: u32,
    pub was_submitted: bool,
}

impl ExpiringHandle {
    pub open spec fn entry(self) -> Entry {
        (self.chunk_idx as u64, self.query_index as u64, self.was_submitted)
    }
}

/// What a read of one query returned: the call's result, the value and the
/// availability word behind it.
#[derive(Debug, Clone, Copy)]
pub struct QueryReply {
    pub result: i32,
    pub value: u64,
    pub available: u64,
}

impl QueryReply {
    /// Whether the GPU has written the timestamp.
    pub open spec fn written(self) -> bool {
        self.result == vk::SUCCESS && self.available != 0
    }

    /// The timestamp, where it has been written and the read did not fail.
    pub fn await_ticks(&self) -> (r: Option<u64>)
        ensures
            r == (if self.written() {
                Some(self.value)
            } else {
                None
            }),
    {
        if self.result != vk::SUCCESS || self.available == 0 {
            return None;
        }
        Some(self.value)
    }

    /// Whether the timestamp is there; any error counts as not yet.
    pub fn has_ticks(&self) -> (r: bool)
        ensures
            r == self.written(),
    {
        self.result == vk::SUCCESS && self.available != 0
    }
}

/// What the background thread does next.
#[derive(Debug)]
pub enum ReaperStep {
    /// Wait for the handle's timestamps, where they were submitted, then give
    /// its pair back.
    Process(ExpiringHandle),
    /// Sleep until a handle expires or the pool closes.
    Park,
    /// Nothing is left and the pool has closed.
    Exit,
}

/// What comes of asking for a pair.
#[derive(Debug)]
pub enum Acquired {
    /// No chunk has one left: a new chunk has to be added.
    NeedChunk,
    /// The pair, and the commands that record its command buffers.
    Record(Handle, Vec<RecordCommand>),
    /// The device cannot record them.
    Unsupported(i32),
}

/// One command of the recording of a handle's two command buffers.
#[derive(Debug, Clone, Copy)]
pub enum RecordCommand {
    ResetQuery { query_pool: u64, index: u32 },
    ResetBuffer { cb: u64 },
    Begin { cb: u64 },
    WriteTimestamp { cb: u64, stage: u64, query_pool: u64, index: u32 },
    End { cb: u64 },
}

pub open spec fn record_one(cb: u64, stage: u64, query_pool: u64, index: u32) -> Seq<
    RecordCommand,
> {
    seq![
        RecordCommand::ResetQuery { query_pool, index },
        RecordCommand::ResetBuffer { cb },
        RecordCommand::Begin { cb },
        RecordCommand::WriteTimestamp { cb, stage, query_pool, index },
        RecordCommand::End { cb },
    ]
}

/// The commands that record a handle: the start stamp at the top of the pipe
/// into its even query, the end stamp at the bottom into the odd one.
pub open spec fn record_both(h: Handle, query_pool: u64) -> Seq<RecordCommand> {
    record_one(h.start_cb, vk::STAGE_TOP_OF_PIPE, query_pool, h.query_index) + record_one(
        h.end_cb,
        vk::STAGE_BOTTOM_OF_PIPE,
        query_pool,
        (h.query_index + 1) as u32,
    )
}

fn push_recording(out: &mut Vec<RecordCommand>, cb: u64, stage: u64, query_pool: u64, index: u32)
    ensures
        final(out)@ == old(out)@ + record_one(cb, stage, query_pool, index),
{
    let ghost before = out@;
    out.push(RecordCommand::ResetQuery { query_pool, index });
    out.push(RecordCommand::ResetBuffer { cb });
    out.push(RecordCommand::Begin { cb });
    out.push(RecordCommand::WriteTimestamp { cb, stage, query_pool, index });
    out.push(RecordCommand::End { cb });
    proof {
        assert(out@ =~= before + record_one(cb, stage, query_pool, index));
    }
}

/// The pool of one queue.
pub struct TimestampPool {
    pub chunks: Vec<QueryChunk>,
    pub expiring: SegQueue<Entry>,
    pub stop: bool,
}

impl TimestampPool {
    /// Whether a pair can be handed out.
    pub open spec fn is_free(self, pair: (int, int)) -> bool {
        0 <= pair.0 < self.chunks@.len() && self.chunks@[pair.0].free.free(pair.1)
    }

    /// Whether the pool has such a pair.
    pub open spec fn has_pair(self, chunk_idx: int, query_index: int) -> bool {
        &&& 0 <= chunk_idx < self.chunks@.len()
        &&& 0 <= query_index < CHUNK_SIZE
        &&& query_index % 2 == 0
    }

    pub open spec fn wf(self) -> bool {
        &&& forall|c: int| 0 <= c < self.chunks@.len() ==> (#[trigger] self.chunks@[c]).wf()
        &&& forall|i: int|
            #![trigger seg_queue::entries(self.expiring)[i]]
            0 <= i < seg_queue::entries(self.expiring).len() ==> self.has_pair(
                seg_queue::entries(self.expiring)[i].0 as int,
                seg_queue::entries(self.expiring)[i].1 as int,
            )
    }

    /// `self` is `before` with one pair taken out for `h`.
    pub open spec fn took(self, before: TimestampPool, h: Handle) -> bool {
        let c = h.chunk_idx as int;
        &&& c < before.chunks@.len()
        &&& h.query_index % 2 == 0
        &&& before.chunks@[c].free.is_next(h.pair().1)
        &&& !h.was_submitted
        &&& h.start_cb == before.chunks@[c].command_buffers@[h.query_index as int]
        &&& h.end_cb == before.chunks@[c].command_buffers@[h.query_index + 1]
        &&& self.chunks@.len() == before.chunks@.len()
        &&& self.chunks@[c].same_handles(before.chunks@[c])
        &&& self.chunks@[c].free.free_set() == before.chunks@[c].free.free_set().remove(h.pair().1)
        &&& forall|d: int|
            0 <= d < before.chunks@.len() && d != c ==> #[trigger] self.chunks@[d]
                == before.chunks@[d]
        &&& self.expiring == before.expiring
        &&& self.stop == before.stop
    }

    /// `self` is `before` with one pair given back.
    pub open spec fn gave(self, before: TimestampPool, c: int, query_index: int) -> bool {
        &&& self.chunks@.len() == before.chunks@.len()
        &&& 0 <= c < before.chunks@.len() ==> {
            &&& self.chunks@[c].same_handles(before.chunks@[c])
            &&& self.chunks@[c].free.free_set() == before.chunks@[c].free.free_set().insert(
                query_index / 2,
            )
        }
        &&& forall|d: int|
            0 <= d < before.chunks@.len() && d != c ==> #[trigger] self.chunks@[d]
                == before.chunks@[d]
        &&& self.expiring == before.expiring
        &&& self.stop == before.stop
    }

    /// Whether no chunk before that of a handle has a free pair.
    pub open spec fn is_first(self, h: Handle) -> bool {
        forall|d: int|
            0 <= d < h.chunk_idx ==> (#[trigger] self.chunks@[d]).free.free_set() == Set::<
                int,
            >::empty()
    }

    /// `self` is `before` with the first free pair taken out.
    pub open spec fn took_first(self, before: TimestampPool) -> bool {
        exists|h: Handle| #[trigger] self.took(before, h) && before.is_first(h)
    }

    pub fn new() -> (r: Self)
        ensures
            r.wf(),
            r.chunks@.len() == 0,
            seg_queue::entries(r.expiring).len() == 0,
            !r.stop,
    {
        TimestampPool { chunks: Vec::new(), expiring: queue_new(), stop: false }
    }

    /// Takes a pair from the first chunk that has one. Where none has, a new
    /// chunk is needed.
    pub fn find_or_alloc(&mut self) -> (r: Option<Handle>)
        requires
            old(self).wf(),
        ensures
            final(self).wf(),
            match r {
                Some(h) => final(self).took(*old(self), h) && old(self).is_first(h),
                None => {
                    &&& *final(self) == *old(self)
                    &&& forall|d: int|
                        0 <= d < old(self).chunks@.len()
                            ==> (#[trigger] old(self).chunks@[d]).free.free_set()
                                == Set::<int>::empty()
                },
            },
    {
        let mut i: usize = 0;
        while i < self.chunks.len()
            invariant
                *self == *old(self),
                self.wf(),
                i <= self.chunks@.len(),
                forall|d: int|
                    0 <= d < i ==> (#[trigger] self.chunks@[d]).free.free_set()
                        == Set::<int>::empty(),
            decreases self.chunks@.len() - i,
        {
            if self.chunks[i].free.any_free() {
                return Some(self.take_from(i));
            }
            i += 1;
        }
        None
    }

    fn take_from(&mut self, i: usize) -> (h: Handle)
        requires
            old(self).wf(),
            i < old(self).chunks@.len(),
            old(self).chunks@[i as int].free.free_set() != Set::<int>::empty(),
        ensures
            final(self).wf(),
            final(self).took(*old(self), h),
            h.chunk_idx == i,
    {
        let ghost before = *self;
        let taken = self.chunks[i].free.acquire_pair();
        match taken {
            Some(q) => {
                proof {
                    assert(before.chunks@[i as int].free.free(q as int / 2));
                    assert(before.chunks@[i as int].wf());
                }
                let start_cb: u64 = self.chunks[i].command_buffers[q as usize];
                let end_cb: u64 = self.chunks[i].command_buffers[q as usize + 1];
                Handle { chunk_idx: i, query_index: q, start_cb, end_cb, was_submitted: false }
            },
            None => {
                proof {
                    assert(false);
                }
                Handle { chunk_idx: 0, query_index: 0, start_cb: 0, end_cb: 0, was_submitted: false }
            },
        }
    }

    /// Takes a pair and says how its two command buffers are recorded. A
    /// device that lacks the functions for that gets nothing, and the pair is
    /// not handed out again.
    pub fn acquire(&mut self, has_write_timestamp: bool, has_reset_query: bool) -> (r: Acquired)
        requires
            old(self).wf(),
        ensures
            final(self).wf(),
            match r {
                Acquired::NeedChunk => {
                    &&& *final(self) == *old(self)
                    &&& forall|d: int|
                        0 <= d < old(self).chunks@.len() ==> (#[trigger] old(
                            self).chunks@[d]).free.free_set() == Set::<int>::empty()
                },
                Acquired::Record(h, commands) => {
                    &&& has_write_timestamp && has_reset_query
                    &&& final(self).took(*old(self), h)
                    &&& old(self).is_first(h)
                    &&& commands@ == record_both(
                        h,
                        old(self).chunks@[h.chunk_idx as int].query_pool,
                    )
                },
                Acquired::Unsupported(e) => {
                    &&& !(has_write_timestamp && has_reset_query)
                    &&& e == vk::ERROR_EXTENSION_NOT_PRESENT
                    &&& final(self).took_first(*old(self))
                },
            },
    {
        match self.find_or_alloc() {
            None => Acquired::NeedChunk,
            Some(h) => {
                proof {
                    assert(old(self).chunks@[h.chunk_idx as int].wf());
                    assert(old(self).chunks@[h.chunk_idx as int].free.free(h.pair().1));
                }
                match self.record(&h, has_write_timestamp, has_reset_query) {
                    Ok(commands) => Acquired::Record(h, commands),
                    Err(e) => Acquired::Unsupported(e),
                }
            },
        }
    }

    /// Adds a chunk that has just been created and takes its first pair.
    pub fn add_chunk(&mut self, query_pool: u64, command_buffers: Vec<u64>) -> (h: Handle)
        requires
            old(self).wf(),
            command_buffers@.len() == CHUNK_SIZE,
            old(self).chunks@.len() < usize::MAX,
        ensures
            final(self).wf(),
            h.chunk_idx == old(self).chunks@.len(),
            h.query_index == 0,
            h.start_cb == command_buffers@[0],
            h.end_cb == command_buffers@[1],
            !h.was_submitted,
            final(self).chunks@.len() == old(self).chunks@.len() + 1,
            final(self).chunks@.drop_last() == old(self).chunks@,
            final(self).chunks@.last().query_pool == query_pool,
            final(self).chunks@.last().command_buffers@ == command_buffers@,
            final(self).chunks@.last().free.free_set() == Set::new(
                |p: int| 1 <= p < CHUNK_SIZE / 2,
            ),
            final(self).expiring == old(self).expiring,
            final(self).stop == old(self).stop,
    {
        let ghost before = *self;
        let i: usize = self.chunks.len();
        let free = Bitset::full();
        proof {
            assert(free.free_set().contains(0));
        }
        self.chunks.push(QueryChunk { query_pool, command_buffers, free });
        let ghost middle = *self;
        proof {
            assert(middle.chunks@.drop_last() =~= before.chunks@);
            assert(middle.chunks@[i as int].free == free);
        }
        let h = self.take_from(i);
        proof {
            assert(free.free(0)) by {
                assert(free.free_set().contains(0));
            }
            assert(h.pair().1 == 0);
            assert(self.chunks@.drop_last() =~= before.chunks@);
            assert(self.chunks@.last().free.free_set() =~= Set::new(
                |p: int| 1 <= p < CHUNK_SIZE / 2,
            ));
        }
        h
    }

    /// The commands that record a handle's command buffers, to be issued in
    /// this order until one fails. The device needs the two functions that
    /// write a timestamp and reset a query from the host.
    pub fn record(&self, h: &Handle, has_write_timestamp: bool, has_reset_query: bool) -> (r: Result<
        Vec<RecordCommand>,
        i32,
    >)
        requires
            h.chunk_idx < self.chunks@.len(),
            h.query_index < CHUNK_SIZE,
        ensures
            match r {
                Ok(commands) => has_write_timestamp && has_reset_query && commands@ == record_both(
                    *h,
                    self.chunks@[h.chunk_idx as int].query_pool,
                ),
                Err(e) => !(has_write_timestamp && has_reset_query) && e
                    == vk::ERROR_EXTENSION_NOT_PRESENT,
            },
    {
        let query_pool: u64 = self.chunks[h.chunk_idx].query_pool;
        if !has_write_timestamp {
            return Err(vk::ERROR_EXTENSION_NOT_PRESENT);
        }
        if !has_reset_query {
            return Err(vk::ERROR_EXTENSION_NOT_PRESENT);
        }
        let mut out: Vec<RecordCommand> = Vec::new();
        push_recording(&mut out, h.start_cb, vk::STAGE_TOP_OF_PIPE, query_pool, h.query_index);
        push_recording(
            &mut out,
            h.end_cb,
            vk::STAGE_BOTTOM_OF_PIPE,
            query_pool,
            h.query_index + 1,
        );
        proof {
            assert(out@ =~= record_both(*h, query_pool));
        }
        Ok(out)
    }

    /// The query pool of a chunk.
    pub fn query_pool_for(&self, chunk_idx: usize) -> (r: Option<u64>)
        ensures
            r == (if chunk_idx < self.chunks@.len() {
                Some(self.chunks@[chunk_idx as int].query_pool)
            } else {
                None
            }),
    {
        if chunk_idx < self.chunks.len() {
            Some(self.chunks[chunk_idx].query_pool)
        } else {
            None
        }
    }

    /// Queues a handle whose last user is gone.
    pub fn expire(&mut self, h: &Handle)
        requires
            old(self).wf(),
            old(self).has_pair(h.chunk_idx as int, h.query_index as int),
        ensures
            final(self).wf(),
            final(self).chunks == old(self).chunks,
            final(self).stop == old(self).stop,
            seg_queue::entries(final(self).expiring) == seg_queue::entries(
                old(self).expiring,
            ).push((h.chunk_idx as u64, h.query_index as u64, h.was_submitted)),
    {
        queue_push(
            &mut self.expiring,
            (h.chunk_idx as u64, h.query_index as u64, h.was_submitted),
        );
    }

    /// What the background thread does next: it works off what has expired,
    /// oldest first, also after the pool has closed.
    pub fn reaper_step(&mut self) -> (r: ReaperStep)
        requires
            old(self).wf(),
        ensures
            final(self).wf(),
            final(self).chunks == old(self).chunks,
            final(self).stop == old(self).stop,
            match r {
                ReaperStep::Process(item) => {
                    &&& seg_queue::entries(old(self).expiring).len() > 0
                    &&& item.entry() == seg_queue::entries(old(self).expiring)[0]
                    &&& old(self).has_pair(item.chunk_idx as int, item.query_index as int)
                    &&& seg_queue::entries(final(self).expiring) == seg_queue::entries(
                        old(self).expiring,
                    ).drop_first()
                },
                ReaperStep::Park => seg_queue::entries(old(self).expiring).len() == 0
                    && !old(self).stop && seg_queue::entries(final(self).expiring).len() == 0,
                ReaperStep::Exit => seg_queue::entries(old(self).expiring).len() == 0
                    && old(self).stop && seg_queue::entries(final(self).expiring).len() == 0,
            },
    {
        let ghost before = seg_queue::entries(self.expiring);
        let count: usize = self.chunks.len();
        match queue_pop(&mut self.expiring) {
            Some(entry) => {
                proof {
                    assert(before[0] == entry);
                    assert(entry.0 < count);
                    assert forall|i: int| 0 <= i < before.drop_first().len() implies self.has_pair(
                        #[trigger] before.drop_first()[i].0 as int,
                        before.drop_first()[i].1 as int,
                    ) by {
                        assert(before.drop_first()[i] == before[i + 1]);
                    }
                }
                ReaperStep::Process(
                    ExpiringHandle {
                        chunk_idx: entry.0 as usize,
                        query_index: entry.1 as u32,
                        was_submitted: entry.2,
                    },
                )
            },
            None => {
                if self.stop {
                    ReaperStep::Exit
                } else {
                    ReaperStep::Park
                }
            },
        }
    }

    /// The query to wait for before the pair of an expired handle is free: the
    /// end stamp, if it was ever submitted.
    pub fn wait_before_release(&self, item: &ExpiringHandle) -> (r: Option<(u64, u32)>)
        requires
            self.has_pair(item.chunk_idx as int, item.query_index as int),
        ensures
            r == (if item.was_submitted {
                Some(
                    (
                        self.chunks@[item.chunk_idx as int].query_pool,
                        (item.query_index + 1) as u32,
                    ),
                )
            } else {
                None
            }),
    {
        if item.was_submitted {
            Some((self.chunks[item.chunk_idx].query_pool, item.query_index + 1))
        } else {
            None
        }
    }

    /// Gives the pair of an expired handle back, unless its chunk is gone.
    pub fn process_expiring(&mut self, item: &ExpiringHandle)
        requires
            old(self).wf(),
            item.query_index < CHUNK_SIZE,
        ensures
            final(self).wf(),
            final(self).gave(*old(self), item.chunk_idx as int, item.query_index as int),
    {
        let i: usize = item.chunk_idx;
        if i < self.chunks.len() {
            let ghost before = *self;
            proof {
                assert(before.chunks@[i as int].wf());
            }
            self.chunks[i].free.release_pair(item.query_index);
        }
    }

    /// Closes the pool: the background thread ends once it has nothing left.
    pub fn close(&mut self)
        requires
            old(self).wf(),
        ensures
            final(self).wf(),
            final(self).stop,
            final(self).chunks == old(self).chunks,
            final(self).expiring == old(self).expiring,
    {
        self.stop = true;
    }

    /// Hands out every chunk for destruction.
    pub fn take_chunks(&mut self) -> (r: Vec<QueryChunk>)
        requires
            seg_queue::entries(old(self).expiring).len() == 0,
        ensures
            r@ == old(self).chunks@,
            final(self).chunks@.len() == 0,
            final(self).wf(),
            final(self).stop == old(self).stop,
            final(self).expiring == old(self).expiring,
    {
        let mut out: Vec<QueryChunk> = Vec::new();
        core::mem::swap(&mut out, &mut self.chunks);
        out
    }
}

/// As long as a handle's pair has not been given back, no other handle gets
/// it: what is handed out next differs, and the pair stays taken.
pub proof fn law_handles_are_distinct(
    before: TimestampPool,
    after: TimestampPool,
    held: Handle,
    next: Handle,
)
    requires
        !before.is_free(held.pair()),
        after.took(before, next),
    ensures
        held.pair() != next.pair(),
        !after.is_free(held.pair()),
        !after.is_free(next.pair()),
{
    let c = next.pair().0;
    assert(before.is_free(next.pair()));
    assert(!after.chunks@[c].free.free_set().contains(next.pair().1));
    if after.is_free(held.pair()) {
        if held.pair().0 == c {
            assert(after.chunks@[c].free.free_set().contains(held.pair().1));
            assert(before.chunks@[c].free.free_set().contains(held.pair().1));
        } else {
            assert(after.chunks@[held.pair().0] == before.chunks@[held.pair().0]);
        }
        assert(false);
    }
}

/// Giving a pair back frees that pair and no other.
pub proof fn law_release_frees_one_pair(
    before: TimestampPool,
    after: TimestampPool,
    chunk_idx: int,
    query_index: int,
    pair: (int, int),
)
    requires
        before.has_pair(chunk_idx, query_index),
        after.gave(before, chunk_idx, query_index),
    ensures
        after.is_free(pair) == (before.is_free(pair) || pair == (chunk_idx, query_index / 2)),
{
    let c = chunk_idx;
    let was = before.chunks@[c].free;
    let now = after.chunks@[c].free;
    assert(now.free_set().contains(query_index / 2));
    if pair.0 == c {
        assert(now.free(pair.1) == now.free_set().contains(pair.1));
        assert(was.free(pair.1) == was.free_set().contains(pair.1));
    } else if 0 <= pair.0 < before.chunks@.len() {
        assert(after.chunks@[pair.0] == before.chunks@[pair.0]);
    }
}

/// Taking a pair and giving it back leaves the same pairs free.
pub proof fn law_take_and_release_cancel(
    before: TimestampPool,
    middle: TimestampPool,
    after: TimestampPool,
    h: Handle,
    pair: (int, int),
)
    requires
        before.wf(),
        middle.took(before, h),
        after.gave(middle, h.chunk_idx as int, h.query_index as int),
    ensures
        after.is_free(pair) == before.is_free(pair),
{
    let c = h.pair().0;
    let p = h.pair().1;
    assert(before.chunks@[c].wf());
    assert(before.chunks@[c].free.free(p));
    law_release_frees_one_pair(middle, after, c, h.query_index as int, pair);
    let was = before.chunks@[c].free;
    let now = middle.chunks@[c].free;
    if pair.0 == c {
        assert(now.free(pair.1) == now.free_set().contains(pair.1));
        assert(was.free(pair.1) == was.free_set().contains(pair.1));
    } else if 0 <= pair.0 < before.chunks@.len() {
        assert(middle.chunks@[pair.0] == before.chunks@[pair.0]);
    }
}

/// Whether a command works on a command buffer.
pub open spec fn touches(c: RecordCommand, buffer: u64) -> bool {
    match c {
        RecordCommand::ResetQuery { .. } => false,
        RecordCommand::ResetBuffer { cb } => cb == buffer,
        RecordCommand::Begin { cb } => cb == buffer,
        RecordCommand::WriteTimestamp { cb, .. } => cb == buffer,
        RecordCommand::End { cb } => cb == buffer,
    }
}

/// Whether a command buffer is recorded by the commands at four places, in
/// this order: reset, begun, stamped and ended. No other command works on it,
/// and the query that it stamps is reset before, at a fifth place.
pub open spec fn is_recorded_at(
    s: Seq<RecordCommand>,
    cb: u64,
    stage: u64,
    query_pool: u64,
    index: u32,
    query_reset: int,
    reset: int,
    begin: int,
    write: int,
    end: int,
) -> bool {
    &&& 0 <= reset < begin < write < end < s.len()
    &&& 0 <= query_reset < write
    &&& s[query_reset] == RecordCommand::ResetQuery { query_pool, index }
    &&& s[reset] == RecordCommand::ResetBuffer { cb }
    &&& s[begin] == RecordCommand::Begin { cb }
    &&& s[write] == RecordCommand::WriteTimestamp { cb, stage, query_pool, index }
    &&& s[end] == RecordCommand::End { cb }
    &&& forall|i: int|
        0 <= i < s.len() && touches(#[trigger] s[i], cb) ==> i == reset || i == begin || i == write
            || i == end
}

/// Whether a command buffer is recorded with one stamp, wherever its commands
/// stand.
pub open spec fn is_recorded(
    s: Seq<RecordCommand>,
    cb: u64,
    stage: u64,
    query_pool: u64,
    index: u32,
) -> bool {
    exists|query_reset: int, reset: int, begin: int, write: int, end: int|
        is_recorded_at(
            s,
            cb,
            stage,
            query_pool,
            index,
            query_reset,
            reset,
            begin,
            write,
            end,
        )
}

/// Both command buffers of a handle are recorded: each is reset before it is
/// begun and not again, and stamps between its begin and its end, into a query
/// that has been reset before. The first stamps the top of the pipe (0x1) into
/// the even query of the pair, the second the bottom (0x2000) into the odd one.
/// A device that lacks one of the two functions gets no command.
pub proof fn law_both_buffers_are_recorded(
    pool: &TimestampPool,
    h: &Handle,
    has_write_timestamp: bool,
    has_reset_query: bool,
    r: Result<Vec<RecordCommand>, i32>,
)
    requires
        h.chunk_idx < pool.chunks@.len(),
        h.query_index < CHUNK_SIZE,
        h.start_cb != h.end_cb,
        call_ensures(TimestampPool::record, (pool, h, has_write_timestamp, has_reset_query), r),
    ensures
        r is Ok <==> has_write_timestamp && has_reset_query,
        r matches Err(e) ==> e == -7,
        r matches Ok(commands) ==> {
            let query_pool = pool.chunks@[h.chunk_idx as int].query_pool;
            &&& is_recorded(commands@, h.start_cb, 0x1, query_pool, h.query_index)
            &&& is_recorded(commands@, h.end_cb, 0x2000, query_pool, (h.query_index + 1) as u32)
            &&& forall|i: int|
                0 <= i < commands@.len() ==> touches(#[trigger] commands@[i], h.start_cb)
                    || touches(commands@[i], h.end_cb) || commands@[i] == (
                RecordCommand::ResetQuery { query_pool, index: h.query_index }) || commands@[i] == (
                RecordCommand::ResetQuery { query_pool, index: (h.query_index + 1) as u32 })
        },
{
    if let Ok(commands) = r {
        let query_pool = pool.chunks@[h.chunk_idx as int].query_pool;
        let odd = (h.query_index + 1) as u32;
        let s = commands@;
        assert(is_recorded_at(s, h.start_cb, 0x1, query_pool, h.query_index, 0, 1, 2, 3, 4));
        assert(is_recorded_at(s, h.end_cb, 0x2000, query_pool, odd, 5, 6, 7, 8, 9));
    }
}

/// A pair is handed out together with the commands that record it, or not at
/// all: `record` of the handle gives the same commands.
pub proof fn law_acquired_pairs_are_recorded(
    pool: &mut TimestampPool,
    has_write_timestamp: bool,
    has_reset_query: bool,
    r: Acquired,
    again: Result<Vec<RecordCommand>, i32>,
)
    requires
        old(pool).wf(),
        call_ensures(TimestampPool::acquire, (pool, has_write_timestamp, has_reset_query), r),
        r matches Acquired::Record(h, _) ==> call_ensures(
            TimestampPool::record,
            (&*final(pool), &h, has_write_timestamp, has_reset_query),
            again,
        ),
    ensures
        r matches Acquired::Record(h, commands) ==> (again matches Ok(c) && c@ == commands@),
        r matches Acquired::Unsupported(e) ==> e == -7,
        r is Unsupported ==> !(has_write_timestamp && has_reset_query),
        r is NeedChunk <==> forall|pair: (int, int)| !old(pool).is_free(pair),
{
    if r is NeedChunk {
        assert forall|pair: (int, int)| !old(pool).is_free(pair) by {
            if old(pool).is_free(pair) {
                assert(old(pool).chunks@[pair.0].free.free_set().contains(pair.1));
            }
        }
    } else {
        let h = match r {
            Acquired::Record(h, _) => h,
            _ => choose|h: Handle| #[trigger]
                final(pool).took(*old(pool), h) && old(pool).is_first(h),
        };
        assert(old(pool).is_free(h.pair()));
    }
}

/// A handle has the two command buffers of its own two queries, is not
/// submitted yet, and is the only one with its pair: that was free and is not
/// any more, while every other pair is as it was. It comes from the first chunk
/// with a free pair, and is the lowest there.
pub proof fn law_handle_owns_its_pair(
    pool: &mut TimestampPool,
    r: Option<Handle>,
    pair: (int, int),
)
    requires
        old(pool).wf(),
        call_ensures(TimestampPool::find_or_alloc, (pool,), r),
    ensures
        r is None ==> !old(pool).is_free(pair) && *final(pool) == *old(pool),
        r matches Some(h) ==> {
            let chunk = old(pool).chunks@[h.chunk_idx as int];
            let own = (h.chunk_idx as int, h.query_index as int / 2);
            &&& h.chunk_idx < old(pool).chunks@.len()
            &&& h.query_index % 2 == 0
            &&& h.query_index + 1 < 512
            &&& h.start_cb == chunk.command_buffers@[h.query_index as int]
            &&& h.end_cb == chunk.command_buffers@[h.query_index + 1]
            &&& !h.was_submitted
            &&& old(pool).is_free(own)
            &&& final(pool).is_free(pair) == (old(pool).is_free(pair) && pair != own)
            &&& old(pool).is_free(pair) ==> own.0 < pair.0 || (own.0 == pair.0 && own.1 <= pair.1)
        },
{
    if let Some(h) = r {
        let own = (h.chunk_idx as int, h.query_index as int / 2);
        assert(own == h.pair());
        assert(old(pool).chunks@[own.0].wf());
        assert(old(pool).is_free(own));
        if 0 <= pair.0 < old(pool).chunks@.len() {
            let was = old(pool).chunks@[pair.0].free;
            let now = final(pool).chunks@[pair.0].free;
            assert(was.free(pair.1) == was.free_set().contains(pair.1));
            assert(now.free(pair.1) == now.free_set().contains(pair.1));
        }
    } else if old(pool).is_free(pair) {
        assert(old(pool).chunks@[pair.0].free.free_set().contains(pair.1));
    }
}

/// A pair comes back only behind its end stamp. A handle that was submitted
/// has the background thread wait for the very query that its second command
/// buffer stamps, and one that was not, for nothing.
pub proof fn law_reuse_waits_for_the_end_stamp(
    pool: &TimestampPool,
    h: &Handle,
    item: &ExpiringHandle,
    commands: Result<Vec<RecordCommand>, i32>,
    query: Option<(u64, u32)>,
    odd: u32,
)
    requires
        pool.has_pair(h.chunk_idx as int, h.query_index as int),
        h.start_cb != h.end_cb,
        item.chunk_idx == h.chunk_idx,
        item.query_index == h.query_index,
        call_ensures(TimestampPool::record, (pool, h, true, true), commands),
        call_ensures(TimestampPool::wait_before_release, (pool, item), query),
        call_ensures(Handle::end_query, (h,), odd),
    ensures
        query is Some <==> item.was_submitted,
        query matches Some(q) ==> q.1 == odd && (commands matches Ok(c) && is_recorded(
            c@,
            h.end_cb,
            0x2000,
            q.0,
            q.1,
        )),
{
    law_both_buffers_are_recorded(pool, h, true, true, commands);
}

/// What expires comes to the background thread whole and in order: a handle
/// goes behind all others, and the thread takes the foremost.
pub proof fn law_expired_handles_wait_in_line(
    a: &mut TimestampPool,
    h: &Handle,
    b: &mut TimestampPool,
    r: ReaperStep,
)
    requires
        old(a).wf(),
        old(a).has_pair(h.chunk_idx as int, h.query_index as int),
        call_ensures(TimestampPool::expire, (a, h), ()),
        *old(b) == *final(a),
        call_ensures(TimestampPool::reaper_step, (b,), r),
    ensures
        r is Process,
        final(b).chunks == old(a).chunks,
        final(b).stop == old(a).stop,
        ({
            let item = r->Process_0;
            let waiting = seg_queue::entries(old(a).expiring);
            &&& waiting.len() == 0 ==> item.chunk_idx == h.chunk_idx && item.query_index
                == h.query_index && item.was_submitted == h.was_submitted
            &&& waiting.len() > 0 ==> item.chunk_idx == waiting[0].0 && item.query_index
                == waiting[0].1 && item.was_submitted == waiting[0].2
            &&& seg_queue::entries(final(b).expiring).len() == waiting.len()
        }),
{
}

/// The background thread ends only with the pool, and only once nothing is
/// left.
pub proof fn law_thread_ends_with_the_pool(pool: &mut TimestampPool, r: ReaperStep)
    requires
        old(pool).wf(),
        call_ensures(TimestampPool::reaper_step, (pool,), r),
    ensures
        r is Process <==> seg_queue::entries(old(pool).expiring).len() > 0,
        r is Exit ==> old(pool).stop,
        r is Park ==> !old(pool).stop,
{
}

/// A pair that is given back is free again, and every other pair is as it was.
/// That of a chunk that is gone changes nothing.
pub proof fn law_expired_pair_is_free(
    pool: &mut TimestampPool,
    item: &ExpiringHandle,
    pair: (int, int),
)
    requires
        old(pool).wf(),
        item.query_index < CHUNK_SIZE,
        item.query_index % 2 == 0,
        call_ensures(TimestampPool::process_expiring, (pool, item), ()),
    ensures
        final(pool).is_free(pair) == (old(pool).is_free(pair)
            || (item.chunk_idx < old(pool).chunks@.len() && pair.0 == item.chunk_idx
                && 2 * pair.1 == item.query_index)),
        seg_queue::entries(final(pool).expiring) == seg_queue::entries(old(pool).expiring),
        final(pool).stop == old(pool).stop,
{
    if item.chunk_idx < old(pool).chunks@.len() {
        law_release_frees_one_pair(
            *old(pool),
            *final(pool),
            item.chunk_idx as int,
            item.query_index as int,
            pair,
        );
    } else if 0 <= pair.0 < old(pool).chunks@.len() {
        assert(final(pool).chunks@[pair.0] == old(pool).chunks@[pair.0]);
    }
}

/// The GPU has stamped a query where the read of it gave no error (0) and the
/// word behind the value is not 0. Then there is a time, the value read, and
/// otherwise there is none.
pub proof fn law_stamp_is_there_or_not(
    h: &Handle,
    reply: &QueryReply,
    has: bool,
    ticks: Option<u64>,
)
    requires
        call_ensures(Handle::has_end, (h, reply), has),
        call_ensures(Handle::await_end, (h, reply), ticks),
    ensures
        has <==> reply.result == 0 && reply.available != 0,
        has <==> ticks is Some,
        ticks matches Some(t) ==> t == reply.value,
{
}

/// A new chunk goes behind the others, which stay as they are. Its first pair
/// goes out with it, with the first two command buffers, and the other 255 are
/// free.
pub proof fn law_new_chunk_serves_at_once(
    pool: &mut TimestampPool,
    query_pool: u64,
    command_buffers: Vec<u64>,
    h: Handle,
    pair: (int, int),
)
    requires
        old(pool).wf(),
        command_buffers@.len() == 512,
        old(pool).chunks@.len() < usize::MAX,
        call_ensures(TimestampPool::add_chunk, (pool, query_pool, command_buffers), h),
    ensures
        ({
            let n = old(pool).chunks@.len() as int;
            &&& h.chunk_idx == n
            &&& h.query_index == 0
            &&& h.start_cb == command_buffers@[0]
            &&& h.end_cb == command_buffers@[1]
            &&& !h.was_submitted
            &&& final(pool).chunks@[n].query_pool == query_pool
            &&& final(pool).is_free(pair) == (old(pool).is_free(pair) || (pair.0 == n && 1 <= pair.1
                < 256))
        }),
{
    let n = old(pool).chunks@.len() as int;
    let last = final(pool).chunks@[n].free;
    assert(last.free(pair.1) == last.free_set().contains(pair.1));
    if 0 <= pair.0 < n {
        assert(final(pool).chunks@[pair.0] == final(pool).chunks@.drop_last()[pair.0]);
    }
}

/// The buffers that a submission is wrapped with are the two that were
/// recorded: the first stamps its start, the second its end.
pub proof fn law_wrapping_buffers_are_recorded(
    pool: &TimestampPool,
    h: &Handle,
    commands: Result<Vec<RecordCommand>, i32>,
    start: u64,
    end: u64,
    query_pool: Option<u64>,
)
    requires
        h.chunk_idx < pool.chunks@.len(),
        h.query_index < CHUNK_SIZE,
        h.start_cb != h.end_cb,
        call_ensures(TimestampPool::record, (pool, h, true, true), commands),
        call_ensures(Handle::start_buffer, (h,), start),
        call_ensures(Handle::end_buffer, (h,), end),
        call_ensures(TimestampPool::query_pool_for, (pool, h.chunk_idx), query_pool),
    ensures
        query_pool matches Some(q) && (commands matches Ok(c) && is_recorded(
            c@,
            start,
            0x1,
            q,
            h.query_index,
        ) && is_recorded(c@, end, 0x2000, q, (h.query_index + 1) as u32)),
{
    law_both_buffers_are_recorded(pool, h, true, true, commands);
}

/// A pool that is closed keeps its chunks and what has expired. Handing them
/// out gives every chunk, in order, and leaves none.
pub proof fn law_pool_gives_all_chunks_back(
    a: &mut TimestampPool,
    b: &mut TimestampPool,
    r: Vec<QueryChunk>,
    i: usize,
    query_pool: Option<u64>,
)
    requires
        old(a).wf(),
        seg_queue::entries(old(a).expiring).len() == 0,
        call_ensures(TimestampPool::close, (a,), ()),
        *old(b) == *final(a),
        call_ensures(TimestampPool::take_chunks, (b,), r),
        call_ensures(TimestampPool::query_pool_for, (&*final(b), i), query_pool),
    ensures
        final(a).stop,
        final(a).chunks@ == old(a).chunks@,
        seg_queue::entries(final(a).expiring) == seg_queue::entries(old(a).expiring),
        r@ == old(a).chunks@,
        final(b).chunks@.len() == 0,
        query_pool is None,
{
}

} // verus!
