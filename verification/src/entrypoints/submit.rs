//! Submissions with timestamps around them.
//!
//! Each batch of a submit call that the strategy tracks is sent on as
//! `[start, ...its own command buffers..., end]`. The other batches, and the
//! whole call where none is tracked, go on as they are.

use smallvec::SmallVec;
use vstd::prelude::*;
use crate::strategy::low_latency2::queue;
use crate::strategy::QueueStrategy;
use crate::submission_span;
use crate::submission_span::SubmissionSpan;
use crate::telemetry;
use crate::telemetry::Counters;
use crate::vk;

verus! {

/// Which batches of a call get timestamps. The inline room covers the usual
/// call of one to four batches.
#[verifier::external_body]
pub struct InjectMask {
    inner: SmallVec<[bool; 4]>,
}

/// What a mask says of each batch.
pub uninterp spec fn mask_bits(m: InjectMask) -> Seq<bool>;

/// Calls `SmallVec::new`: a new mask says nothing yet.
#[verifier::external_body]
fn mask_new() -> (r: InjectMask)
    ensures
        mask_bits(r).len() == 0,
{
    InjectMask { inner: SmallVec::new() }
}

/// Calls `SmallVec::push`: one more batch behind the others.
#[verifier::external_body]
fn mask_push(m: &mut InjectMask, inject: bool)
    ensures
        mask_bits(*final(m)) == mask_bits(*old(m)).push(inject),
{
    m.inner.push(inject);
}

/// Calls `SmallVec::len`: how many batches the mask speaks of.
#[verifier::external_body]
fn mask_len(m: &InjectMask) -> (r: usize)
    ensures
        r == mask_bits(*m).len(),
{
    m.inner.len()
}

/// Calls `SmallVec::index`: what the mask says of a batch.
#[verifier::external_body]
fn mask_at(m: &InjectMask, i: usize) -> (r: bool)
    requires
        i < mask_bits(*m).len(),
    ensures
        r == mask_bits(*m)[i as int],
{
    m.inner[i]
}

/// A mask with the decisions for the batches of a call.
pub fn mask_of(decisions: &[bool]) -> (r: InjectMask)
    ensures
        mask_bits(r) == decisions@,
{
    let mut mask = mask_new();
    let mut i: usize = 0;
    while i < decisions.len()
        invariant
            i <= decisions@.len(),
            mask_bits(mask) == decisions@.take(i as int),
        decreases decisions@.len() - i,
    {
        mask_push(&mut mask, decisions[i]);
        proof {
            assert(decisions@.take(i + 1) =~= decisions@.take(i as int).push(decisions@[i as int]));
        }
        i += 1;
    }
    proof {
        assert(decisions@.take(i as int) =~= decisions@);
    }
    mask
}

/// Buffers that have outgrown this are not kept: one submission of hundreds
/// of command buffers should not inflate a thread's reserve for good.
pub const MAX_CACHED_CAP: usize = 64;

/// How many buffers a thread keeps in reserve.
pub const MAX_CACHED_BUFFERS: usize = 4;

/// Buffers that a thread keeps for its next submissions.
pub struct SubmitArena<C> {
    pub cached: Vec<Vec<C>>,
}

impl<C> SubmitArena<C> {
    /// Few buffers, and all of them empty.
    pub open spec fn wf(self) -> bool {
        &&& self.cached@.len() <= MAX_CACHED_BUFFERS
        &&& forall|i: int| 0 <= i < self.cached@.len() ==> (#[trigger] self.cached@[i])@.len() == 0
    }

    pub fn new() -> (r: Self)
        ensures
            r.wf(),
            r.cached@.len() == 0,
    {
        SubmitArena { cached: Vec::new() }
    }

    /// A buffer to fill: one from the reserve, where there is one.
    pub fn take(&mut self) -> (r: Vec<C>)
        requires
            old(self).wf(),
        ensures
            final(self).wf(),
            r@.len() == 0,
            old(self).cached@.len() == 0 ==> final(self).cached@.len() == 0,
            old(self).cached@.len() > 0 ==> r == old(self).cached@.last() && final(self).cached@
                == old(self).cached@.drop_last(),
    {
        match self.cached.pop() {
            Some(v) => {
                proof {
                    assert(old(self).cached@.last()@.len() == 0);
                    assert(self.cached@ =~= old(self).cached@.drop_last());
                }
                v
            },
            None => Vec::new(),
        }
    }

    /// Gives a buffer of some capacity back, unless it has grown too large or
    /// the reserve is full.
    pub fn give(&mut self, v: Vec<C>, capacity: usize)
        requires
            old(self).wf(),
        ensures
            final(self).wf(),
            final(self).cached@.len() == (if capacity <= MAX_CACHED_CAP && old(self).cached@.len()
                < MAX_CACHED_BUFFERS {
                old(self).cached@.len() + 1
            } else {
                old(self).cached@.len()
            }),
            forall|i: int|
                0 <= i < old(self).cached@.len() ==> final(self).cached@[i] == #[trigger] old(
                    self).cached@[i],
    {
        if capacity > MAX_CACHED_CAP {
            return;
        }
        let mut v = v;
        v.clear();
        if self.cached.len() < MAX_CACHED_BUFFERS {
            self.cached.push(v);
        }
    }
}

/// A batch's own command buffers with the two stamps around them.
pub open spec fn wrapped<C>(start: C, user: Seq<C>, end: C) -> Seq<C> {
    seq![start] + user + seq![end]
}

/// How a submit call starts.
#[derive(Debug, Clone, Copy, PartialEq, Eq, Structural)]
pub enum SubmitRoute {
    /// The queue is not known, or the driver lacks the function.
    Fail(i32),
    /// Send the call on as it is. Only a call with batches is counted.
    Forward { counted: bool },
    /// Wrap the batches that the mask names.
    Wrap,
}

/// Whether any batch gets timestamps.
pub open spec fn any_injected(bits: Seq<bool>) -> bool {
    exists|i: int| 0 <= i < bits.len() && #[trigger] bits[i]
}

/// How a submit call starts: one without batches, or without a batch that
/// gets timestamps, goes on as it is.
pub fn submit_route(queue_known: bool, has_submit: bool, mask: &InjectMask) -> (r: SubmitRoute)
    ensures
        r == (if !queue_known || !has_submit {
            SubmitRoute::Fail(vk::ERROR_INITIALIZATION_FAILED)
        } else if mask_bits(*mask).len() == 0 {
            SubmitRoute::Forward { counted: false }
        } else if !any_injected(mask_bits(*mask)) {
            SubmitRoute::Forward { counted: true }
        } else {
            SubmitRoute::Wrap
        }),
{
    if !queue_known || !has_submit {
        return SubmitRoute::Fail(vk::ERROR_INITIALIZATION_FAILED);
    }
    let n: usize = mask_len(mask);
    if n == 0 {
        return SubmitRoute::Forward { counted: false };
    }
    let mut i: usize = 0;
    while i < n
        invariant
            queue_known && has_submit,
            i <= n,
            0 < n == mask_bits(*mask).len(),
            forall|j: int| 0 <= j < i ==> !#[trigger] mask_bits(*mask)[j],
        decreases n - i,
    {
        if mask_at(mask, i) {
            return SubmitRoute::Wrap;
        }
        i += 1;
    }
    SubmitRoute::Forward { counted: true }
}

/// A submit call while its batches are wrapped, one after the other.
pub struct SubmitBuilder<C, H> {
    pub mask: InjectMask,
    /// For each batch so far its handle, if it gets timestamps.
    pub handles: Vec<Option<H>>,
    /// For each batch so far its new command buffers, if it gets timestamps.
    pub buffers: Vec<Option<Vec<C>>>,
}

impl<C: Copy, H> SubmitBuilder<C, H> {
    /// What has been built agrees with the mask.
    pub open spec fn wf(self) -> bool {
        &&& self.handles@.len() == self.buffers@.len()
        &&& self.handles@.len() <= mask_bits(self.mask).len()
        &&& forall|i: int|
            0 <= i < self.handles@.len() ==> (#[trigger] self.handles@[i]) is Some == mask_bits(
                self.mask,
            )[i]
        &&& forall|i: int|
            0 <= i < self.buffers@.len() ==> (#[trigger] self.buffers@[i]) is Some == mask_bits(
                self.mask,
            )[i]
    }

    /// Whether every batch has been built.
    pub open spec fn complete(self) -> bool {
        self.handles@.len() == mask_bits(self.mask).len()
    }

    /// Whether the next batch waits for a handle.
    pub open spec fn waits(self) -> bool {
        !self.complete() && mask_bits(self.mask)[self.handles@.len() as int]
    }

    pub fn new(mask: InjectMask) -> (r: Self)
        ensures
            r.wf(),
            r.mask == mask,
            r.handles@.len() == 0,
            r.buffers@.len() == 0,
    {
        SubmitBuilder { mask, handles: Vec::new(), buffers: Vec::new() }
    }

    /// Passes over the batches that go on as they are. Gives the batch that
    /// needs a handle next, or `None` where all is built.
    pub fn advance(&mut self) -> (r: Option<usize>)
        requires
            old(self).wf(),
        ensures
            final(self).wf(),
            final(self).mask == old(self).mask,
            final(self).handles@.len() >= old(self).handles@.len(),
            final(self).handles@.take(old(self).handles@.len() as int) == old(self).handles@,
            final(self).buffers@.take(old(self).handles@.len() as int) == old(self).buffers@,
            forall|i: int|
                old(self).handles@.len() <= i < final(self).handles@.len() ==> !mask_bits(
                    old(self).mask,
                )[i],
            match r {
                Some(i) => final(self).waits() && i == final(self).handles@.len(),
                None => final(self).complete(),
            },
    {
        let n: usize = mask_len(&self.mask);
        let ghost before = self.handles@;
        let ghost before_buffers = self.buffers@;
        proof {
            assert(self.handles@.take(before.len() as int) =~= before);
            assert(self.buffers@.take(before.len() as int) =~= before_buffers);
        }
        while self.handles.len() < n && !mask_at(&self.mask, self.handles.len())
            invariant
                self.wf(),
                self.mask == old(self).mask,
                n == mask_bits(self.mask).len(),
                before.len() <= self.handles@.len(),
                before.len() == before_buffers.len(),
                self.handles@.take(before.len() as int) == before,
                self.buffers@.take(before.len() as int) == before_buffers,
                forall|i: int| before.len() <= i < self.handles@.len() ==> !mask_bits(self.mask)[i],
            decreases n - self.handles@.len(),
        {
            let ghost h = self.handles@;
            let ghost b = self.buffers@;
            self.handles.push(None);
            self.buffers.push(None);
            proof {
                assert(self.handles@.take(before.len() as int) =~= h.take(before.len() as int));
                assert(self.buffers@.take(before.len() as int) =~= b.take(before.len() as int));
            }
        }
        if self.handles.len() < n {
            Some(self.handles.len())
        } else {
            None
        }
    }

    /// Wraps the batch that waits with the stamps of its handle, in a buffer
    /// that is empty.
    pub fn supply(&mut self, handle: H, start: C, end: C, user: &[C], buffer: Vec<C>)
        requires
            old(self).wf(),
            old(self).waits(),
            buffer@.len() == 0,
        ensures
            final(self).wf(),
            final(self).mask == old(self).mask,
            final(self).handles@ == old(self).handles@.push(Some(handle)),
            final(self).buffers@.len() == old(self).buffers@.len() + 1,
            final(self).buffers@.drop_last() == old(self).buffers@,
            final(self).buffers@.last() matches Some(b) && b@ == wrapped(start, user@, end),
    {
        let mut out = buffer;
        out.push(start);
        let mut i: usize = 0;
        proof {
            assert(out@ =~= seq![start] + user@.take(0));
        }
        while i < user.len()
            invariant
                i <= user@.len(),
                out@ == seq![start] + user@.take(i as int),
            decreases user@.len() - i,
        {
            out.push(user[i]);
            proof {
                assert(out@ =~= seq![start] + user@.take(i + 1));
            }
            i += 1;
        }
        out.push(end);
        proof {
            assert(user@.take(i as int) =~= user@);
            assert(out@ =~= wrapped(start, user@, end));
        }
        self.handles.push(Some(handle));
        self.buffers.push(Some(out));
        proof {
            assert(self.buffers@.drop_last() =~= old(self).buffers@);
        }
    }
}

impl<C, H> SubmitBuilder<C, H> {
    /// Gives a call up that ran out of handles: it goes on as it is, and those
    /// it has got go back.
    pub fn abandon(self) -> (r: Vec<Option<H>>)
        ensures
            r@ == self.handles@,
    {
        self.handles
    }
}

/// The batches with a handle, with their handles, in order.
pub open spec fn injected_of<H>(handles: Seq<Option<H>>) -> Seq<(usize, H)>
    decreases handles.len(),
{
    if handles.len() == 0 {
        Seq::empty()
    } else {
        let rest = injected_of(handles.drop_last());
        match handles.last() {
            Some(h) => rest.push(((handles.len() - 1) as usize, h)),
            None => rest,
        }
    }
}

/// The batches with a handle, the last one first.
fn injected_from_the_end<H>(handles: Vec<Option<H>>) -> (r: Vec<(usize, H)>)
    ensures
        r@.reverse() == injected_of(handles@),
        r@.len() <= handles@.len(),
{
    let ghost all = handles@;
    let mut rest = handles;
    let mut reversed: Vec<(usize, H)> = Vec::new();
    let n: usize = rest.len();
    proof {
        lemma_injected_len(all);
        assert(injected_of(all) =~= injected_of(rest@) + reversed@.reverse());
    }
    while rest.len() > 0
        invariant
            n == all.len(),
            rest@.len() <= n,
            rest@ == all.take(rest@.len() as int),
            injected_of(all) == injected_of(rest@) + reversed@.reverse(),
        decreases rest@.len(),
    {
        let ghost before = rest@;
        let i: usize = rest.len() - 1;
        let ghost done = reversed@;
        if let Some(slot) = rest.pop() {
            proof {
                assert(rest@ =~= before.drop_last());
                assert(rest@ =~= all.take(i as int));
                assert(slot == before.last());
            }
            if let Some(h) = slot {
                reversed.push((i, h));
                proof {
                    assert(reversed@.reverse() =~= seq![(i, h)] + done.reverse());
                    assert(injected_of(before) =~= injected_of(rest@).push((i, h)));
                    assert(injected_of(before) + done.reverse() =~= injected_of(rest@)
                        + reversed@.reverse());
                }
            }
        }
    }
    proof {
        assert(injected_of(rest@) =~= Seq::empty());
        assert(injected_of(all) =~= reversed@.reverse());
        assert(reversed@.reverse().len() == reversed@.len());
    }
    reversed
}

proof fn lemma_injected_len<H>(handles: Seq<Option<H>>)
    ensures
        injected_of(handles).len() <= handles.len(),
    decreases handles.len(),
{
    if handles.len() > 0 {
        lemma_injected_len(handles.drop_last());
    }
}

/// What a queue tracks after some batches, each under its present id.
pub open spec fn model_after<H>(
    m: queue::QueueModel<H>,
    batches: Seq<(usize, H)>,
    present_ids: Seq<u64>,
) -> queue::QueueModel<H>
    decreases batches.len(),
{
    if batches.len() == 0 {
        m
    } else {
        let last = batches.last();
        model_after(m, batches.drop_last(), present_ids).submitted(
            present_ids[last.0 as int],
            last.1,
        )
    }
}

/// The one span of a queue after some batches.
pub open spec fn span_after<H>(
    span: Option<SubmissionSpan<H>>,
    batches: Seq<(usize, H)>,
) -> Option<SubmissionSpan<H>>
    decreases batches.len(),
{
    if batches.len() == 0 {
        span
    } else {
        Some(
            submission_span::extended(span_after(span, batches.drop_last()), batches.last().1),
        )
    }
}

/// What a strategy is after some batches.
pub open spec fn tracked_after<H>(
    before: QueueStrategy<H>,
    after: QueueStrategy<H>,
    batches: Seq<(usize, H)>,
    present_ids: Seq<u64>,
) -> bool {
    match (before, after) {
        (QueueStrategy::AntiLag(a), QueueStrategy::AntiLag(b)) => b.span == span_after(
            a.span,
            batches,
        ),
        (QueueStrategy::LowLatency2(a), QueueStrategy::LowLatency2(b)) => b.model() == model_after(
            a.model(),
            batches,
            present_ids,
        ) && b.is_out_of_band == a.is_out_of_band,
        _ => false,
    }
}

/// Finishes a submit call that was wrapped. Where the driver took it, each
/// batch with timestamps goes to the strategy under its present id, and the
/// call is counted. A call that failed leaves everything as it was.
pub fn complete_submit<H>(
    strategy: &mut QueueStrategy<H>,
    counters: &mut Counters,
    result: i32,
    present_ids: &[u64],
    handles: Vec<Option<H>>,
)
    requires
        old(strategy).wf(),
        handles@.len() == present_ids@.len(),
        handles@.len() <= u32::MAX,
    ensures
        final(strategy).wf(),
        result != vk::SUCCESS ==> *final(strategy) == *old(strategy)
            && *final(counters) == *old(counters),
        result == vk::SUCCESS ==> {
            let batches = injected_of(handles@);
            &&& tracked_after(*old(strategy), *final(strategy), batches, present_ids@)
            &&& final(counters).submits == telemetry::wrapped_sum(
                old(counters).submits,
                handles@.len() as int,
            )
            &&& final(counters).injections == telemetry::wrapped_sum(
                old(counters).injections,
                batches.len() as int,
            )
            &&& final(counters).frames == old(counters).frames
            &&& final(counters).presents == old(counters).presents
            &&& final(counters).acquires == old(counters).acquires
        },
{
    if result != vk::SUCCESS {
        return;
    }
    let count: u32 = handles.len() as u32;
    let ghost batches = injected_of(handles@);
    proof {
        lemma_injected_places(handles@);
    }
    let mut rest = injected_from_the_end(handles);
    let injected: u32 = rest.len() as u32;
    let ghost before = *strategy;
    proof {
        assert(rest@.len() == batches.len());
        assert(batches.take(0) =~= Seq::empty());
        assert(batches.skip(0) =~= batches);
    }
    while rest.len() > 0
        invariant
            strategy.wf(),
            rest@.len() <= batches.len(),
            rest@.reverse() == batches.skip(batches.len() - rest@.len()),
            forall|j: int|
                0 <= j < batches.len() ==> (#[trigger] batches[j]).0 < present_ids@.len(),
            tracked_after(
                before,
                *strategy,
                batches.take(batches.len() - rest@.len()),
                present_ids@,
            ),
        decreases rest@.len(),
    {
        let ghost i = batches.len() - rest@.len();
        let ghost was = rest@;
        if let Some((place, handle)) = rest.pop() {
            proof {
                assert(was.reverse()[0] == (place, handle));
                assert(batches.skip(i)[0] == batches[i]);
                assert(batches.take(i + 1).last() == batches[i]);
                assert(batches.take(i + 1).drop_last() =~= batches.take(i));
                assert(rest@ =~= was.drop_last());
                assert(rest@.reverse() =~= was.reverse().skip(1));
                assert(batches.skip(i).skip(1) =~= batches.skip(i + 1));
            }
            strategy.notify_submit(present_ids[place], handle);
        }
    }
    proof {
        assert(batches.take(batches.len() as int) =~= batches);
    }
    counters.record_submit_call(count, injected);
}

proof fn lemma_injected_places<H>(handles: Seq<Option<H>>)
    requires
        handles.len() <= u32::MAX,
    ensures
        forall|j: int|
            0 <= j < injected_of(handles).len() ==> (#[trigger] injected_of(handles)[j]).0
                < handles.len(),
    decreases handles.len(),
{
    if handles.len() > 0 {
        lemma_injected_places(handles.drop_last());
        let rest = injected_of(handles.drop_last());
        assert forall|j: int| 0 <= j < injected_of(handles).len() implies (
        #[trigger] injected_of(handles)[j]).0 < handles.len() by {
            if j < rest.len() {
                assert(injected_of(handles)[j] == rest[j]);
            }
        }
    }
}

/// The application's own command buffers of a batch are sent on unchanged and
/// in order, between exactly two others.
pub proof fn law_user_commands_are_kept<C>(start: C, user: Seq<C>, end: C)
    ensures
        wrapped(start, user, end).len() == user.len() + 2,
        wrapped(start, user, end)[0] == start,
        wrapped(start, user, end).last() == end,
        wrapped(start, user, end).subrange(1, user.len() as int + 1) == user,
{
    assert(wrapped(start, user, end).subrange(1, user.len() as int + 1) =~= user);
}

/// A call goes on as it is unless one of its batches gets timestamps, and it
/// fails (-3) where the queue or the driver's function is missing. A call
/// without batches is not counted.
pub proof fn law_only_stamped_calls_are_wrapped(
    queue_known: bool,
    has_submit: bool,
    decisions: &[bool],
    mask: InjectMask,
    r: SubmitRoute,
)
    requires
        call_ensures(mask_of, (decisions,), mask),
        call_ensures(submit_route, (queue_known, has_submit, &mask), r),
    ensures
        r is Fail <==> !queue_known || !has_submit,
        r matches SubmitRoute::Fail(e) ==> e == -3,
        queue_known && has_submit ==> (r is Wrap <==> exists|i: int|
            0 <= i < decisions@.len() && #[trigger] decisions@[i]),
        r matches SubmitRoute::Forward { counted } ==> (counted <==> decisions@.len() > 0),
{
}

/// A batch that gets timestamps is sent on between its two stamps: the start,
/// then the batch's own command buffers in order, then the end. Its handle is
/// kept with it, and what was built before stays.
pub proof fn law_batch_goes_between_its_stamps<C: Copy, H>(
    b: &mut SubmitBuilder<C, H>,
    handle: H,
    start: C,
    end: C,
    user: &[C],
    buffer: Vec<C>,
    i: int,
)
    requires
        old(b).wf(),
        old(b).waits(),
        buffer@.len() == 0,
        call_ensures(SubmitBuilder::<C, H>::supply, (b, handle, start, end, user, buffer), ()),
        0 <= i < user@.len(),
    ensures
        final(b).mask == old(b).mask,
        final(b).handles@.last() == Some(handle),
        final(b).handles@.drop_last() == old(b).handles@,
        final(b).buffers@.drop_last() == old(b).buffers@,
        final(b).buffers@.last() matches Some(v) && v@.len() == user@.len() + 2 && v@[0] == start
            && v@[i + 1] == user@[i] && v@[v@.len() - 1] == end,
{
    assert(final(b).handles@.drop_last() =~= old(b).handles@);
}

/// The next batch that waits for a handle is the next that gets timestamps:
/// none between is passed over, and those between are sent on as they are. All
/// is built once no such batch is left.
pub proof fn law_no_stamped_batch_is_passed_over<C: Copy, H>(
    b: &mut SubmitBuilder<C, H>,
    r: Option<usize>,
    j: int,
)
    requires
        old(b).wf(),
        call_ensures(SubmitBuilder::<C, H>::advance, (b,), r),
        old(b).handles@.len() <= j < mask_bits(old(b).mask).len(),
    ensures
        final(b).mask == old(b).mask,
        r matches Some(i) ==> old(b).handles@.len() <= i < mask_bits(old(b).mask).len()
            && mask_bits(old(b).mask)[i as int] && (j < i ==> !mask_bits(old(b).mask)[j]),
        r is None ==> !mask_bits(old(b).mask)[j],
        r matches Some(i) ==> j < i ==> final(b).handles@[j] is None
            && final(b).buffers@[j] is None,
{
}

/// A call that is given up gives back every handle that it has got.
pub proof fn law_given_up_handles_come_back<C, H>(b: SubmitBuilder<C, H>, r: Vec<Option<H>>)
    requires
        call_ensures(SubmitBuilder::<C, H>::abandon, (b,), r),
    ensures
        r@ == b.handles@,
{
}

/// A reserve hands its buffers out again, empty, and keeps at most four, none
/// of which has outgrown 64.
pub proof fn law_reserve_is_reused<C>(
    a: &mut SubmitArena<C>,
    v: Vec<C>,
    capacity: usize,
    b: &mut SubmitArena<C>,
    r: Vec<C>,
)
    requires
        old(a).wf(),
        call_ensures(SubmitArena::<C>::give, (a, v, capacity), ()),
        *old(b) == *final(a),
        call_ensures(SubmitArena::<C>::take, (b,), r),
    ensures
        r@.len() == 0,
        final(a).cached@.len() <= 4,
        capacity > 64 ==> final(a).cached@.len() == old(a).cached@.len(),
        capacity <= 64 && old(a).cached@.len() < 4
            ==> final(a).cached@.len() == old(a).cached@.len() + 1,
        final(a).cached@.len() > 0 ==> final(b).cached@.len() == final(a).cached@.len() - 1,
{
}

proof fn lemma_injected<H>(handles: Seq<Option<H>>)
    requires
        handles.len() <= u32::MAX,
    ensures
        forall|j: int|
            0 <= j < injected_of(handles).len() ==> {
                let b = #[trigger] injected_of(handles)[j];
                b.0 < handles.len() && handles[b.0 as int] == Some(b.1)
            },
        forall|i: int, j: int|
            0 <= i < j < injected_of(handles).len() ==> (#[trigger] injected_of(handles)[i]).0 < (
            #[trigger] injected_of(handles)[j]).0,
        forall|i: int|
            0 <= i < handles.len() && (#[trigger] handles[i]) is Some ==> injected_of(
                handles,
            ).contains((i as usize, handles[i]->0)),
    decreases handles.len(),
{
    if handles.len() > 0 {
        let rest = handles.drop_last();
        let before = injected_of(rest);
        let all = injected_of(handles);
        let n = handles.len() - 1;
        lemma_injected(rest);
        assert forall|j: int| 0 <= j < all.len() implies {
            let b = #[trigger] all[j];
            b.0 < handles.len() && handles[b.0 as int] == Some(b.1)
        } by {
            if j < before.len() {
                assert(all[j] == before[j]);
                assert(rest[before[j].0 as int] == handles[before[j].0 as int]);
            }
        }
        assert forall|i: int, j: int| 0 <= i < j < all.len() implies (#[trigger] all[i]).0 < (
        #[trigger] all[j]).0 by {
            assert(all[i] == before[i]);
            if j < before.len() {
                assert(all[j] == before[j]);
            }
        }
        assert forall|i: int|
            0 <= i < handles.len() && (#[trigger] handles[i]) is Some implies all.contains(
            (i as usize, handles[i]->0),
        ) by {
            if i < n {
                assert(rest[i] == handles[i]);
                let k = choose|k: int|
                    0 <= k < before.len() && before[k] == (i as usize, handles[i]->0);
                assert(all[k] == (i as usize, handles[i]->0));
            } else {
                assert(all[all.len() - 1] == (i as usize, handles[i]->0));
            }
        }
    }
}

/// The batches that are tracked are exactly those with a handle, each with its
/// own, and in order.
pub proof fn law_tracked_batches_are_those_with_a_handle<H>(
    handles: Seq<Option<H>>,
    place: usize,
    handle: H,
)
    requires
        handles.len() <= u32::MAX,
    ensures
        injected_of(handles).contains((place, handle)) <==> place < handles.len()
            && handles[place as int] == Some(handle),
        forall|i: int, j: int|
            0 <= i < j < injected_of(handles).len() ==> (#[trigger] injected_of(handles)[i]).0 < (
            #[trigger] injected_of(handles)[j]).0,
{
    lemma_injected(handles);
    if injected_of(handles).contains((place, handle)) {
        let j = choose|j: int|
            0 <= j < injected_of(handles).len() && injected_of(handles)[j] == (place, handle);
        assert(injected_of(handles)[j] == (place, handle));
    }
}

proof fn lemma_span_after<H>(span: Option<SubmissionSpan<H>>, batches: Seq<(usize, H)>)
    requires
        batches.len() > 0,
    ensures
        span_after(span, batches) matches Some(s) && s.last() == batches.last().1 && s.head == (
        match span {
            Some(was) => was.head,
            None => batches[0].1,
        }),
    decreases batches.len(),
{
    if batches.len() > 1 {
        lemma_span_after(span, batches.drop_last());
    } else {
        assert(batches.drop_last().len() == 0);
        assert(span_after(span, batches.drop_last()) == span);
    }
}

/// Whether a batch is the last of those with a handle under its present id.
pub open spec fn is_last_of<H>(handles: Seq<Option<H>>, present_ids: Seq<u64>, place: int) -> bool {
    &&& 0 <= place < handles.len()
    &&& handles[place] is Some
    &&& forall|j: int|
        place < j < handles.len() && (#[trigger] handles[j]) is Some ==> present_ids[j]
            != present_ids[place]
}

proof fn lemma_model_after<H>(
    m: queue::QueueModel<H>,
    batches: Seq<(usize, H)>,
    present_ids: Seq<u64>,
    id: u64,
)
    requires
        m.recent.len() + batches.len() <= 50,
    ensures
        ({
            let r = model_after(m, batches, present_ids);
            &&& r.recent.len() <= m.recent.len() + batches.len()
            &&& forall|k: int|
                0 <= k < batches.len() && present_ids[(#[trigger] batches[k]).0 as int] == id && (
                forall|j: int|
                    k < j < batches.len() ==> present_ids[(#[trigger] batches[j]).0 as int] != id)
                    ==> r.submissions.contains_key(id) && r.submissions[id].last()
                    == batches[k].1
            &&& (forall|k: int|
                0 <= k < batches.len() ==> present_ids[(#[trigger] batches[k]).0 as int] != id)
                ==> r.submissions.contains_key(id) == m.submissions.contains_key(id) && (
            m.submissions.contains_key(id) ==> r.submissions[id] == m.submissions[id])
        }),
    decreases batches.len(),
{
    if batches.len() > 0 {
        let rest = batches.drop_last();
        let n = batches.len() - 1;
        lemma_model_after(m, rest, present_ids, id);
        let before = model_after(m, rest, present_ids);
        let r = model_after(m, batches, present_ids);
        assert(batches.last() == batches[n]);
        assert forall|k: int|
            0 <= k < batches.len() && present_ids[(#[trigger] batches[k]).0 as int] == id
                && (forall|
                j: int,
            |
                k < j < batches.len() ==> present_ids[(#[trigger] batches[j]).0 as int]
                    != id) implies r.submissions.contains_key(id) && r.submissions[id].last()
            == batches[k].1 by {
            if k < n {
                assert(rest[k] == batches[k]);
                assert(present_ids[batches[n].0 as int] != id);
                assert forall|j: int| k < j < rest.len() implies present_ids[(
                #[trigger] rest[j]).0 as int] != id by {
                    assert(rest[j] == batches[j]);
                }
            }
        }
        if forall|k: int|
            0 <= k < batches.len() ==> present_ids[(#[trigger] batches[k]).0 as int] != id {
            assert(present_ids[batches[n].0 as int] != id);
            assert forall|k: int| 0 <= k < rest.len() implies present_ids[(
            #[trigger] rest[k]).0 as int] != id by {
                assert(rest[k] == batches[k]);
            }
        }
    }
}

/// A call that the driver took (0) is tracked: every batch with a handle goes
/// to the strategy. The one strategy's span ends with the last of them, and
/// goes on from its start, or begins with the first. The other's keeps, for
/// each present id, the last handle under it. The call counts as its batches,
/// and those with a handle as wrapped.
pub proof fn law_taken_calls_are_tracked<H>(
    strategy: &mut QueueStrategy<H>,
    counters: &mut Counters,
    result: i32,
    present_ids: &[u64],
    handles: Vec<Option<H>>,
    place: int,
)
    requires
        old(strategy).wf(),
        handles@.len() == present_ids@.len(),
        handles@.len() <= u32::MAX,
        call_ensures(
            complete_submit::<H>,
            (strategy, counters, result, present_ids, handles),
            (),
        ),
        is_last_of(handles@, present_ids@, place),
        *old(strategy) is LowLatency2 ==> old(strategy)->LowLatency2_0.stale_present_ids@.len()
            + handles@.len() <= 50,
        old(counters).submits + handles@.len() <= u64::MAX,
        old(counters).injections + handles@.len() <= u64::MAX,
    ensures
        result != 0 ==> *final(strategy) == *old(strategy) && *final(counters) == *old(counters),
        result == 0 ==> {
            &&& *final(strategy) is AntiLag <==> *old(strategy) is AntiLag
            &&& *old(strategy) is AntiLag && (forall|j: int|
                place < j < handles@.len() ==> (#[trigger] handles@[j]) is None) ==> (final(
                strategy)->AntiLag_0.span matches Some(s) && s.last() == handles@[place]->0 && (old(
                strategy)->AntiLag_0.span matches Some(was) ==> s.head == was.head))
            &&& *old(strategy) is LowLatency2 ==> {
                let m = final(strategy)->LowLatency2_0.submissions@;
                &&& m.contains_key(present_ids@[place])
                &&& m[present_ids@[place]].last() == handles@[place]->0
            }
            &&& final(counters).submits == old(counters).submits + handles@.len()
            &&& final(counters).injections == old(counters).injections + handles@.filter(
                |h: Option<H>| h is Some,
            ).len()
            &&& final(counters).frames == old(counters).frames
            &&& final(counters).presents == old(counters).presents
            &&& final(counters).acquires == old(counters).acquires
        },
{
    let all = handles@;
    let batches = injected_of(all);
    let ids = present_ids@;
    lemma_injected(all);
    lemma_injected_len(all);
    law_wrapped_batches_are_counted(all);
    assert(batches.contains((place as usize, all[place]->0)));
    let k = choose|k: int| 0 <= k < batches.len() && batches[k] == (place as usize, all[place]->0);
    if result == 0 {
        if *old(strategy) is AntiLag {
            lemma_span_after(old(strategy)->AntiLag_0.span, batches);
            if forall|j: int| place < j < all.len() ==> (#[trigger] all[j]) is None {
                assert(k == batches.len() - 1) by {
                    if k < batches.len() - 1 {
                        let b = batches[k + 1];
                        assert(batches[k].0 < b.0);
                        assert(all[b.0 as int] is Some);
                    }
                }
            }
        } else {
            let m = old(strategy)->LowLatency2_0.model();
            let id = ids[place];
            lemma_model_after(m, batches, ids, id);
            assert forall|j: int| k < j < batches.len() implies ids[(#[trigger] batches[j]).0 as int]
                != id by {
                assert(batches[k].0 < batches[j].0);
                assert(all[batches[j].0 as int] is Some);
            }
            assert(final(strategy)->LowLatency2_0.model().submissions.contains_key(id));
        }
    }
}

/// As many batches count as wrapped as have a handle.
pub proof fn law_wrapped_batches_are_counted<H>(handles: Seq<Option<H>>)
    ensures
        injected_of(handles).len() == handles.filter(|h: Option<H>| h is Some).len(),
    decreases handles.len(),
{
    reveal(Seq::filter);
    if handles.len() > 0 {
        law_wrapped_batches_are_counted(handles.drop_last());
    }
}

} // verus!
