//! Pairs sleep semaphores with the GPU work that must complete before they
//! are signalled.
//!
//! A worker takes the pending signals one by one, oldest first. It waits for
//! the work attached to a signal within a budget, delays as configured, and
//! signals. A monitor that is closed still has every pending signal made, but
//! without any wait: a lost semaphore would hang the application.

use std::collections::VecDeque;
use vstd::prelude::*;
use crate::strategy::low_latency2::markers;
use crate::strategy::low_latency2::markers::MarkerHistory;
use crate::strategy::low_latency2::semaphore_signal::SemaphoreSignal;
use crate::submission_span;
use crate::submission_span::{await_completed_until, SubmissionSpan, WaitPoll};

verus! {

/// Submission spans with the present that they belong to.
#[derive(Debug)]
pub struct TaggedSpans<H> {
    pub present_id: u64,
    pub spans: Vec<SubmissionSpan<H>>,
}

/// A signal with the work that comes before it.
#[derive(Debug)]
pub struct PendingSignal<H> {
    pub signal: SemaphoreSignal,
    pub groups: Vec<TaggedSpans<H>>,
}

/// What becomes of a semaphore that the application sleeps on.
#[derive(Debug, Clone, Copy, PartialEq, Eq, Structural)]
pub enum Notified {
    /// Nothing to wait for: signal it now.
    SignalNow(SemaphoreSignal),
    /// The worker signals it.
    Queued,
}

/// What the worker does next.
#[derive(Debug)]
pub enum MonitorStep<H> {
    /// Sleep until a signal comes or the monitor closes.
    Park,
    /// Wait for the work, delay by at least the given time, then signal.
    Serve { pending: PendingSignal<H>, delay_ns: u64 },
    /// The monitor is closing: signal at once.
    Drain(SemaphoreSignal),
    Exit,
}

pub struct SwapchainMonitor<H> {
    pub pending_signals: VecDeque<PendingSignal<H>>,
    pub pending_groups: Vec<TaggedSpans<H>>,
    pub present_delay_ns: u64,
    pub requested: bool,
    pub stop: bool,
}

/// The product of two numbers, or the largest number where it does not fit.
pub open spec fn saturated_mul(a: int, b: int) -> u64 {
    if a * b > u64::MAX {
        u64::MAX
    } else {
        (a * b) as u64
    }
}

pub open spec fn larger(a: u64, b: u64) -> u64 {
    if a >= b {
        a
    } else {
        b
    }
}

impl<H> SwapchainMonitor<H> {
    /// The semaphores that still have to be signalled, oldest first.
    pub open spec fn signals(self) -> Seq<SemaphoreSignal> {
        self.pending_signals@.map_values(|p: PendingSignal<H>| p.signal)
    }

    pub fn new() -> (r: Self)
        ensures
            r.signals().len() == 0,
            r.pending_signals@.len() == 0,
            r.pending_groups@.len() == 0,
            r.present_delay_ns == 0,
            !r.requested,
            !r.stop,
    {
        SwapchainMonitor {
            pending_signals: VecDeque::new(),
            pending_groups: Vec::new(),
            present_delay_ns: 0,
            requested: false,
            stop: false,
        }
    }

    pub fn update_params(&mut self, requested: bool, minimum_interval_us: u64)
        ensures
            final(self).requested == requested,
            final(self).present_delay_ns == saturated_mul(minimum_interval_us as int, 1_000),
            final(self).pending_signals == old(self).pending_signals,
            final(self).pending_groups == old(self).pending_groups,
            final(self).stop == old(self).stop,
    {
        self.requested = requested;
        self.present_delay_ns =
        if minimum_interval_us > 0xFFFF_FFFF_FFFF_FFFF / 1_000 {
            0xFFFF_FFFF_FFFF_FFFF
        } else {
            minimum_interval_us * 1_000
        };
    }

    /// Takes a semaphore that the application sleeps on. While pacing is off
    /// it is signalled at once; else it waits behind all work attached so far.
    pub fn notify_semaphore(&mut self, signal: SemaphoreSignal) -> (r: Notified)
        ensures
            final(self).requested == old(self).requested,
            final(self).present_delay_ns == old(self).present_delay_ns,
            final(self).stop == old(self).stop,
            !old(self).requested ==> r == Notified::SignalNow(signal) && *final(self) == *old(self),
            old(self).requested ==> {
                &&& r == Notified::Queued
                &&& final(self).pending_groups@.len() == 0
                &&& final(self).pending_signals@.len() == old(self).pending_signals@.len() + 1
                &&& final(self).pending_signals@.drop_last() == old(self).pending_signals@
                &&& final(self).pending_signals@.last().signal == signal
                &&& final(self).pending_signals@.last().groups == old(self).pending_groups
                &&& final(self).signals() == old(self).signals().push(signal)
            },
    {
        if !self.requested {
            return Notified::SignalNow(signal);
        }
        let mut groups: Vec<TaggedSpans<H>> = Vec::new();
        core::mem::swap(&mut groups, &mut self.pending_groups);
        self.pending_signals.push_back(PendingSignal { signal, groups });
        proof {
            assert(self.pending_signals@.drop_last() =~= old(self).pending_signals@);
            assert(self.signals() =~= old(self).signals().push(signal));
        }
        Notified::Queued
    }

    /// Attaches the work of a present to the signal that comes next. While
    /// pacing is off there is nothing to attach it to.
    pub fn attach_work(&mut self, present_id: u64, spans: Vec<SubmissionSpan<H>>)
        ensures
            final(self).pending_signals == old(self).pending_signals,
            final(self).requested == old(self).requested,
            final(self).present_delay_ns == old(self).present_delay_ns,
            final(self).stop == old(self).stop,
            !old(self).requested ==> final(self).pending_groups@ == old(self).pending_groups@,
            old(self).requested ==> final(self).pending_groups@ == old(self).pending_groups@.push(
                (TaggedSpans { present_id, spans }),
            ),
    {
        if !self.requested {
            return;
        }
        self.pending_groups.push(TaggedSpans { present_id, spans });
    }

    /// Closes the monitor.
    pub fn close(&mut self)
        ensures
            final(self).stop,
            final(self).pending_signals == old(self).pending_signals,
            final(self).pending_groups == old(self).pending_groups,
            final(self).requested == old(self).requested,
            final(self).present_delay_ns == old(self).present_delay_ns,
    {
        self.stop = true;
    }

    /// Ends a monitor without its worker: gives the semaphores that still have
    /// to be signalled, oldest first.
    pub fn drain(self) -> (r: Vec<SemaphoreSignal>)
        ensures
            r@ == self.signals(),
    {
        let ghost all = self.signals();
        let mut pending = self.pending_signals;
        let n: usize = pending.len();
        let mut out: Vec<SemaphoreSignal> = Vec::new();
        while out.len() < n
            invariant
                n == all.len(),
                out@.len() + pending@.len() == n,
                out@ == all.take(out@.len() as int),
                forall|i: int|
                    0 <= i < pending@.len() ==> (#[trigger] pending@[i]).signal == all[out@.len()
                        + i],
            decreases n - out@.len(),
        {
            let ghost before = pending@;
            let ghost k = out@.len() as int;
            if let Some(p) = pending.pop_front() {
                proof {
                    assert(p == before[0]);
                    assert(all.take(k + 1) =~= all.take(k).push(all[k]));
                    assert forall|i: int| 0 <= i < pending@.len() implies (
                    #[trigger] pending@[i]).signal == all[k + 1 + i] by {
                        assert(pending@[i] == before[i + 1]);
                    }
                }
                out.push(p.signal);
            }
        }
        proof {
            assert(all.take(n as int) =~= all);
        }
        out
    }

    /// What the worker does next. The delay is the stricter of the
    /// application's and the layer's.
    pub fn step(&mut self, layer_delay_ns: u64) -> (r: MonitorStep<H>)
        ensures
            final(self).pending_groups == old(self).pending_groups,
            final(self).requested == old(self).requested,
            final(self).present_delay_ns == old(self).present_delay_ns,
            final(self).stop == old(self).stop,
            match r {
                MonitorStep::Park => {
                    &&& !old(self).stop
                    &&& old(self).signals().len() == 0
                    &&& final(self).pending_signals@ == old(self).pending_signals@
                },
                MonitorStep::Exit => {
                    &&& old(self).stop
                    &&& old(self).signals().len() == 0
                    &&& final(self).pending_signals@ == old(self).pending_signals@
                },
                MonitorStep::Serve { pending, delay_ns } => {
                    &&& !old(self).stop
                    &&& old(self).signals().len() > 0
                    &&& pending == old(self).pending_signals@[0]
                    &&& delay_ns == larger(old(self).present_delay_ns, layer_delay_ns)
                    &&& final(self).signals() == old(self).signals().drop_first()
                    &&& final(self).pending_signals@ == old(self).pending_signals@.drop_first()
                },
                MonitorStep::Drain(signal) => {
                    &&& old(self).stop
                    &&& old(self).signals().len() > 0
                    &&& signal == old(self).signals()[0]
                    &&& final(self).signals() == old(self).signals().drop_first()
                    &&& final(self).pending_signals@ == old(self).pending_signals@.drop_first()
                },
            },
    {
        let ghost before = self.pending_signals@;
        match self.pending_signals.pop_front() {
            None => {
                if self.stop {
                    MonitorStep::Exit
                } else {
                    MonitorStep::Park
                }
            },
            Some(pending) => {
                proof {
                    assert(self.pending_signals@ =~= before.drop_first());
                    assert(self.signals() =~= old(self).signals().drop_first());
                }
                if self.stop {
                    return MonitorStep::Drain(pending.signal);
                }
                let delay_ns: u64 = if self.present_delay_ns >= layer_delay_ns {
                    self.present_delay_ns
                } else {
                    layer_delay_ns
                };
                MonitorStep::Serve { pending, delay_ns }
            },
        }
    }
}

/// The place of a wait among the groups of a signal: the span to look at, or
/// the end.
#[derive(Debug, Clone, Copy, PartialEq, Eq, Structural)]
pub struct ServeCursor {
    pub group: usize,
    pub span: usize,
}

/// Whether a cursor is at a span, or behind the last group.
pub open spec fn at_span<H>(groups: Seq<TaggedSpans<H>>, c: ServeCursor) -> bool {
    c.group < groups.len() && c.span < groups[c.group as int].spans@.len()
}

/// The first span at or behind a place: of the same group, or else of the
/// next one that has any.
pub open spec fn settled<H>(groups: Seq<TaggedSpans<H>>, group: int, span: int) -> (int, int)
    decreases groups.len() - group,
{
    if group < 0 || group >= groups.len() {
        (groups.len() as int, 0)
    } else if span < groups[group].spans@.len() {
        (group, span)
    } else {
        settled(groups, group + 1, 0)
    }
}

fn settle<H>(groups: &Vec<TaggedSpans<H>>, group: usize, span: usize) -> (r: ServeCursor)
    requires
        group <= groups@.len(),
    ensures
        (r.group as int, r.span as int) == settled(groups@, group as int, span as int),
{
    let mut c = ServeCursor { group, span };
    while c.group < groups.len() && c.span >= groups[c.group].spans.len()
        invariant
            c.group <= groups@.len(),
            settled(groups@, group as int, span as int) == settled(
                groups@,
                c.group as int,
                c.span as int,
            ),
        decreases groups@.len() - c.group,
    {
        c.group = c.group + 1;
        c.span = 0;
    }
    if c.group == groups.len() {
        c.span = 0;
    }
    c
}

/// Where the wait for a signal's work begins.
pub fn serve_start<H>(groups: &Vec<TaggedSpans<H>>) -> (r: ServeCursor)
    ensures
        (r.group as int, r.span as int) == settled(groups@, 0, 0),
        at_span(groups@, r) || r.group == groups@.len(),
{
    let r = settle(groups, 0, 0);
    proof {
        lemma_settled(groups@, 0, 0);
    }
    r
}

/// Where the wait goes on after a look at the current span. Work that has
/// completed gives way to the next span. Work that has run out of time ends
/// the wait for its group: the next group is still looked at, though the
/// deadline is shared.
pub fn serve_step<H>(
    groups: &Vec<TaggedSpans<H>>,
    c: ServeCursor,
    completed: bool,
    now_ns: u64,
    deadline_ns: u64,
) -> (r: ServeCursor)
    requires
        at_span(groups@, c),
    ensures
        match submission_span::poll_of(completed, now_ns, deadline_ns) {
            WaitPoll::Completed => (r.group as int, r.span as int) == settled(
                groups@,
                c.group as int,
                c.span + 1,
            ),
            WaitPoll::TimedOut => (r.group as int, r.span as int) == settled(
                groups@,
                c.group + 1,
                0,
            ),
            WaitPoll::Again => r == c,
        },
        at_span(groups@, r) || r.group == groups@.len(),
{
    let group_count: usize = groups.len();
    let span_count: usize = groups[c.group].spans.len();
    proof {
        assert(c.group < group_count && c.span < span_count);
    }
    match await_completed_until(completed, now_ns, deadline_ns) {
        WaitPoll::Completed => {
            proof {
                lemma_settled(groups@, c.group as int, c.span + 1);
            }
            settle(groups, c.group, c.span + 1)
        },
        WaitPoll::TimedOut => {
            proof {
                lemma_settled(groups@, c.group + 1, 0);
            }
            settle(groups, c.group + 1, 0)
        },
        WaitPoll::Again => c,
    }
}

proof fn lemma_settled<H>(groups: Seq<TaggedSpans<H>>, group: int, span: int)
    requires
        0 <= group <= groups.len(),
        0 <= span,
    ensures
        ({
            let r = settled(groups, group, span);
            ||| r == (groups.len() as int, 0int)
            ||| group <= r.0 < groups.len() && 0 <= r.1 < groups[r.0].spans@.len()
        }),
    decreases groups.len() - group,
{
    if group < groups.len() && span >= groups[group].spans@.len() {
        lemma_settled(groups, group + 1, 0);
    }
}

/// Takes the GPU times of a span into the history. The queues of a present
/// all contribute, and the history ends up with the earliest start and the
/// latest end across them.
pub fn record_widest(history: &mut MarkerHistory, present_id: u64, start_ns: u64, end_ns: u64)
    requires
        old(history).wf(),
    ensures
        final(history).wf(),
        final(history).frames@ == (if markers::knows(old(history).frames@, present_id) {
            let i = markers::slot(old(history).frames@, present_id);
            old(history).frames@.update(
                i,
                old(history).frames@[i].widened((start_ns / 1_000) as u64, (end_ns / 1_000) as u64),
            )
        } else {
            old(history).frames@
        }),
{
    history.record_gpu_widest(present_id, start_ns, end_ns);
}

/// A semaphore is never lost: it is signalled at once, or it is the newest of
/// those that the worker still has to signal.
pub proof fn law_no_semaphore_is_lost<H>(
    before: SwapchainMonitor<H>,
    after: SwapchainMonitor<H>,
    signal: SemaphoreSignal,
    r: Notified,
)
    requires
        !before.requested ==> r == Notified::SignalNow(signal) && after == before,
        before.requested ==> r == Notified::Queued && after.signals() == before.signals().push(
            signal,
        ),
    ensures
        r == Notified::SignalNow(signal) || after.signals().last() == signal,
        forall|i: int|
            0 <= i < before.signals().len()
                ==> after.signals()[i] == #[trigger] before.signals()[i],
{
}

/// Whether there is a span at a place.
pub open spec fn has_span<H>(groups: Seq<TaggedSpans<H>>, group: int, span: int) -> bool {
    0 <= group < groups.len() && 0 <= span < groups[group].spans@.len()
}

/// Whether a place comes before that of a cursor, or is the same.
pub open spec fn up_to(group: int, span: int, c: ServeCursor) -> bool {
    group < c.group || (group == c.group && span <= c.span)
}

proof fn lemma_settled_is_next<H>(groups: Seq<TaggedSpans<H>>, group: int, span: int)
    requires
        0 <= group <= groups.len(),
        0 <= span,
    ensures
        ({
            let r = settled(groups, group, span);
            &&& r.0 > group || (r.0 == group && r.1 >= span) || r.0 == groups.len()
            &&& r.0 == groups.len() ==> r.1 == 0
            &&& r.0 <= groups.len()
            &&& forall|g: int, s: int| #[trigger]
                has_span(groups, g, s) && (g > group || (g == group && s >= span)) ==> r.0 < g || (
                r.0 == g && r.1 <= s)
        }),
    decreases groups.len() - group,
{
    if group < groups.len() && span >= groups[group].spans@.len() {
        lemma_settled_is_next(groups, group + 1, 0);
    }
}

/// The wait begins at the first span of all.
pub proof fn law_wait_begins_at_the_first_span<H>(groups: &Vec<TaggedSpans<H>>, r: ServeCursor)
    requires
        call_ensures(serve_start::<H>, (groups,), r),
    ensures
        has_span(groups@, r.group as int, r.span as int) || (r.group == groups@.len() && r.span
            == 0),
        forall|g: int, s: int| #[trigger]
            has_span(groups@, g, s) ==> r.group < g || (r.group == g && r.span <= s),
{
    lemma_settled_is_next(groups@, 0, 0);
}

/// The wait goes on from a span that has completed to the very next one: no
/// span lies between the two, and the end is reached only behind the last.
/// Work that runs out of time gives way to the first span of a later group,
/// and no group with a span is passed over. Otherwise the wait stays where it
/// is.
pub proof fn law_wait_skips_no_work<H>(
    groups: &Vec<TaggedSpans<H>>,
    c: ServeCursor,
    completed: bool,
    now_ns: u64,
    deadline_ns: u64,
    r: ServeCursor,
)
    requires
        has_span(groups@, c.group as int, c.span as int),
        call_ensures(serve_step::<H>, (groups, c, completed, now_ns, deadline_ns), r),
    ensures
        has_span(groups@, r.group as int, r.span as int) || (r.group == groups@.len() && r.span
            == 0),
        completed ==> !up_to(r.group as int, r.span as int, c) && forall|g: int, s: int| #[trigger]
            has_span(groups@, g, s) && !up_to(g, s, c) ==> r.group < g || (r.group == g && r.span
                <= s),
        !completed && now_ns >= deadline_ns ==> r.group > c.group && forall|g: int, s: int|
            #[trigger]
            has_span(groups@, g, s) && g > c.group ==> r.group < g || (r.group == g && r.span <= s),
        !completed && now_ns < deadline_ns ==> r == c,
{
    lemma_settled_is_next(groups@, c.group as int, c.span + 1);
    lemma_settled_is_next(groups@, c.group + 1, 0);
}

/// Whether a sequence of cursors is a wait in which every span was seen
/// completed: it begins where a wait begins, and each step leads to the next.
pub open spec fn is_walk<H>(groups: &Vec<TaggedSpans<H>>, walk: Seq<ServeCursor>) -> bool {
    &&& walk.len() > 0
    &&& call_ensures(serve_start::<H>, (groups,), walk[0])
    &&& forall|i: int|
        0 <= i < walk.len() - 1 ==> has_span(
            groups@,
            (#[trigger] walk[i]).group as int,
            walk[i].span as int,
        ) && exists|now_ns: u64, deadline_ns: u64| #[trigger]
            call_ensures(serve_step::<H>, (groups, walk[i], true, now_ns, deadline_ns), walk[i + 1])
}

proof fn lemma_walk_covers<H>(groups: &Vec<TaggedSpans<H>>, walk: Seq<ServeCursor>, i: int)
    requires
        is_walk(groups, walk),
        0 <= i < walk.len(),
    ensures
        forall|g: int, s: int| #[trigger]
            has_span(groups@, g, s) && up_to(g, s, walk[i]) ==> exists|j: int|
                0 <= j <= i && (#[trigger] walk[j]).group == g && walk[j].span == s,
    decreases i,
{
    if i == 0 {
        law_wait_begins_at_the_first_span(groups, walk[0]);
        assert forall|g: int, s: int| #[trigger]
            has_span(groups@, g, s) && up_to(g, s, walk[0]) implies exists|j: int|
            0 <= j <= 0 && (#[trigger] walk[j]).group == g && walk[j].span == s by {
            assert(walk[0].group == g && walk[0].span == s);
        }
    } else {
        lemma_walk_covers(groups, walk, i - 1);
        let c = walk[i - 1];
        let r = walk[i];
        let (now_ns, deadline_ns) = choose|now_ns: u64, deadline_ns: u64| #[trigger]
            call_ensures(
                serve_step::<H>,
                (groups, walk[i - 1], true, now_ns, deadline_ns),
                walk[i - 1 + 1],
            );
        law_wait_skips_no_work(groups, c, true, now_ns, deadline_ns, r);
        assert forall|g: int, s: int| #[trigger]
            has_span(groups@, g, s) && up_to(g, s, r) implies exists|j: int|
            0 <= j <= i && (#[trigger] walk[j]).group == g && walk[j].span == s by {
            if up_to(g, s, c) {
                let j = choose|j: int|
                    0 <= j <= i - 1 && (#[trigger] walk[j]).group == g && walk[j].span == s;
                assert(0 <= j <= i && walk[j].group == g && walk[j].span == s);
            } else {
                assert(walk[i].group == g && walk[i].span == s);
            }
        }
    }
}

/// A semaphore is held for all of its work: a wait that comes to its end with
/// every span seen completed has looked at every span of every group.
pub proof fn law_every_span_is_waited_for<H>(
    groups: &Vec<TaggedSpans<H>>,
    walk: Seq<ServeCursor>,
    group: int,
    span: int,
)
    requires
        is_walk(groups, walk),
        walk.last().group == groups@.len(),
        has_span(groups@, group, span),
    ensures
        exists|j: int|
            0 <= j < walk.len() - 1 && (#[trigger] walk[j]).group == group && walk[j].span == span,
{
    let i = walk.len() - 1;
    lemma_walk_covers(groups, walk, i);
    assert(up_to(group, span, walk[i]));
    let j = choose|j: int|
        0 <= j <= i && (#[trigger] walk[j]).group == group && walk[j].span == span;
    assert(j < i);
}

/// The delay before a signal is the stricter of the two: no shorter than the
/// application's interval or the layer's, and equal to one of them. What is
/// served is the oldest signal with all of its work. A closed monitor still
/// has each of them signalled, but waits for nothing.
pub proof fn law_worker_serves_the_oldest<H>(
    m: &mut SwapchainMonitor<H>,
    layer_delay_ns: u64,
    r: MonitorStep<H>,
)
    requires
        call_ensures(SwapchainMonitor::<H>::step, (m, layer_delay_ns), r),
    ensures
        final(m).stop == old(m).stop,
        final(m).requested == old(m).requested,
        final(m).present_delay_ns == old(m).present_delay_ns,
        final(m).pending_groups == old(m).pending_groups,
        r is Park || r is Exit <==> old(m).pending_signals@.len() == 0,
        r is Exit ==> old(m).stop,
        r is Drain ==> old(m).stop,
        r is Park ==> !old(m).stop,
        r is Park || r is Exit ==> final(m).pending_signals@ == old(m).pending_signals@,
        r matches MonitorStep::Drain(signal)
            ==> seq![signal] + final(m).signals() == old(m).signals(),
        r matches MonitorStep::Serve { pending, delay_ns } ==> {
            &&& !old(m).stop
            &&& seq![pending] + final(m).pending_signals@ == old(m).pending_signals@
            &&& delay_ns >= old(m).present_delay_ns
            &&& delay_ns >= layer_delay_ns
            &&& delay_ns == old(m).present_delay_ns || delay_ns == layer_delay_ns
        },
{
    match r {
        MonitorStep::Drain(signal) => {
            assert(seq![signal] + final(m).signals() =~= old(m).signals());
        },
        MonitorStep::Serve { pending, .. } => {
            assert(seq![pending] + final(m).pending_signals@ =~= old(m).pending_signals@);
        },
        _ => {},
    }
}

/// The interval that an application asks for in microseconds is kept in
/// nanoseconds; where that is too much for 64 bits it is the longest there is.
pub proof fn law_interval_is_kept<H>(
    m: &mut SwapchainMonitor<H>,
    requested: bool,
    minimum_interval_us: u64,
)
    requires
        call_ensures(SwapchainMonitor::<H>::update_params, (m, requested, minimum_interval_us), ()),
    ensures
        final(m).requested == requested,
        final(m).present_delay_ns == minimum_interval_us * 1_000 || (final(m).present_delay_ns
            == u64::MAX && minimum_interval_us * 1_000 > u64::MAX),
        final(m).pending_signals == old(m).pending_signals,
        final(m).pending_groups == old(m).pending_groups,
        final(m).stop == old(m).stop,
{
}

/// All work that came while pacing was on goes with the semaphore that comes
/// next, and with no other: a present's work is attached behind what is there,
/// a semaphore takes all of it, and the next one starts with none.
pub proof fn law_work_goes_with_the_next_semaphore<H>(
    a: &mut SwapchainMonitor<H>,
    present_id: u64,
    spans: Vec<SubmissionSpan<H>>,
    b: &mut SwapchainMonitor<H>,
    signal: SemaphoreSignal,
    r: Notified,
)
    requires
        call_ensures(SwapchainMonitor::<H>::attach_work, (a, present_id, spans), ()),
        *old(b) == *final(a),
        call_ensures(SwapchainMonitor::<H>::notify_semaphore, (b, signal), r),
    ensures
        old(a).requested ==> {
            let p = final(b).pending_signals@.last();
            &&& r is Queued
            &&& final(b).pending_signals@.len() == old(a).pending_signals@.len() + 1
            &&& final(b).pending_signals@.drop_last() == old(a).pending_signals@
            &&& p.signal == signal
            &&& p.groups@.len() == old(a).pending_groups@.len() + 1
            &&& p.groups@.drop_last() == old(a).pending_groups@
            &&& p.groups@.last().present_id == present_id
            &&& p.groups@.last().spans == spans
            &&& final(b).pending_groups@.len() == 0
        },
        !old(a).requested ==> {
            &&& r == Notified::SignalNow(signal)
            &&& final(b).pending_signals@ == old(a).pending_signals@
            &&& final(b).pending_groups@ == old(a).pending_groups@
        },
{
    if old(a).requested {
        assert(final(b).pending_signals@.last().groups@.drop_last() =~= old(a).pending_groups@);
    }
}

/// A monitor that is closed, or that is drained without its worker, gives
/// every semaphore that is pending, oldest first.
pub proof fn law_drain_gives_all<H>(m: SwapchainMonitor<H>, r: Vec<SemaphoreSignal>, i: int)
    requires
        call_ensures(SwapchainMonitor::<H>::drain, (m,), r),
        0 <= i < m.pending_signals@.len(),
    ensures
        r@.len() == m.pending_signals@.len(),
        r@[i] == m.pending_signals@[i].signal,
{
}

/// Every queue of a present widens the GPU's times of its frame: what is known
/// afterwards starts no later and ends no earlier than the span, and no frame
/// but that of the present changes.
pub proof fn law_spans_widen_their_frame(
    history: &mut MarkerHistory,
    present_id: u64,
    start_ns: u64,
    end_ns: u64,
    i: int,
)
    requires
        old(history).wf(),
        call_ensures(record_widest, (history, present_id, start_ns, end_ns), ()),
        0 <= i < old(history).frames@.len(),
    ensures
        final(history).frames@.len() == old(history).frames@.len(),
        old(history).frames@[i].present_id != present_id
            ==> final(history).frames@[i] == old(history).frames@[i],
        old(history).frames@[i].present_id == present_id ==> {
            let was = old(history).frames@[i];
            let now = final(history).frames@[i];
            &&& now.gpu_render_start_us <= start_ns as int / 1_000
            &&& now.gpu_render_end_us >= end_ns as int / 1_000
            &&& was.gpu_render_start_us > 0 ==> now.gpu_render_start_us <= was.gpu_render_start_us
            &&& now.gpu_render_end_us >= was.gpu_render_end_us
            &&& was.gpu_render_start_us == 0 ==> now.gpu_render_start_us == start_ns as int / 1_000
            &&& now.gpu_render_start_us == start_ns as int / 1_000 || now.gpu_render_start_us
                == was.gpu_render_start_us
            &&& now.gpu_render_end_us == end_ns as int / 1_000 || now.gpu_render_end_us
                == was.gpu_render_end_us
        },
{
    let s = old(history).frames@;
    if markers::knows(s, present_id) {
        assert(markers::is_slot(s, present_id, markers::slot(s, present_id)));
    }
    if s[i].present_id == present_id {
        assert(markers::is_slot(s, present_id, i));
        let w = markers::slot(s, present_id);
        assert(w == i) by {
            if w < i {
                assert(s[w].present_id != s[i].present_id);
            } else if i < w {
                assert(s[i].present_id != s[w].present_id);
            }
        }
    }
}

/// Closing a monitor stops it and loses nothing of what waits.
pub proof fn law_closing_loses_nothing<H>(m: &mut SwapchainMonitor<H>)
    requires
        call_ensures(SwapchainMonitor::<H>::close, (m,), ()),
    ensures
        final(m).stop,
        final(m).signals() == old(m).signals(),
        final(m).pending_signals@ == old(m).pending_signals@,
        final(m).pending_groups@ == old(m).pending_groups@,
        final(m).requested == old(m).requested,
        final(m).present_delay_ns == old(m).present_delay_ns,
{
}

} // verus!
