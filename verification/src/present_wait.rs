//! When a frame really reached the display.
//!
//! Two workers can tell. One waits for each present by its id. The other
//! polls the driver for past presentation times, which come in the order of
//! submission per swapchain, so that each is paired with the oldest present
//! that still waits for one. Either way the moment goes into the marker
//! history. Timeouts and errors are discarded: one bad frame must not stall
//! the ones behind it.

use crossbeam_queue::SegQueue;
use rustc_hash::FxHashMap;
use std::collections::VecDeque;
use vstd::prelude::*;
use crate::fx::{fx_insert, fx_keys, fx_new, fx_remove};
use crate::ring;
use crate::ring::push_bounded;
use crate::seg_queue;
use crate::seg_queue::{queue_new, queue_pop, queue_push, Entry};
use crate::strategy::low_latency2::markers;
use crate::strategy::low_latency2::markers::{FrameMarkers, MarkerHistory};
use crate::vk;

verus! {

/// How long one wait may take, so that a stuck driver cannot pin the worker.
pub const WAIT_TIMEOUT_NS: u64 = 50_000_000;

/// Milliseconds between two polls.
pub const GOOGLE_POLL_INTERVAL_MS: u64 = 5;

/// How many presents of a swapchain can wait for their time. Bounds memory if
/// the driver stops producing times.
pub const GOOGLE_PENDING_CAP: usize = 256;

/// How many times one poll reads at most; the rest comes with the next.
pub const GOOGLE_POLL_MAX: u32 = 64;

/// How far a presentation time can be from the host's clock, in nanoseconds,
/// and still be one of that clock.
pub const ACCEPT_SKEW_NS: u64 = 5_000_000_000;

/// What the waiting worker does next.
#[derive(Debug, Clone, Copy)]
pub enum WaitStep {
    Wait { swapchain: u64, present_id: u64 },
    /// Sleep until a present comes or the worker is stopped.
    Park,
    Exit,
}

/// The presents to wait for, oldest first.
pub struct PresentWaitWorker {
    pub queue: SegQueue<Entry>,
    pub stop: bool,
}

impl PresentWaitWorker {
    /// The presents that still wait, as swapchain and present id.
    pub open spec fn waiting(self) -> Seq<(u64, u64)> {
        seg_queue::entries(self.queue).map_values(|e: Entry| (e.0, e.1))
    }

    /// A worker, if the device can wait for a present at all.
    pub fn new(can_wait: bool) -> (r: Option<Self>)
        ensures
            r is Some == can_wait,
            r matches Some(w) ==> w.waiting().len() == 0 && !w.stop,
    {
        if !can_wait {
            return None;
        }
        Some(PresentWaitWorker { queue: queue_new(), stop: false })
    }

    /// Adds a present. One without an id cannot be waited for.
    pub fn enqueue(&mut self, swapchain: u64, present_id: u64)
        ensures
            final(self).waiting() == (if present_id == 0 {
                old(self).waiting()
            } else {
                old(self).waiting().push((swapchain, present_id))
            }),
            final(self).stop == old(self).stop,
    {
        if present_id == 0 {
            return;
        }
        queue_push(&mut self.queue, (swapchain, present_id, false));
        proof {
            assert(self.waiting() =~= old(self).waiting().push((swapchain, present_id)));
        }
    }

    /// What the worker does next: it works off what waits, also after it has
    /// been stopped.
    pub fn step(&mut self) -> (r: WaitStep)
        ensures
            final(self).stop == old(self).stop,
            match r {
                WaitStep::Wait { swapchain, present_id } => {
                    &&& old(self).waiting().len() > 0
                    &&& (swapchain, present_id) == old(self).waiting()[0]
                    &&& final(self).waiting() == old(self).waiting().drop_first()
                },
                WaitStep::Park => !old(self).stop && old(self).waiting().len() == 0
                    && final(self).waiting().len() == 0,
                WaitStep::Exit => old(self).stop && old(self).waiting().len() == 0
                    && final(self).waiting().len() == 0,
            },
    {
        match queue_pop(&mut self.queue) {
            Some(entry) => {
                proof {
                    assert(old(self).waiting()[0] == (entry.0, entry.1));
                    assert(self.waiting() =~= old(self).waiting().drop_first());
                }
                WaitStep::Wait { swapchain: entry.0, present_id: entry.1 }
            },
            None => {
                if self.stop {
                    WaitStep::Exit
                } else {
                    WaitStep::Park
                }
            },
        }
    }
}

/// Takes the end of a wait into the history: the moment of its return, where
/// it succeeded.
pub fn wait_finished(history: &mut MarkerHistory, present_id: u64, result: i32, now_after: u64)
    requires
        old(history).wf(),
    ensures
        final(history).wf(),
        final(history).frames@ == (if result == vk::SUCCESS {
            markers::with_present_actual(old(history).frames@, present_id, now_after)
        } else {
            old(history).frames@
        }),
{
    if result == vk::SUCCESS {
        history.record_present_actual(present_id, now_after);
    }
}

/// The clock that the driver's presentation times are of. The interface
/// leaves it open, so the first sample decides.
#[derive(Debug, Clone, Copy, PartialEq, Eq, Structural)]
pub enum GoogleClockDomain {
    Unvalidated,
    Monotonic,
    Unknown,
}

/// A sample near the host's monotonic clock is of that clock; anything wilder
/// is of some other.
pub open spec fn domain_of(sample_ns: u64, now_ns: u64) -> GoogleClockDomain {
    if -ACCEPT_SKEW_NS <= sample_ns - now_ns <= ACCEPT_SKEW_NS {
        GoogleClockDomain::Monotonic
    } else {
        GoogleClockDomain::Unknown
    }
}

pub fn classify_google_domain(sample_ns: u64, now_ns: u64) -> (r: GoogleClockDomain)
    ensures
        r == domain_of(sample_ns, now_ns),
{
    let skew: u64 = if sample_ns >= now_ns {
        sample_ns - now_ns
    } else {
        now_ns - sample_ns
    };
    if skew <= ACCEPT_SKEW_NS {
        GoogleClockDomain::Monotonic
    } else {
        GoogleClockDomain::Unknown
    }
}

/// The first of `times`, from `i` on, that is a time at all.
pub open spec fn first_sample(times: Seq<u64>, i: int) -> Option<u64>
    decreases times.len() - i,
{
    if i < 0 || i >= times.len() {
        None
    } else if times[i] != 0 {
        Some(times[i])
    } else {
        first_sample(times, i + 1)
    }
}

/// The domain once a poll has been seen: the first sample ever decides it.
pub open spec fn domain_after(domain: GoogleClockDomain, times: Seq<u64>, now_ns: u64) -> GoogleClockDomain {
    if domain == GoogleClockDomain::Unvalidated {
        match first_sample(times, 0) {
            Some(sample) => domain_of(sample, now_ns),
            None => domain,
        }
    } else {
        domain
    }
}

/// The host time that a polled time stands for. A time of an unknown clock,
/// or none, gives way to the moment of the poll.
pub open spec fn host_time(domain: GoogleClockDomain, time: u64, now_ns: u64) -> u64 {
    if domain == GoogleClockDomain::Monotonic && time != 0 {
        time
    } else {
        now_ns
    }
}

/// The history once the first `n` presents of a queue have their times.
pub open spec fn paired(
    frames: Seq<FrameMarkers>,
    fifo: Seq<u64>,
    times: Seq<u64>,
    domain: GoogleClockDomain,
    now_ns: u64,
    n: int,
) -> Seq<FrameMarkers>
    decreases n,
{
    if n <= 0 {
        frames
    } else {
        markers::with_present_actual(
            paired(frames, fifo, times, domain, now_ns, n - 1),
            fifo[n - 1],
            host_time(domain, times[n - 1], now_ns),
        )
    }
}

pub open spec fn min_len(a: nat, b: nat) -> int {
    if a < b {
        a as int
    } else {
        b as int
    }
}

/// How many times to read, after a first call has said how many there are.
pub fn poll_size(result: i32, count: u32) -> (r: Option<usize>)
    ensures
        r == (if result != vk::SUCCESS || count == 0 {
            None
        } else if count < GOOGLE_POLL_MAX {
            Some(count as usize)
        } else {
            Some(GOOGLE_POLL_MAX as usize)
        }),
{
    if result != vk::SUCCESS || count == 0 {
        return None;
    }
    if count < GOOGLE_POLL_MAX {
        Some(count as usize)
    } else {
        Some(GOOGLE_POLL_MAX as usize)
    }
}

/// Whether the second call of a poll brought times.
pub fn poll_succeeded(result: i32) -> (r: bool)
    ensures
        r == (result == vk::SUCCESS || result == vk::INCOMPLETE),
{
    result == vk::SUCCESS || result == vk::INCOMPLETE
}

/// The presents of each swapchain that wait for their time, oldest first.
pub struct GoogleTimingWorker {
    pub pending: FxHashMap<u64, VecDeque<u64>>,
    pub domain: GoogleClockDomain,
}

impl GoogleTimingWorker {
    /// The presents of a swapchain that wait.
    pub open spec fn fifo(self, swapchain: u64) -> Seq<u64> {
        if self.pending@.contains_key(swapchain) {
            self.pending@[swapchain]@
        } else {
            Seq::empty()
        }
    }

    /// Everything but one swapchain is as it was.
    pub open spec fn same_elsewhere(self, before: GoogleTimingWorker, swapchain: u64) -> bool {
        forall|other: u64|
            #![trigger self.pending@.contains_key(other)]
            other != swapchain ==> self.pending@.contains_key(other)
                == before.pending@.contains_key(other) && self.fifo(other) == before.fifo(other)
    }

    /// A worker, if the device can be polled at all.
    pub fn new(can_poll: bool) -> (r: Option<Self>)
        ensures
            r is Some == can_poll,
            r matches Some(w) ==> w.pending@.dom() == Set::<u64>::empty() && w.domain
                == GoogleClockDomain::Unvalidated,
    {
        if !can_poll {
            return None;
        }
        Some(GoogleTimingWorker { pending: fx_new(), domain: GoogleClockDomain::Unvalidated })
    }

    /// Adds a present, in place of the oldest where too many wait. One without
    /// an id gets no time.
    pub fn enqueue(&mut self, swapchain: u64, present_id: u64)
        ensures
            present_id == 0 ==> *final(self) == *old(self),
            present_id != 0 ==> {
                &&& final(self).pending@.contains_key(swapchain)
                &&& final(self).fifo(swapchain) == ring::pushed(
                    old(self).fifo(swapchain),
                    present_id,
                    GOOGLE_PENDING_CAP as nat,
                )
                &&& final(self).same_elsewhere(*old(self), swapchain)
                &&& final(self).domain == old(self).domain
            },
    {
        if present_id == 0 {
            return;
        }
        let mut fifo: VecDeque<u64> = match fx_remove(&mut self.pending, swapchain) {
            Some(fifo) => fifo,
            None => VecDeque::new(),
        };
        push_bounded(&mut fifo, present_id, GOOGLE_PENDING_CAP);
        let _ = fx_insert(&mut self.pending, swapchain, fifo);
    }

    /// Drops what waits on a swapchain that is gone.
    pub fn forget_swapchain(&mut self, swapchain: u64)
        ensures
            !final(self).pending@.contains_key(swapchain),
            final(self).fifo(swapchain) == Seq::<u64>::empty(),
            final(self).same_elsewhere(*old(self), swapchain),
            final(self).domain == old(self).domain,
    {
        let _ = fx_remove(&mut self.pending, swapchain);
    }

    /// The swapchains to poll, each once.
    pub fn swapchains(&self) -> (r: Vec<u64>)
        ensures
            r@.no_duplicates(),
            r@.to_set() == self.pending@.dom(),
    {
        fx_keys(&self.pending)
    }

    /// Takes the times that a poll of one swapchain brought, in the order of
    /// submission, into the history.
    pub fn record(
        &mut self,
        history: &mut MarkerHistory,
        swapchain: u64,
        times: &[u64],
        now_ns: u64,
    )
        requires
            old(history).wf(),
        ensures
            final(history).wf(),
            final(self).pending@.dom() == old(self).pending@.dom(),
            final(self).same_elsewhere(*old(self), swapchain),
            !old(self).pending@.contains_key(swapchain) ==> {
                &&& final(self).domain == old(self).domain
                &&& final(history).frames@ == old(history).frames@
            },
            old(self).pending@.contains_key(swapchain) ==> {
                let fifo = old(self).fifo(swapchain);
                let n = min_len(fifo.len(), times@.len());
                &&& final(self).domain == domain_after(old(self).domain, times@, now_ns)
                &&& final(self).fifo(swapchain) == fifo.skip(n)
                &&& final(history).frames@ == paired(
                    old(history).frames@,
                    fifo,
                    times@,
                    final(self).domain,
                    now_ns,
                    n,
                )
            },
    {
        let mut fifo: VecDeque<u64> = match fx_remove(&mut self.pending, swapchain) {
            Some(fifo) => fifo,
            None => {
                proof {
                    assert(self.pending@ =~= old(self).pending@);
                }
                return;
            },
        };
        let ghost all = fifo@;
        self.validate(times, now_ns);
        let domain = self.domain;
        let ghost frames = history.frames@;
        let mut i: usize = 0;
        proof {
            assert(all.skip(0) =~= all);
        }
        while i < times.len()
            invariant
                history.wf(),
                i <= times@.len(),
                i <= all.len(),
                fifo@ == all.skip(i as int),
                history.frames@ == paired(frames, all, times@, domain, now_ns, i as int),
            ensures
                history.wf(),
                i == min_len(all.len(), times@.len()),
                fifo@ == all.skip(i as int),
                history.frames@ == paired(frames, all, times@, domain, now_ns, i as int),
            decreases times@.len() - i,
        {
            let ghost before = fifo@;
            let present_id: u64 = match fifo.pop_front() {
                Some(id) => id,
                None => {
                    break ;
                },
            };
            let time: u64 = times[i];
            let host_ns: u64 = if domain == GoogleClockDomain::Monotonic && time != 0 {
                time
            } else {
                now_ns
            };
            proof {
                assert(before[0] == all[i as int]);
                assert(fifo@ =~= all.skip(i + 1));
            }
            history.record_present_actual(present_id, host_ns);
            i += 1;
        }
        let _ = fx_insert(&mut self.pending, swapchain, fifo);
        proof {
            assert(self.pending@.dom() =~= old(self).pending@.dom());
        }
    }

    /// Settles the clock domain with the first sample there is.
    fn validate(&mut self, times: &[u64], now_ns: u64)
        ensures
            final(self).pending == old(self).pending,
            final(self).domain == domain_after(old(self).domain, times@, now_ns),
    {
        if self.domain != GoogleClockDomain::Unvalidated {
            return;
        }
        let mut i: usize = 0;
        while i < times.len()
            invariant
                i <= times@.len(),
                *self == *old(self),
                self.domain == GoogleClockDomain::Unvalidated,
                first_sample(times@, 0) == first_sample(times@, i as int),
            decreases times@.len() - i,
        {
            if times[i] != 0 {
                self.domain = classify_google_domain(times[i], now_ns);
                return;
            }
            i += 1;
        }
    }
}

/// Once settled, the clock domain never changes.
pub proof fn law_domain_is_settled_once(domain: GoogleClockDomain, times: Seq<u64>, now_ns: u64)
    ensures
        domain != GoogleClockDomain::Unvalidated ==> domain_after(domain, times, now_ns) == domain,
        domain == GoogleClockDomain::Unvalidated && first_sample(times, 0) is Some ==> domain_after(
            domain,
            times,
            now_ns,
        ) != GoogleClockDomain::Unvalidated,
{
}

/// A time of a clock that is not the host's never enters the history: the
/// moment of the poll stands for it.
pub proof fn law_unknown_clock_is_never_trusted(time: u64, now_ns: u64)
    ensures
        host_time(GoogleClockDomain::Unknown, time, now_ns) == now_ns,
        host_time(GoogleClockDomain::Unvalidated, time, now_ns) == now_ns,
{
}

/// A present with an id is waited for behind all others, and one without is
/// not. The worker takes the foremost, and ends only on a stop and once none
/// is left.
pub proof fn law_presents_are_waited_for_in_order(
    a: &mut PresentWaitWorker,
    swapchain: u64,
    present_id: u64,
    b: &mut PresentWaitWorker,
    r: WaitStep,
)
    requires
        call_ensures(PresentWaitWorker::enqueue, (a, swapchain, present_id), ()),
        *old(b) == *final(a),
        call_ensures(PresentWaitWorker::step, (b,), r),
    ensures
        present_id == 0 ==> final(a).waiting() == old(a).waiting(),
        present_id > 0 ==> final(a).waiting().last() == (swapchain, present_id)
            && final(a).waiting().drop_last() == old(a).waiting(),
        final(b).stop == old(a).stop,
        r is Wait <==> old(b).waiting().len() > 0,
        r matches WaitStep::Wait { swapchain: s, present_id: p }
            ==> seq![(s, p)] + final(b).waiting() == old(b).waiting(),
        r is Exit <==> old(b).waiting().len() == 0 && old(b).stop,
        r is Park <==> old(b).waiting().len() == 0 && !old(b).stop,
        r !is Wait ==> final(b).waiting().len() == 0,
{
    if present_id > 0 {
        assert(final(a).waiting().drop_last() =~= old(a).waiting());
    }
    if let WaitStep::Wait { swapchain: s, present_id: p } = r {
        assert(seq![(s, p)] + final(b).waiting() =~= old(b).waiting());
    }
}

/// Whether two histories differ in nothing but the scanout of one present,
/// which is at a moment, in microseconds.
pub open spec fn is_shown_at(
    before: Seq<FrameMarkers>,
    after: Seq<FrameMarkers>,
    present_id: u64,
    host_ns: u64,
) -> bool {
    &&& after.len() == before.len()
    &&& forall|i: int|
        0 <= i < before.len() ==> {
            let was = #[trigger] before[i];
            &&& was.present_id != present_id ==> after[i] == was
            &&& was.present_id == present_id ==> markers::same_markers(after[i], was)
                && after[i].display_actual_us == host_ns as int / 1_000
                && after[i].gpu_render_start_us == was.gpu_render_start_us
                && after[i].gpu_render_end_us == was.gpu_render_end_us
        }
}

proof fn lemma_shown(s: Seq<FrameMarkers>, present_id: u64, host_ns: u64)
    requires
        markers::distinct(s),
    ensures
        is_shown_at(s, markers::with_present_actual(s, present_id, host_ns), present_id, host_ns),
        markers::distinct(markers::with_present_actual(s, present_id, host_ns)),
{
    let t = markers::with_present_actual(s, present_id, host_ns);
    if markers::knows(s, present_id) {
        let w = markers::slot(s, present_id);
        assert(markers::is_slot(s, present_id, w));
        assert forall|i: int| 0 <= i < s.len() && i != w implies (#[trigger] s[i]).present_id
            != present_id by {
            if i < w {
                assert(s[i].present_id != s[w].present_id);
            } else {
                assert(s[w].present_id != s[i].present_id);
            }
        }
        assert forall|i: int, j: int| 0 <= i < j < t.len() implies (#[trigger] t[i]).present_id != (
        #[trigger] t[j]).present_id by {
            assert(s[i].present_id != s[j].present_id);
        }
    } else {
        assert forall|i: int| 0 <= i < s.len() implies (#[trigger] s[i]).present_id
            != present_id by {
            assert(!markers::is_slot(s, present_id, i));
        }
    }
}

/// A wait that succeeded (0) says when its present was on the display, and one
/// that did not says nothing.
pub proof fn law_finished_wait_dates_its_present(
    history: &mut MarkerHistory,
    present_id: u64,
    result: i32,
    now_after: u64,
)
    requires
        old(history).wf(),
        call_ensures(wait_finished, (history, present_id, result, now_after), ()),
    ensures
        result != 0 ==> final(history).frames@ == old(history).frames@,
        result == 0 ==> is_shown_at(
            old(history).frames@,
            final(history).frames@,
            present_id,
            now_after,
        ),
{
    lemma_shown(old(history).frames@, present_id, now_after);
}

/// A sample is of the host's clock where it is at most five seconds away from
/// it, before or behind.
pub proof fn law_near_samples_are_of_the_host_clock(
    sample_ns: u64,
    now_ns: u64,
    r: GoogleClockDomain,
)
    requires
        call_ensures(classify_google_domain, (sample_ns, now_ns), r),
    ensures
        r is Monotonic <==> sample_ns <= now_ns + 5_000_000_000 && now_ns <= sample_ns
            + 5_000_000_000,
        r is Unknown <==> !(r is Monotonic),
{
}

/// A poll reads at most 64 times, as many as there are up to that, and none
/// after an error or where there is none. It has brought times where the
/// second call says so: all (0), or not all of them (5).
pub proof fn law_polls_are_bounded(result: i32, count: u32, size: Option<usize>, second: i32, ok: bool)
    requires
        call_ensures(poll_size, (result, count), size),
        call_ensures(poll_succeeded, (second,), ok),
    ensures
        size is Some <==> result == 0 && count > 0,
        size matches Some(n) ==> 0 < n <= 64 && n <= count && (n == 64 || n == count),
        ok <==> second == 0 || second == 5,
{
}

/// Whether a sequence has no number twice up to a place.
pub open spec fn distinct_up_to(s: Seq<u64>, n: int) -> bool {
    forall|i: int, j: int| 0 <= i < j < n ==> #[trigger] s[i] != #[trigger] s[j]
}

proof fn lemma_paired(
    frames: Seq<FrameMarkers>,
    fifo: Seq<u64>,
    times: Seq<u64>,
    domain: GoogleClockDomain,
    now_ns: u64,
    n: int,
    i: int,
)
    requires
        markers::distinct(frames),
        0 <= n <= fifo.len(),
        n <= times.len(),
        distinct_up_to(fifo, n),
        0 <= i < frames.len(),
    ensures
        ({
            let after = paired(frames, fifo, times, domain, now_ns, n);
            &&& after.len() == frames.len()
            &&& markers::distinct(after)
            &&& markers::same_markers(after[i], frames[i])
            &&& forall|k: int|
                0 <= k < n && #[trigger] fifo[k] == frames[i].present_id
                    ==> after[i].display_actual_us == host_time(domain, times[k], now_ns) as int
                    / 1_000
            &&& (forall|k: int| 0 <= k < n ==> #[trigger] fifo[k] != frames[i].present_id)
                ==> after[i] == frames[i]
        }),
    decreases n,
{
    if n > 0 {
        lemma_paired(frames, fifo, times, domain, now_ns, n - 1, i);
        let before = paired(frames, fifo, times, domain, now_ns, n - 1);
        let time = host_time(domain, times[n - 1], now_ns);
        lemma_shown(before, fifo[n - 1], time);
        let after = paired(frames, fifo, times, domain, now_ns, n);
        assert(before[i].present_id == frames[i].present_id);
        assert(is_shown_at(before, after, fifo[n - 1], time));
        assert forall|k: int|
            0 <= k < n
                && #[trigger] fifo[k] == frames[i].present_id implies after[i].display_actual_us
            == host_time(domain, times[k], now_ns) as int / 1_000 by {
            if k < n - 1 {
                assert(fifo[k] != fifo[n - 1]);
            }
        }
    }
}

/// The times of a poll go to the presents that wait, one by one and oldest
/// first, as far as there are both. Each present gets its own: the time that
/// was polled where the clock is the host's and there is one, and else the
/// moment of the poll. No frame of another present changes, and those that got
/// their time do not wait any more.
pub proof fn law_times_go_to_their_presents(
    w: &mut GoogleTimingWorker,
    history: &mut MarkerHistory,
    swapchain: u64,
    times: &[u64],
    now_ns: u64,
    k: int,
    i: int,
)
    requires
        old(history).wf(),
        call_ensures(GoogleTimingWorker::record, (w, history, swapchain, times, now_ns), ()),
        old(w).pending@.contains_key(swapchain),
        distinct_up_to(old(w).fifo(swapchain), old(w).fifo(swapchain).len() as int),
        0 <= i < old(history).frames@.len(),
    ensures
        final(history).frames@.len() == old(history).frames@.len(),
        0 <= k < old(w).fifo(swapchain).len() && k < times@.len()
            && old(history).frames@[i].present_id == old(w).fifo(swapchain)[k] ==> {
            let trusted = final(w).domain is Monotonic && times@[k] > 0;
            let us = final(history).frames@[i].display_actual_us;
            &&& trusted ==> us == times@[k] as int / 1_000
            &&& !trusted ==> us == now_ns as int / 1_000
        },
        markers::same_markers(final(history).frames@[i], old(history).frames@[i]),
        (forall|j: int|
            0 <= j < old(w).fifo(swapchain).len() && j < times@.len() ==> #[trigger] old(w).fifo(
                swapchain,
            )[j] != old(history).frames@[i].present_id)
                ==> final(history).frames@[i] == old(history).frames@[i],
        0 <= k && k + times@.len() < old(w).fifo(swapchain).len() ==> final(w).fifo(swapchain)[k]
            == old(w).fifo(swapchain)[k + times@.len()],
        final(w).fifo(swapchain).len() == (if times@.len() < old(w).fifo(swapchain).len() {
            old(w).fifo(swapchain).len() - times@.len()
        } else {
            0
        }),
{
    let fifo = old(w).fifo(swapchain);
    let n = min_len(fifo.len(), times@.len());
    lemma_paired(old(history).frames@, fifo, times@, final(w).domain, now_ns, n, i);
    if 0 <= k < n {
        assert(fifo[k] == old(w).fifo(swapchain)[k]);
    }
}

/// The first time that is ever polled settles the clock for good: whether it
/// is near the host's. Until there is one nothing is settled.
pub proof fn law_first_sample_settles_the_clock(
    w: &mut GoogleTimingWorker,
    history: &mut MarkerHistory,
    swapchain: u64,
    times: &[u64],
    now_ns: u64,
    k: int,
    classified: GoogleClockDomain,
)
    requires
        old(history).wf(),
        call_ensures(GoogleTimingWorker::record, (w, history, swapchain, times, now_ns), ()),
        old(w).pending@.contains_key(swapchain),
        0 <= k < times@.len(),
        times@[k] > 0,
        forall|j: int| 0 <= j < k ==> #[trigger] times@[j] == 0,
        call_ensures(classify_google_domain, (times@[k], now_ns), classified),
    ensures
        old(w).domain is Unvalidated ==> final(w).domain == classified,
        !(old(w).domain is Unvalidated) ==> final(w).domain == old(w).domain,
{
    lemma_first_sample(times@, 0, k);
}

proof fn lemma_first_sample(times: Seq<u64>, i: int, k: int)
    requires
        0 <= i <= k < times.len(),
        times[k] > 0,
        forall|j: int| 0 <= j < k ==> #[trigger] times[j] == 0,
    ensures
        first_sample(times, i) == Some(times[k]),
    decreases k - i,
{
    if i < k {
        assert(times[i] == 0);
        lemma_first_sample(times, i + 1, k);
    }
}

/// A swapchain that is gone is not polled any more, and the others are.
pub proof fn law_forgotten_swapchains_are_not_polled(
    w: &mut GoogleTimingWorker,
    swapchain: u64,
    polled: Vec<u64>,
    other: u64,
)
    requires
        call_ensures(GoogleTimingWorker::forget_swapchain, (w, swapchain), ()),
        call_ensures(GoogleTimingWorker::swapchains, (&*final(w),), polled),
    ensures
        !polled@.contains(swapchain),
        polled@.no_duplicates(),
        other != swapchain ==> polled@.contains(other) == old(w).pending@.contains_key(other)
            && final(w).fifo(other) == old(w).fifo(other),
{
    assert(polled@.contains(swapchain) == polled@.to_set().contains(swapchain));
    assert(polled@.contains(other) == polled@.to_set().contains(other));
    if other != swapchain {
        assert(final(w).pending@.contains_key(other) == old(w).pending@.contains_key(other));
    }
}

/// A present with an id gets in line at its own swapchain, behind the others,
/// and only a line of 256 gives up its foremost. One without an id changes
/// nothing.
pub proof fn law_present_gets_in_line(
    w: &mut GoogleTimingWorker,
    swapchain: u64,
    present_id: u64,
    other: u64,
)
    requires
        call_ensures(GoogleTimingWorker::enqueue, (w, swapchain, present_id), ()),
        old(w).fifo(swapchain).len() <= 256,
    ensures
        final(w).domain == old(w).domain,
        present_id == 0 ==> final(w).fifo(swapchain) == old(w).fifo(swapchain),
        other != swapchain ==> final(w).fifo(other) == old(w).fifo(other),
        present_id > 0 ==> {
            let was = old(w).fifo(swapchain);
            let now = final(w).fifo(swapchain);
            &&& now.last() == present_id
            &&& was.len() < 256 ==> now.drop_last() == was
            &&& was.len() == 256 ==> seq![was[0]] + now.drop_last() == was
        },
{
    let was = old(w).fifo(swapchain);
    let now = final(w).fifo(swapchain);
    if present_id > 0 {
        if was.len() < 256 {
            assert(now.drop_last() =~= was);
        } else {
            assert(seq![was[0]] + now.drop_last() =~= was);
        }
        if other != swapchain {
            assert(final(w).pending@.contains_key(other) == old(w).pending@.contains_key(other));
        }
    }
}

/// There is a worker exactly where the device can do what it does. It starts
/// with nothing that waits, and with a clock that is not settled.
pub proof fn law_workers_need_their_function(
    can_wait: bool,
    a: Option<PresentWaitWorker>,
    can_poll: bool,
    b: Option<GoogleTimingWorker>,
    swapchain: u64,
)
    requires
        call_ensures(PresentWaitWorker::new, (can_wait,), a),
        call_ensures(GoogleTimingWorker::new, (can_poll,), b),
    ensures
        a is Some <==> can_wait,
        a matches Some(w) ==> w.waiting().len() == 0 && !w.stop,
        b is Some <==> can_poll,
        b matches Some(w) ==> w.domain is Unvalidated && !w.pending@.contains_key(swapchain),
{
    if let Some(w) = b {
        assert(w.pending@.dom().contains(swapchain) == w.pending@.contains_key(swapchain));
    }
}

} // verus!
