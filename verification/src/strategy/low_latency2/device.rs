//! The monitors of a device's swapchains.

use std::collections::HashMap;
use vstd::prelude::*;
use vstd::std_specs::hash::*;
use crate::strategy::low_latency2::queue::LowLatency2QueueStrategy;
use crate::strategy::low_latency2::semaphore_signal::SemaphoreSignal;
use crate::strategy::low_latency2::swapchain_monitor;
use crate::strategy::low_latency2::swapchain_monitor::{MonitorStep, Notified, SwapchainMonitor};
use crate::submission_span::SubmissionSpan;

verus! {

pub struct LowLatency2DeviceStrategy<H> {
    pub monitors: HashMap<u64, SwapchainMonitor<H>>,
}

/// The spans of a present over all queues that count, in the order of the
/// queues.
pub open spec fn work_of<H>(queues: Seq<LowLatency2QueueStrategy<H>>, present_id: u64) -> Seq<
    SubmissionSpan<H>,
>
    decreases queues.len(),
{
    if queues.len() == 0 {
        Seq::empty()
    } else {
        let rest = work_of(queues.drop_last(), present_id);
        let q = queues.last();
        if !q.is_out_of_band && q.submissions@.contains_key(present_id) {
            rest.push(q.submissions@[present_id])
        } else {
            rest
        }
    }
}

/// `after` is `before` without the span of a present, unless the queue is out
/// of band.
pub open spec fn claimed<H>(
    before: LowLatency2QueueStrategy<H>,
    after: LowLatency2QueueStrategy<H>,
    present_id: u64,
) -> bool {
    &&& after.wf()
    &&& after.is_out_of_band == before.is_out_of_band
    &&& after.stale_present_ids == before.stale_present_ids
    &&& after.submissions@ == (if before.is_out_of_band {
        before.submissions@
    } else {
        before.submissions@.remove(present_id)
    })
}

/// Takes the spans of a present from every queue that is not out of band.
pub fn claim_work<H>(queues: &mut Vec<LowLatency2QueueStrategy<H>>, present_id: u64) -> (r: Vec<
    SubmissionSpan<H>,
>)
    requires
        forall|i: int| 0 <= i < old(queues)@.len() ==> (#[trigger] old(queues)@[i]).wf(),
    ensures
        r@ == work_of(old(queues)@, present_id),
        final(queues)@.len() == old(queues)@.len(),
        forall|i: int|
            0 <= i < old(queues)@.len() ==> claimed(
                old(queues)@[i],
                #[trigger] final(queues)@[i],
                present_id,
            ),
{
    let ghost before = queues@;
    let mut work: Vec<SubmissionSpan<H>> = Vec::new();
    let mut i: usize = 0;
    while i < queues.len()
        invariant
            i <= queues@.len(),
            queues@.len() == before.len(),
            forall|j: int| 0 <= j < before.len() ==> (#[trigger] before[j]).wf(),
            forall|j: int| 0 <= j < i ==> claimed(before[j], #[trigger] queues@[j], present_id),
            forall|j: int| i <= j < before.len() ==> #[trigger] queues@[j] == before[j],
            work@ == work_of(before.take(i as int), present_id),
        decreases queues@.len() - i,
    {
        let ghost now = queues@;
        proof {
            assert(before.take(i + 1).last() == before[i as int]);
            assert(before.take(i + 1).drop_last() =~= before.take(i as int));
            assert(queues@[i as int] == before[i as int]);
        }
        if !queues[i].is_out_of_band {
            if let Some(span) = queues[i].take_by_present_id(present_id) {
                work.push(span);
            }
        }
        proof {
            assert forall|j: int| 0 <= j < i + 1 implies claimed(
                before[j],
                #[trigger] queues@[j],
                present_id,
            ) by {
                if j < i {
                    assert(queues@[j] == now[j]);
                }
            }
            assert forall|j: int| i + 1 <= j < before.len() implies #[trigger] queues@[j]
                == before[j] by {
                assert(queues@[j] == now[j]);
            }
        }
        i += 1;
    }
    proof {
        assert(before.take(i as int) =~= before);
    }
    work
}

/// The pairs of swapchain and present id that a present is made of; 0 where
/// it carries no ids.
pub open spec fn pairs_of(swapchains: Seq<u64>, present_ids: Option<Seq<u64>>) -> Seq<(u64, u64)> {
    Seq::new(
        swapchains.len(),
        |i: int|
            (
                swapchains[i],
                match present_ids {
                    Some(ids) => ids[i],
                    None => 0,
                },
            ),
    )
}

/// Goes through a present and gives each swapchain with its present id.
pub fn forward_present(swapchains: &[u64], present_ids: Option<&[u64]>) -> (r: Vec<(u64, u64)>)
    requires
        present_ids matches Some(ids) ==> ids@.len() >= swapchains@.len(),
    ensures
        r@ == pairs_of(
            swapchains@,
            match present_ids {
                Some(ids) => Some(ids@),
                None => None,
            },
        ),
{
    let ghost ids = match present_ids {
        Some(ids) => Some(ids@),
        None => None,
    };
    let mut out: Vec<(u64, u64)> = Vec::new();
    let mut i: usize = 0;
    while i < swapchains.len()
        invariant
            i <= swapchains@.len(),
            present_ids matches Some(ids) ==> ids@.len() >= swapchains@.len(),
            ids == (match present_ids {
                Some(ids) => Some(ids@),
                None => None,
            }),
            out@ == pairs_of(swapchains@, ids).take(i as int),
        decreases swapchains@.len() - i,
    {
        let id: u64 = match present_ids {
            Some(ids) => ids[i],
            None => 0,
        };
        out.push((swapchains[i], id));
        proof {
            let all = pairs_of(swapchains@, ids);
            assert(all[i as int] == (swapchains@[i as int], id));
            assert(all.take(i + 1) =~= all.take(i as int).push(all[i as int]));
        }
        i += 1;
    }
    proof {
        assert(pairs_of(swapchains@, ids).take(i as int) =~= pairs_of(swapchains@, ids));
    }
    out
}

impl<H> LowLatency2DeviceStrategy<H> {
    /// Everything but one swapchain is as it was.
    pub open spec fn same_elsewhere(
        self,
        before: LowLatency2DeviceStrategy<H>,
        swapchain: u64,
    ) -> bool {
        self.monitors@.remove(swapchain) == before.monitors@.remove(swapchain)
    }

    /// `self` is `before` with a new monitor for a swapchain. Pacing is on
    /// unless the swapchain's creation says otherwise.
    pub open spec fn created(
        self,
        before: LowLatency2DeviceStrategy<H>,
        swapchain: u64,
        latency_mode_enable: Option<bool>,
    ) -> bool {
        let m = self.monitors@[swapchain];
        &&& self.same_elsewhere(before, swapchain)
        &&& self.monitors@.contains_key(swapchain)
        &&& m.requested == (match latency_mode_enable {
            Some(enable) => enable,
            None => true,
        })
        &&& m.present_delay_ns == 0
        &&& m.signals().len() == 0
        &&& m.pending_groups@.len() == 0
        &&& !m.stop
    }

    /// `self` is `before` with the monitor of a swapchain, if it has one,
    /// closing.
    pub open spec fn closing(self, before: LowLatency2DeviceStrategy<H>, swapchain: u64) -> bool {
        let was = before.monitors@[swapchain];
        let now = self.monitors@[swapchain];
        &&& self.same_elsewhere(before, swapchain)
        &&& self.monitors@.contains_key(swapchain) == before.monitors@.contains_key(swapchain)
        &&& before.monitors@.contains_key(swapchain) ==> {
            &&& now.stop
            &&& now.pending_signals == was.pending_signals
            &&& now.pending_groups == was.pending_groups
            &&& now.requested == was.requested
            &&& now.present_delay_ns == was.present_delay_ns
        }
    }

    pub fn new() -> (r: Self)
        ensures
            r.monitors@ == Map::<u64, SwapchainMonitor<H>>::empty(),
    {
        LowLatency2DeviceStrategy { monitors: HashMap::new() }
    }

    fn put(&mut self, swapchain: u64, monitor: SwapchainMonitor<H>)
        ensures
            final(self).monitors@ == old(self).monitors@.insert(swapchain, monitor),
            final(self).same_elsewhere(*old(self), swapchain),
    {
        broadcast use group_hash_axioms;

        self.monitors.insert(swapchain, monitor);
        proof {
            assert(self.monitors@.remove(swapchain) =~= old(self).monitors@.remove(swapchain));
        }
    }

    fn take(&mut self, swapchain: u64) -> (r: Option<SwapchainMonitor<H>>)
        ensures
            final(self).monitors@ == old(self).monitors@.remove(swapchain),
            final(self).same_elsewhere(*old(self), swapchain),
            match r {
                Some(m) => old(self).monitors@.contains_key(swapchain) && m
                    == old(self).monitors@[swapchain],
                None => !old(self).monitors@.contains_key(swapchain),
            },
    {
        broadcast use group_hash_axioms;

        let r = self.monitors.remove(&swapchain);
        proof {
            assert(self.monitors@ =~= old(self).monitors@.remove(swapchain));
            assert(self.monitors@.remove(swapchain) =~= old(self).monitors@.remove(swapchain));
        }
        r
    }

    /// The semaphores that the monitor of a swapchain, if it has one, still
    /// has to signal.
    pub open spec fn signals_of(self, swapchain: u64) -> Seq<SemaphoreSignal> {
        if self.monitors@.contains_key(swapchain) {
            self.monitors@[swapchain].signals()
        } else {
            Seq::empty()
        }
    }

    /// Gives a new swapchain its monitor. Pacing is on by default: any
    /// application that comes here wants it. Its creation may say otherwise.
    /// Where a monitor of the same swapchain gives way, its pending semaphores
    /// are handed back, to be signalled at once.
    pub fn notify_create_swapchain(
        &mut self,
        swapchain: u64,
        latency_mode_enable: Option<bool>,
    ) -> (r: Vec<SemaphoreSignal>)
        ensures
            final(self).created(*old(self), swapchain, latency_mode_enable),
            r@ == old(self).signals_of(swapchain),
    {
        let left: Vec<SemaphoreSignal> = match self.take(swapchain) {
            Some(monitor) => monitor.drain(),
            None => Vec::new(),
        };
        let requested = match latency_mode_enable {
            Some(enable) => enable,
            None => true,
        };
        let mut monitor: SwapchainMonitor<H> = SwapchainMonitor::new();
        monitor.update_params(requested, 0);
        self.put(swapchain, monitor);
        left
    }

    /// Closes the monitor of a swapchain. It goes away once its worker has
    /// made every signal that is still pending.
    pub fn notify_destroy_swapchain(&mut self, swapchain: u64)
        ensures
            final(self).closing(*old(self), swapchain),
    {
        if let Some(mut monitor) = self.take(swapchain) {
            monitor.close();
            self.put(swapchain, monitor);
        }
    }

    /// Changes how a swapchain is paced; without settings pacing is off.
    pub fn notify_latency_sleep_mode(&mut self, swapchain: u64, mode: Option<(bool, u32)>)
        ensures
            final(self).same_elsewhere(*old(self), swapchain),
            final(self).monitors@.contains_key(swapchain) == old(self).monitors@.contains_key(
                swapchain,
            ),
            old(self).monitors@.contains_key(swapchain) ==> {
                let was = old(self).monitors@[swapchain];
                let now = final(self).monitors@[swapchain];
                &&& now.requested == (mode matches Some(m) && m.0)
                &&& now.present_delay_ns == (match mode {
                    Some(m) => (m.1 * 1_000) as u64,
                    None => 0,
                })
                &&& now.pending_signals == was.pending_signals
                &&& now.pending_groups == was.pending_groups
                &&& now.stop == was.stop
            },
    {
        if let Some(mut monitor) = self.take(swapchain) {
            match mode {
                Some((enable, interval_us)) => monitor.update_params(enable, interval_us as u64),
                None => monitor.update_params(false, 0),
            }
            self.put(swapchain, monitor);
        }
    }

    /// Takes a semaphore that the application sleeps on. Where the swapchain
    /// has no monitor it is signalled at once: losing it would hang the
    /// application.
    pub fn notify_latency_sleep_nv(&mut self, swapchain: u64, signal: SemaphoreSignal) -> (r:
        Notified)
        ensures
            final(self).same_elsewhere(*old(self), swapchain),
            final(self).monitors@.contains_key(swapchain) == old(self).monitors@.contains_key(
                swapchain,
            ),
            !old(self).monitors@.contains_key(swapchain) ==> r == Notified::SignalNow(signal),
            old(self).monitors@.contains_key(swapchain) ==> {
                let was = old(self).monitors@[swapchain];
                let now = final(self).monitors@[swapchain];
                &&& !was.requested ==> r == Notified::SignalNow(signal) && now == was
                &&& was.requested ==> {
                    &&& r == Notified::Queued
                    &&& now.signals() == was.signals().push(signal)
                    &&& now.pending_signals@.drop_last() == was.pending_signals@
                    &&& now.pending_signals@.last().groups == was.pending_groups
                    &&& now.pending_groups@.len() == 0
                    &&& now.requested
                    &&& now.present_delay_ns == was.present_delay_ns
                    &&& now.stop == was.stop
                }
            },
    {
        match self.take(swapchain) {
            Some(mut monitor) => {
                let r = monitor.notify_semaphore(signal);
                self.put(swapchain, monitor);
                r
            },
            None => Notified::SignalNow(signal),
        }
    }

    /// Claims the work of a present from the device's queues and attaches it
    /// to the monitor of its swapchain.
    pub fn submit_swapchain_present_id(
        &mut self,
        queues: &mut Vec<LowLatency2QueueStrategy<H>>,
        swapchain: u64,
        present_id: u64,
    )
        requires
            forall|i: int| 0 <= i < old(queues)@.len() ==> (#[trigger] old(queues)@[i]).wf(),
        ensures
            final(queues)@.len() == old(queues)@.len(),
            forall|i: int|
                0 <= i < old(queues)@.len() ==> claimed(
                    old(queues)@[i],
                    #[trigger] final(queues)@[i],
                    present_id,
                ),
            final(self).same_elsewhere(*old(self), swapchain),
            final(self).monitors@.contains_key(swapchain) == old(self).monitors@.contains_key(
                swapchain,
            ),
            old(self).monitors@.contains_key(swapchain) ==> {
                let was = old(self).monitors@[swapchain];
                let now = final(self).monitors@[swapchain];
                let work = work_of(old(queues)@, present_id);
                &&& now.pending_signals == was.pending_signals
                &&& now.requested == was.requested
                &&& now.present_delay_ns == was.present_delay_ns
                &&& now.stop == was.stop
                &&& !was.requested ==> now.pending_groups@ == was.pending_groups@
                &&& was.requested ==> {
                    &&& now.pending_groups@.len() == was.pending_groups@.len() + 1
                    &&& now.pending_groups@.drop_last() == was.pending_groups@
                    &&& now.pending_groups@.last().present_id == present_id
                    &&& now.pending_groups@.last().spans@ == work
                }
            },
    {
        let work = claim_work(queues, present_id);
        if let Some(mut monitor) = self.take(swapchain) {
            let ghost was = monitor;
            monitor.attach_work(present_id, work);
            proof {
                if was.requested {
                    assert(monitor.pending_groups@.drop_last() =~= was.pending_groups@);
                }
            }
            self.put(swapchain, monitor);
        }
    }

    /// What the worker of a swapchain does next. With its exit the monitor is
    /// gone.
    pub fn step(&mut self, swapchain: u64, layer_delay_ns: u64) -> (r: MonitorStep<H>)
        ensures
            final(self).same_elsewhere(*old(self), swapchain),
            !old(self).monitors@.contains_key(swapchain) ==> r is Exit,
            r is Exit ==> !final(self).monitors@.contains_key(swapchain),
            old(self).monitors@.contains_key(swapchain) ==> {
                let was = old(self).monitors@[swapchain];
                let now = final(self).monitors@[swapchain];
                &&& r !is Exit ==> {
                    &&& final(self).monitors@.contains_key(swapchain)
                    &&& now.pending_signals@ == (if r is Park {
                        was.pending_signals@
                    } else {
                        was.pending_signals@.drop_first()
                    })
                    &&& now.pending_groups == was.pending_groups
                    &&& now.requested == was.requested
                    &&& now.present_delay_ns == was.present_delay_ns
                    &&& now.stop == was.stop
                }
                &&& match r {
                    MonitorStep::Exit => was.stop && was.signals().len() == 0,
                    MonitorStep::Park => !was.stop && was.signals().len() == 0,
                    MonitorStep::Serve { pending, delay_ns } => {
                        &&& !was.stop
                        &&& was.signals().len() > 0
                        &&& pending == was.pending_signals@[0]
                        &&& delay_ns == swapchain_monitor::larger(
                            was.present_delay_ns,
                            layer_delay_ns,
                        )
                    },
                    MonitorStep::Drain(signal) => {
                        &&& was.stop
                        &&& was.signals().len() > 0
                        &&& signal == was.signals()[0]
                    },
                }
            },
    {
        match self.take(swapchain) {
            Some(mut monitor) => {
                let r = monitor.step(layer_delay_ns);
                match &r {
                    MonitorStep::Exit => {},
                    _ => {
                        self.put(swapchain, monitor);
                    },
                }
                r
            },
            None => MonitorStep::Exit,
        }
    }
}

/// Whether a queue has work of a present that counts.
pub open spec fn contributes<H>(present_id: u64) -> spec_fn(LowLatency2QueueStrategy<H>) -> bool {
    |q: LowLatency2QueueStrategy<H>| !q.is_out_of_band && q.submissions@.contains_key(present_id)
}

/// The span of a present in a queue.
pub open spec fn span_in<H>(present_id: u64) -> spec_fn(LowLatency2QueueStrategy<H>) -> SubmissionSpan<
    H,
> {
    |q: LowLatency2QueueStrategy<H>| q.submissions@[present_id]
}

proof fn lemma_work_filters<H>(queues: Seq<LowLatency2QueueStrategy<H>>, present_id: u64)
    ensures
        work_of(queues, present_id) == queues.filter(contributes(present_id)).map_values(
            span_in(present_id),
        ),
    decreases queues.len(),
{
    reveal(Seq::filter);
    if queues.len() > 0 {
        let rest = queues.drop_last();
        lemma_work_filters(rest, present_id);
        let kept = rest.filter(contributes(present_id));
        let f = span_in::<H>(present_id);
        assert(kept.push(queues.last()).map_values(f) =~= kept.map_values(f).push(
            f(queues.last()),
        ));
    } else {
        assert(queues.filter(contributes(present_id)).map_values(span_in(present_id))
            =~= Seq::empty());
    }
}

/// Every queue that is in band and has work of a present gives it, once and
/// in the order of the queues, and has it no longer. A queue out of band gives
/// nothing and keeps what it has, and no queue loses the work of another
/// present.
pub proof fn law_every_queue_gives_its_work<H>(
    queues: &mut Vec<LowLatency2QueueStrategy<H>>,
    present_id: u64,
    r: Vec<SubmissionSpan<H>>,
    i: int,
    id: u64,
)
    requires
        forall|i: int| 0 <= i < old(queues)@.len() ==> (#[trigger] old(queues)@[i]).wf(),
        call_ensures(claim_work::<H>, (queues, present_id), r),
        0 <= i < old(queues)@.len(),
    ensures
        r@ == old(queues)@.filter(contributes(present_id)).map_values(span_in(present_id)),
        final(queues)@.len() == old(queues)@.len(),
        ({
            let was = old(queues)@[i];
            let now = final(queues)@[i];
            &&& now.is_out_of_band == was.is_out_of_band
            &&& !was.is_out_of_band && id == present_id ==> !now.submissions@.contains_key(id)
            &&& was.is_out_of_band || id != present_id ==> {
                &&& now.submissions@.contains_key(id) == was.submissions@.contains_key(id)
                &&& was.submissions@.contains_key(id) ==> now.submissions@[id]
                    == was.submissions@[id]
            }
        }),
{
    lemma_work_filters(old(queues)@, present_id);
    assert(claimed(old(queues)@[i], final(queues)@[i], present_id));
}

/// Each swapchain of a present goes with its own present id, in order, and
/// with 0 where the present carries no ids.
pub proof fn law_swapchains_go_with_their_ids(
    swapchains: &[u64],
    present_ids: Option<&[u64]>,
    r: Vec<(u64, u64)>,
    i: int,
)
    requires
        present_ids matches Some(ids) ==> ids@.len() >= swapchains@.len(),
        call_ensures(forward_present, (swapchains, present_ids), r),
        0 <= i < swapchains@.len(),
    ensures
        r@.len() == swapchains@.len(),
        r@[i].0 == swapchains@[i],
        present_ids matches Some(ids) ==> r@[i].1 == ids@[i],
        present_ids is None ==> r@[i].1 == 0,
{
}

/// Whether the monitor of another swapchain is as it was.
pub open spec fn is_untouched<H>(
    after: LowLatency2DeviceStrategy<H>,
    before: LowLatency2DeviceStrategy<H>,
    other: u64,
) -> bool {
    &&& after.monitors@.contains_key(other) == before.monitors@.contains_key(other)
    &&& before.monitors@.contains_key(other) ==> after.monitors@[other] == before.monitors@[other]
}

proof fn lemma_elsewhere<H>(
    after: LowLatency2DeviceStrategy<H>,
    before: LowLatency2DeviceStrategy<H>,
    swapchain: u64,
    other: u64,
)
    requires
        after.same_elsewhere(before, swapchain),
        other != swapchain,
    ensures
        is_untouched(after, before, other),
{
    let a = after.monitors@.remove(swapchain);
    let b = before.monitors@.remove(swapchain);
    assert(a.contains_key(other) == b.contains_key(other));
    if b.contains_key(other) {
        assert(a[other] == b[other]);
    }
}

/// A new swapchain is paced unless its creation says otherwise. Nothing waits
/// in its monitor, and it has no delay of its own yet. The semaphores of a
/// monitor that it replaces are all given back, and no other swapchain is
/// touched.
pub proof fn law_new_swapchain_is_paced<H>(
    s: &mut LowLatency2DeviceStrategy<H>,
    swapchain: u64,
    latency_mode_enable: Option<bool>,
    r: Vec<SemaphoreSignal>,
    other: u64,
)
    requires
        call_ensures(
            LowLatency2DeviceStrategy::<H>::notify_create_swapchain,
            (s, swapchain, latency_mode_enable),
            r,
        ),
    ensures
        other != swapchain ==> is_untouched(*final(s), *old(s), other),
        final(s).monitors@.contains_key(swapchain),
        ({
            let m = final(s).monitors@[swapchain];
            &&& m.requested == (latency_mode_enable != Some(false))
            &&& m.present_delay_ns == 0
            &&& m.pending_signals@.len() == 0
            &&& m.pending_groups@.len() == 0
            &&& !m.stop
        }),
        old(s).monitors@.contains_key(swapchain) ==> {
            let was = old(s).monitors@[swapchain].pending_signals@;
            &&& r@.len() == was.len()
            &&& forall|i: int| 0 <= i < was.len() ==> r@[i] == (#[trigger] was[i]).signal
        },
        !old(s).monitors@.contains_key(swapchain) ==> r@.len() == 0,
{
    if other != swapchain {
        lemma_elsewhere(*final(s), *old(s), swapchain, other);
    }
    assert(final(s).monitors@[swapchain].signals().len() == final(
        s).monitors@[swapchain].pending_signals@.len());
}

/// A swapchain that goes away closes its monitor, which keeps everything that
/// waits; no other swapchain is touched.
pub proof fn law_destroyed_swapchain_keeps_its_signals<H>(
    s: &mut LowLatency2DeviceStrategy<H>,
    swapchain: u64,
    other: u64,
)
    requires
        call_ensures(
            LowLatency2DeviceStrategy::<H>::notify_destroy_swapchain,
            (s, swapchain),
            (),
        ),
    ensures
        other != swapchain ==> is_untouched(*final(s), *old(s), other),
        final(s).monitors@.contains_key(swapchain) == old(s).monitors@.contains_key(swapchain),
        old(s).monitors@.contains_key(swapchain) ==> {
            let was = old(s).monitors@[swapchain];
            let now = final(s).monitors@[swapchain];
            &&& now.stop
            &&& now.pending_signals@ == was.pending_signals@
            &&& now.signals() == was.signals()
        },
{
    if other != swapchain {
        lemma_elsewhere(*final(s), *old(s), swapchain, other);
    }
}

/// The mode of a swapchain is what the application says: on or off, with its
/// interval in microseconds kept in nanoseconds. Without settings it is off.
/// What waits goes on waiting, and no other swapchain is touched.
pub proof fn law_sleep_mode_is_as_asked_for<H>(
    s: &mut LowLatency2DeviceStrategy<H>,
    swapchain: u64,
    mode: Option<(bool, u32)>,
    other: u64,
)
    requires
        call_ensures(
            LowLatency2DeviceStrategy::<H>::notify_latency_sleep_mode,
            (s, swapchain, mode),
            (),
        ),
    ensures
        other != swapchain ==> is_untouched(*final(s), *old(s), other),
        final(s).monitors@.contains_key(swapchain) == old(s).monitors@.contains_key(swapchain),
        old(s).monitors@.contains_key(swapchain) ==> {
            let was = old(s).monitors@[swapchain];
            let now = final(s).monitors@[swapchain];
            &&& mode is None ==> !now.requested && now.present_delay_ns == 0
            &&& mode matches Some(m) ==> now.requested == m.0 && now.present_delay_ns == m.1 * 1_000
            &&& now.pending_signals@ == was.pending_signals@
            &&& now.pending_groups@ == was.pending_groups@
            &&& now.stop == was.stop
        },
{
    if other != swapchain {
        lemma_elsewhere(*final(s), *old(s), swapchain, other);
    }
}

/// No semaphore is lost on its way in: it is signalled at once, or it waits
/// behind all that wait already. Only a swapchain that is paced has it wait,
/// and then behind all work that has been attached.
pub proof fn law_sleep_loses_no_semaphore<H>(
    s: &mut LowLatency2DeviceStrategy<H>,
    swapchain: u64,
    signal: SemaphoreSignal,
    r: Notified,
    other: u64,
)
    requires
        call_ensures(
            LowLatency2DeviceStrategy::<H>::notify_latency_sleep_nv,
            (s, swapchain, signal),
            r,
        ),
    ensures
        other != swapchain ==> is_untouched(*final(s), *old(s), other),
        r == Notified::SignalNow(signal) || r is Queued,
        r is Queued <==> old(s).monitors@.contains_key(swapchain)
            && old(s).monitors@[swapchain].requested,
        r is SignalNow ==> final(s).signals_of(swapchain) == old(s).signals_of(swapchain),
        r is Queued ==> {
            let was = old(s).monitors@[swapchain];
            let now = final(s).monitors@[swapchain];
            &&& final(s).signals_of(swapchain) == old(s).signals_of(swapchain).push(signal)
            &&& now.pending_signals@.last().signal == signal
            &&& now.pending_signals@.last().groups@ == was.pending_groups@
            &&& now.pending_groups@.len() == 0
        },
{
    if other != swapchain {
        lemma_elsewhere(*final(s), *old(s), swapchain, other);
    }
    if r is Queued {
        let now = final(s).monitors@[swapchain];
        assert(now.signals().last() == signal);
        assert(now.signals().len() == now.pending_signals@.len());
    }
}

/// The work of a present over all queues is attached behind what is attached
/// already, under its present id, where the swapchain is paced. Otherwise
/// nothing is attached. Nothing that waits changes.
pub proof fn law_present_attaches_its_work<H>(
    s: &mut LowLatency2DeviceStrategy<H>,
    queues: &mut Vec<LowLatency2QueueStrategy<H>>,
    swapchain: u64,
    present_id: u64,
    other: u64,
)
    requires
        forall|i: int| 0 <= i < old(queues)@.len() ==> (#[trigger] old(queues)@[i]).wf(),
        call_ensures(
            LowLatency2DeviceStrategy::<H>::submit_swapchain_present_id,
            (s, queues, swapchain, present_id),
            (),
        ),
    ensures
        other != swapchain ==> is_untouched(*final(s), *old(s), other),
        forall|i: int|
            0 <= i < old(queues)@.len() && !old(queues)@[i].is_out_of_band ==> !(
            #[trigger] final(queues)@[i]).submissions@.contains_key(present_id),
        old(s).monitors@.contains_key(swapchain) ==> {
            let was = old(s).monitors@[swapchain];
            let now = final(s).monitors@[swapchain];
            &&& now.pending_signals@ == was.pending_signals@
            &&& !was.requested ==> now.pending_groups@ == was.pending_groups@
            &&& was.requested ==> {
                let last = now.pending_groups@.last();
                &&& now.pending_groups@.len() == was.pending_groups@.len() + 1
                &&& now.pending_groups@.drop_last() == was.pending_groups@
                &&& last.present_id == present_id
                &&& last.spans@ == old(queues)@.filter(contributes(present_id)).map_values(
                    span_in(present_id),
                )
            }
        },
{
    lemma_work_filters(old(queues)@, present_id);
    if other != swapchain {
        lemma_elsewhere(*final(s), *old(s), swapchain, other);
    }
    assert forall|i: int|
        0 <= i < old(queues)@.len() && !old(queues)@[i].is_out_of_band implies !(
    #[trigger] final(queues)@[i]).submissions@.contains_key(present_id) by {
        assert(claimed(old(queues)@[i], final(queues)@[i], present_id));
    }
}

/// No semaphore is lost on its way out: each step hands the oldest one over
/// and leaves the others, and the worker ends only once none is left and the
/// monitor is closed or gone. A semaphore is served with its work and the
/// stricter delay, and signalled at once where the monitor is closed.
pub proof fn law_worker_loses_no_semaphore<H>(
    s: &mut LowLatency2DeviceStrategy<H>,
    swapchain: u64,
    layer_delay_ns: u64,
    r: MonitorStep<H>,
    other: u64,
)
    requires
        call_ensures(
            LowLatency2DeviceStrategy::<H>::step,
            (s, swapchain, layer_delay_ns),
            r,
        ),
    ensures
        other != swapchain ==> is_untouched(*final(s), *old(s), other),
        r is Park || r is Exit ==> old(s).signals_of(swapchain).len() == 0
            && final(s).signals_of(swapchain).len() == 0,
        r is Park ==> old(s).monitors@.contains_key(swapchain) && !old(s).monitors@[swapchain].stop,
        r is Exit ==> !old(s).monitors@.contains_key(swapchain) || old(s).monitors@[swapchain].stop,
        r is Exit <==> !final(s).monitors@.contains_key(swapchain),
        r matches MonitorStep::Drain(signal) ==> {
            &&& old(s).monitors@[swapchain].stop
            &&& seq![signal] + final(s).signals_of(swapchain) == old(s).signals_of(swapchain)
        },
        r matches MonitorStep::Serve { pending, delay_ns } ==> {
            let was = old(s).monitors@[swapchain];
            &&& !was.stop
            &&& seq![pending.signal] + final(s).signals_of(swapchain) == old(s).signals_of(
                swapchain,
            )
            &&& pending.groups == was.pending_signals@[0].groups
            &&& delay_ns >= layer_delay_ns
            &&& delay_ns >= was.present_delay_ns
            &&& delay_ns == layer_delay_ns || delay_ns == was.present_delay_ns
        },
{
    if other != swapchain {
        lemma_elsewhere(*final(s), *old(s), swapchain, other);
    }
    if old(s).monitors@.contains_key(swapchain) {
        let was = old(s).monitors@[swapchain];
        assert(was.signals().len() == was.pending_signals@.len());
        if !(r is Exit) {
            let now = final(s).monitors@[swapchain];
            assert(now.signals().len() == now.pending_signals@.len());
            if r is Serve || r is Drain {
                assert(seq![was.signals()[0]] + now.signals() =~= was.signals());
            }
        }
    }
}

} // verus!
