//! How the layer paces an application.
//!
//! Each device has one strategy, depending on which of the two extensions the
//! layer shows, and each of its queues has the counterpart of that.

pub mod anti_lag;
pub mod low_latency2;

use vstd::prelude::*;
use crate::strategy::anti_lag::{AntiLagDeviceStrategy, AntiLagQueueStrategy};
use crate::strategy::low_latency2::device::LowLatency2DeviceStrategy;
use crate::strategy::low_latency2::queue::LowLatency2QueueStrategy;
use crate::strategy::low_latency2::semaphore_signal::SemaphoreSignal;
use crate::submission_span;

verus! {

pub enum DeviceStrategy<H> {
    AntiLag(AntiLagDeviceStrategy),
    LowLatency2(LowLatency2DeviceStrategy<H>),
}

pub enum QueueStrategy<H> {
    AntiLag(AntiLagQueueStrategy<H>),
    LowLatency2(LowLatency2QueueStrategy<H>),
}

impl<H> DeviceStrategy<H> {
    pub fn as_anti_lag(&self) -> (r: Option<&AntiLagDeviceStrategy>)
        ensures
            r == (match self {
                DeviceStrategy::AntiLag(s) => Some(s),
                DeviceStrategy::LowLatency2(_) => None,
            }),
    {
        match self {
            DeviceStrategy::AntiLag(s) => Some(s),
            DeviceStrategy::LowLatency2(_) => None,
        }
    }

    pub fn as_low_latency2(&self) -> (r: Option<&LowLatency2DeviceStrategy<H>>)
        ensures
            r == (match self {
                DeviceStrategy::AntiLag(_) => None,
                DeviceStrategy::LowLatency2(s) => Some(s),
            }),
    {
        match self {
            DeviceStrategy::AntiLag(_) => None,
            DeviceStrategy::LowLatency2(s) => Some(s),
        }
    }

    /// Only the one strategy has something to do for a new swapchain. Gives
    /// the semaphores that are to be signalled at once.
    pub fn notify_create_swapchain(
        &mut self,
        swapchain: u64,
        latency_mode_enable: Option<bool>,
    ) -> (r: Vec<SemaphoreSignal>)
        ensures
            *old(self) is AntiLag ==> *final(self) == *old(self) && r@.len() == 0,
            *old(self) is LowLatency2 ==> {
                &&& r@ == old(self)->LowLatency2_0.signals_of(swapchain)
                &&& *final(self) is LowLatency2
                &&& final(self)->LowLatency2_0.created(
                    old(self)->LowLatency2_0,
                    swapchain,
                    latency_mode_enable,
                )
            },
    {
        match self {
            DeviceStrategy::AntiLag(_) => Vec::new(),
            DeviceStrategy::LowLatency2(s) => s.notify_create_swapchain(
                swapchain,
                latency_mode_enable,
            ),
        }
    }

    /// Only the one strategy has something to close with a swapchain.
    pub fn notify_destroy_swapchain(&mut self, swapchain: u64)
        ensures
            *old(self) is AntiLag ==> *final(self) == *old(self),
            *old(self) is LowLatency2 ==> *final(self) is LowLatency2 && final(
                self)->LowLatency2_0.closing(old(self)->LowLatency2_0, swapchain),
    {
        match self {
            DeviceStrategy::AntiLag(_) => {},
            DeviceStrategy::LowLatency2(s) => {
                s.notify_destroy_swapchain(swapchain);
            },
        }
    }
}

impl<H> QueueStrategy<H> {
    pub open spec fn wf(self) -> bool {
        match self {
            QueueStrategy::AntiLag(_) => true,
            QueueStrategy::LowLatency2(s) => s.wf(),
        }
    }

    /// Tracks a submission: under its present id, or in the one span.
    pub fn notify_submit(&mut self, present_id: u64, handle: H)
        requires
            old(self).wf(),
        ensures
            final(self).wf(),
            *old(self) is AntiLag ==> *final(self) is AntiLag && final(self)->AntiLag_0.span
                == Some(submission_span::extended(old(self)->AntiLag_0.span, handle)),
            *old(self) is LowLatency2 ==> {
                &&& *final(self) is LowLatency2
                &&& final(self)->LowLatency2_0.model() == old(
                    self)->LowLatency2_0.model().submitted(present_id, handle)
                &&& final(self)->LowLatency2_0.is_out_of_band == old(
                    self)->LowLatency2_0.is_out_of_band
            },
    {
        match self {
            QueueStrategy::AntiLag(s) => s.notify_submit(handle),
            QueueStrategy::LowLatency2(s) => s.notify_submit(present_id, handle),
        }
    }

    /// Marks a queue whose work is not that of a frame.
    pub fn mark_out_of_band(&mut self)
        requires
            old(self).wf(),
        ensures
            final(self).wf(),
            *old(self) is AntiLag ==> *final(self) == *old(self),
            *old(self) is LowLatency2 ==> {
                &&& *final(self) is LowLatency2
                &&& final(self)->LowLatency2_0.is_out_of_band
                &&& final(self)->LowLatency2_0.model() == old(self)->LowLatency2_0.model()
            },
    {
        match self {
            QueueStrategy::AntiLag(_) => {},
            QueueStrategy::LowLatency2(s) => s.mark_out_of_band(),
        }
    }
}

/// The strategy of a device: the configuration says which extension is shown.
pub fn make_device_strategy<H>(expose_reflex: bool) -> (r: DeviceStrategy<H>)
    ensures
        r is LowLatency2 == expose_reflex,
        r matches DeviceStrategy::LowLatency2(s) ==> s.monitors@.dom() == Set::<u64>::empty(),
        r matches DeviceStrategy::AntiLag(s) ==> s.frame_index is None && !s.enabled,
{
    if expose_reflex {
        DeviceStrategy::LowLatency2(LowLatency2DeviceStrategy::new())
    } else {
        DeviceStrategy::AntiLag(AntiLagDeviceStrategy::new())
    }
}

/// The strategy of a queue.
pub fn make_queue_strategy<H>(expose_reflex: bool) -> (r: QueueStrategy<H>)
    ensures
        r.wf(),
        r is LowLatency2 == expose_reflex,
        r matches QueueStrategy::LowLatency2(s) ==> s.submissions@.dom() == Set::<u64>::empty()
            && s.stale_present_ids@ == Seq::<u64>::empty() && !s.is_out_of_band,
        r matches QueueStrategy::AntiLag(s) ==> s.span is None,
{
    if expose_reflex {
        QueueStrategy::LowLatency2(LowLatency2QueueStrategy::new())
    } else {
        QueueStrategy::AntiLag(AntiLagQueueStrategy::new())
    }
}

/// The layer shows one of the two extensions, and the strategies of a device
/// and its queues are those of the same one.
pub proof fn law_strategies_match<H>(
    expose_reflex: bool,
    device: DeviceStrategy<H>,
    queue: QueueStrategy<H>,
)
    requires
        call_ensures(make_device_strategy::<H>, (expose_reflex,), device),
        call_ensures(make_queue_strategy::<H>, (expose_reflex,), queue),
    ensures
        expose_reflex ==> device is LowLatency2 && queue is LowLatency2,
        !expose_reflex ==> device is AntiLag && queue is AntiLag,
        queue matches QueueStrategy::LowLatency2(q) ==> !q.is_out_of_band
            && q.submissions@.dom() == Set::<u64>::empty(),
        device matches DeviceStrategy::AntiLag(d) ==> !d.enabled,
{
}

/// A submission reaches the span that the strategy of its queue keeps: its
/// handle is the last there.
pub proof fn law_submission_reaches_its_span<H>(
    q: &mut QueueStrategy<H>,
    present_id: u64,
    handle: H,
)
    requires
        old(q).wf(),
        call_ensures(QueueStrategy::<H>::notify_submit, (q, present_id, handle), ()),
    ensures
        *old(q) is AntiLag <==> *final(q) is AntiLag,
        *old(q) is AntiLag ==> (final(q)->AntiLag_0.span matches Some(s) && s.last() == handle
            && s.head == (match old(q)->AntiLag_0.span {
            Some(was) => was.head,
            None => handle,
        })),
        *old(q) is LowLatency2 && old(q)->LowLatency2_0.stale_present_ids@.len() < 50 ==> {
            let m = final(q)->LowLatency2_0.submissions@;
            m.contains_key(present_id) && m[present_id].last() == handle
        },
{
    if *old(q) is LowLatency2 {
        assert(final(q)->LowLatency2_0.model().submissions.contains_key(present_id) || old(
            q)->LowLatency2_0.stale_present_ids@.len() >= 50);
    }
}

/// A queue out of band stays what it is otherwise, and its work counts for no
/// present from then on.
pub proof fn law_out_of_band_is_only_a_mark<H>(q: &mut QueueStrategy<H>)
    requires
        old(q).wf(),
        call_ensures(QueueStrategy::<H>::mark_out_of_band, (q,), ()),
    ensures
        *old(q) is AntiLag ==> *final(q) == *old(q),
        *old(q) is LowLatency2 ==> {
            &&& *final(q) is LowLatency2
            &&& final(q)->LowLatency2_0.is_out_of_band
            &&& final(q)->LowLatency2_0.submissions@ == old(q)->LowLatency2_0.submissions@
        },
{
    if *old(q) is LowLatency2 {
        assert(final(q)->LowLatency2_0.model().submissions == old(
            q)->LowLatency2_0.model().submissions);
    }
}

/// Each of the two views of a device's strategy finds it or does not, and
/// exactly one of them does.
pub proof fn law_one_view_finds_the_strategy<H>(
    s: &DeviceStrategy<H>,
    a: Option<&AntiLagDeviceStrategy>,
    b: Option<&LowLatency2DeviceStrategy<H>>,
)
    requires
        call_ensures(DeviceStrategy::<H>::as_anti_lag, (s,), a),
        call_ensures(DeviceStrategy::<H>::as_low_latency2, (s,), b),
    ensures
        a is Some != b is Some,
        a matches Some(x) ==> *s == DeviceStrategy::<H>::AntiLag(*x),
        b matches Some(x) ==> *s == DeviceStrategy::LowLatency2(*x),
{
}

/// Only the one strategy has monitors: a new swapchain gets one, which is paced
/// unless its creation says otherwise, and a swapchain that goes away closes
/// it. The other strategy is not touched and has nothing to signal.
pub proof fn law_swapchains_concern_one_strategy<H>(
    a: &mut DeviceStrategy<H>,
    swapchain: u64,
    latency_mode_enable: Option<bool>,
    r: Vec<SemaphoreSignal>,
    b: &mut DeviceStrategy<H>,
)
    requires
        call_ensures(
            DeviceStrategy::<H>::notify_create_swapchain,
            (a, swapchain, latency_mode_enable),
            r,
        ),
        *old(b) == *final(a),
        call_ensures(DeviceStrategy::<H>::notify_destroy_swapchain, (b, swapchain), ()),
    ensures
        *old(a) is AntiLag ==> *final(b) == *old(a) && r@.len() == 0,
        *old(a) is LowLatency2 ==> {
            &&& *final(a) is LowLatency2
            &&& *final(b) is LowLatency2
            &&& r@ == old(a)->LowLatency2_0.signals_of(swapchain)
            &&& final(a)->LowLatency2_0.monitors@.contains_key(swapchain)
            &&& final(a)->LowLatency2_0.monitors@[swapchain].requested == (latency_mode_enable
                != Some(false))
            &&& !final(a)->LowLatency2_0.monitors@[swapchain].stop
            &&& final(b)->LowLatency2_0.monitors@.contains_key(swapchain)
            &&& final(b)->LowLatency2_0.monitors@[swapchain].stop
        },
{
}

} // verus!
