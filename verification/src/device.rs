//! What the layer settles for a device.

use vstd::prelude::*;
use crate::config;
use crate::vk;

verus! {

/// The longer of two delays.
pub open spec fn stricter(a: u64, b: u64) -> u64 {
    if a >= b {
        a
    } else {
        b
    }
}

/// What paces a device: an explicit cap, and a target below the refresh
/// rate of a display that adapts to the frame rate.
#[derive(Debug, Clone, Copy)]
pub struct DeviceContext {
    pub fps_cap: u32,
    pub vrr_enabled: bool,
    pub vrr_offset_hz: u32,
    /// The delay that follows from the display; 0 until it has been asked.
    pub vrr_target_delay_ns: u64,
}

/// The delay for a target a little slower than the display refreshes, which
/// keeps the frame rate inside the display's window.
pub open spec fn vrr_delay(refresh_duration_ns: u64, offset_hz: u32) -> u64
    recommends
        refresh_duration_ns > 0,
{
    let refresh_hz = 1_000_000_000int / refresh_duration_ns as int;
    let target_hz = if refresh_hz - offset_hz >= 1 {
        refresh_hz - offset_hz
    } else {
        1
    };
    (1_000_000_000int / target_hz) as u64
}

impl DeviceContext {
    pub fn new(fps_cap: u32, vrr_enabled: bool, vrr_offset_hz: u32) -> (r: Self)
        ensures
            r == (DeviceContext { fps_cap, vrr_enabled, vrr_offset_hz, vrr_target_delay_ns: 0 }),
    {
        DeviceContext { fps_cap, vrr_enabled, vrr_offset_hz, vrr_target_delay_ns: 0 }
    }

    /// The shortest time between two frames: the stricter of the cap and the
    /// display's target.
    pub fn effective_min_delay_ns(&self) -> (r: u64)
        ensures
            r == stricter(config::cap_delay_ns(self.fps_cap), self.vrr_target_delay_ns),
    {
        let cap: u64 = if self.fps_cap == 0 {
            0
        } else {
            1_000_000_000 / self.fps_cap as u64
        };
        if cap >= self.vrr_target_delay_ns {
            cap
        } else {
            self.vrr_target_delay_ns
        }
    }

    /// Whether the display still has to be asked for its refresh duration.
    pub fn needs_vrr_target(&self, can_query: bool) -> (r: bool)
        ensures
            r == (self.vrr_enabled && self.vrr_target_delay_ns == 0 && can_query),
    {
        self.vrr_enabled && self.vrr_target_delay_ns == 0 && can_query
    }

    /// Takes the display's answer. Once there is a target it stays.
    pub fn ensure_vrr_target(&mut self, result: i32, refresh_duration_ns: u64)
        ensures
            final(self).fps_cap == old(self).fps_cap,
            final(self).vrr_enabled == old(self).vrr_enabled,
            final(self).vrr_offset_hz == old(self).vrr_offset_hz,
            final(self).vrr_target_delay_ns == (if old(self).vrr_enabled && old(
                self).vrr_target_delay_ns == 0 && result == vk::SUCCESS && refresh_duration_ns
                != 0 {
                vrr_delay(refresh_duration_ns, old(self).vrr_offset_hz)
            } else {
                old(self).vrr_target_delay_ns
            }),
    {
        if !self.vrr_enabled {
            return;
        }
        if self.vrr_target_delay_ns != 0 {
            return;
        }
        if result != vk::SUCCESS || refresh_duration_ns == 0 {
            return;
        }
        let refresh_hz: u64 = 1_000_000_000 / refresh_duration_ns;
        let offset_hz: u64 = self.vrr_offset_hz as u64;
        let target_hz: u64 = if refresh_hz > offset_hz {
            refresh_hz - offset_hz
        } else {
            1
        };
        self.vrr_target_delay_ns = 1_000_000_000 / target_hz;
    }
}

/// How a device learns when a frame reached the display.
#[derive(Debug, Clone, Copy, PartialEq, Eq, Structural)]
pub enum PresentWorker {
    Absent,
    /// By waiting for each present.
    Wait,
    /// By polling for past presentation times.
    Poll,
}

/// What is set up for a device.
#[derive(Debug, Clone, Copy, PartialEq, Eq, Structural)]
pub struct DevicePlan {
    pub has_clock: bool,
    pub has_strategy: bool,
    pub worker: PresentWorker,
    /// Whether the marker history feeds the telemetry.
    pub reports_latency: bool,
}

/// Plans the setup of a device. A device on which the layer is off gets
/// nothing. The precise wait comes before the poll, and both need the present
/// ids that only the one strategy has.
pub fn plan_device(
    layer_enabled: bool,
    expose_reflex: bool,
    has_calibrated_timestamps: bool,
    can_wait: bool,
    can_poll: bool,
) -> (r: DevicePlan)
    ensures
        r.has_clock == (layer_enabled && has_calibrated_timestamps),
        r.has_strategy == layer_enabled,
        r.reports_latency == layer_enabled,
        r.worker == (if !layer_enabled || !expose_reflex {
            PresentWorker::Absent
        } else if can_wait {
            PresentWorker::Wait
        } else if can_poll {
            PresentWorker::Poll
        } else {
            PresentWorker::Absent
        }),
{
    let worker = if !layer_enabled || !expose_reflex {
        PresentWorker::Absent
    } else if can_wait {
        PresentWorker::Wait
    } else if can_poll {
        PresentWorker::Poll
    } else {
        PresentWorker::Absent
    };
    DevicePlan {
        has_clock: layer_enabled && has_calibrated_timestamps,
        has_strategy: layer_enabled,
        worker,
        reports_latency: layer_enabled,
    }
}

/// The pacer never releases frames faster than the explicit cap.
pub proof fn law_cap_is_never_exceeded(p: DeviceContext)
    ensures
        stricter(config::cap_delay_ns(p.fps_cap), p.vrr_target_delay_ns) >= config::cap_delay_ns(
            p.fps_cap,
        ),
        stricter(config::cap_delay_ns(p.fps_cap), p.vrr_target_delay_ns) >= p.vrr_target_delay_ns,
{
}

/// The delay of a device is the stricter of its cap and its display's target:
/// so many frames as the cap says do not fit into a second with a shorter one,
/// it is no shorter than the target, and it is one of the two.
pub proof fn law_delay_obeys_cap_and_target(p: &DeviceContext, r: u64)
    requires
        call_ensures(DeviceContext::effective_min_delay_ns, (p,), r),
    ensures
        p.fps_cap > 0 ==> (r + 1) * p.fps_cap > 1_000_000_000,
        r >= p.vrr_target_delay_ns,
        r == p.vrr_target_delay_ns || (p.fps_cap > 0 && r * p.fps_cap <= 1_000_000_000),
        p.fps_cap == 0 ==> r == p.vrr_target_delay_ns,
{
    if p.fps_cap > 0 {
        let n = p.fps_cap as int;
        let q = 1_000_000_000int / n;
        assert(q * n <= 1_000_000_000 && (q + 1) * n > 1_000_000_000) by (nonlinear_arith)
            requires
                n > 0,
                q == 1_000_000_000int / n,
        ;
        assert((r + 1) * n >= (q + 1) * n) by (nonlinear_arith)
            requires
                r >= q,
                n > 0,
        ;
    }
}

/// The target of a display follows from its refresh rate: with so many whole
/// refreshes in a second, less the offset, as many of the delays fit into one
/// and no longer ones do. With no more refreshes than the offset it is a whole
/// second. It is taken once, from an answer without an error (0) that names a
/// duration, and only where the display adapts.
pub proof fn law_target_follows_the_display(
    p: &mut DeviceContext,
    result: i32,
    refresh_duration_ns: u64,
    refresh_hz: int,
)
    requires
        call_ensures(DeviceContext::ensure_vrr_target, (p, result, refresh_duration_ns), ()),
        refresh_duration_ns > 0 ==> refresh_hz * refresh_duration_ns <= 1_000_000_000 < (refresh_hz
            + 1) * refresh_duration_ns,
    ensures
        final(p).fps_cap == old(p).fps_cap,
        final(p).vrr_enabled == old(p).vrr_enabled,
        final(p).vrr_offset_hz == old(p).vrr_offset_hz,
        !old(p).vrr_enabled || old(p).vrr_target_delay_ns > 0 || result != 0 || refresh_duration_ns
            == 0 ==> final(p).vrr_target_delay_ns == old(p).vrr_target_delay_ns,
        old(p).vrr_enabled && old(p).vrr_target_delay_ns == 0 && result == 0 && refresh_duration_ns
            > 0 ==> {
            let delay = final(p).vrr_target_delay_ns;
            let hz = refresh_hz - old(p).vrr_offset_hz;
            &&& hz >= 1 ==> delay * hz <= 1_000_000_000 < (delay + 1) * hz
            &&& hz < 1 ==> delay == 1_000_000_000
        },
{
    if refresh_duration_ns > 0 {
        let d = refresh_duration_ns as int;
        let f = 1_000_000_000int / d;
        assert(f == refresh_hz) by (nonlinear_arith)
            requires
                d > 0,
                f == 1_000_000_000int / d,
                refresh_hz * d <= 1_000_000_000 < (refresh_hz + 1) * d,
        ;
        let hz = refresh_hz - old(p).vrr_offset_hz;
        if hz >= 1 {
            let q = 1_000_000_000int / hz;
            assert(q * hz <= 1_000_000_000 < (q + 1) * hz && 0 <= q <= 1_000_000_000)
                by (nonlinear_arith)
                requires
                    hz >= 1,
                    q == 1_000_000_000int / hz,
            ;
        }
    }
}

/// The display is asked where it adapts, where it can be asked, and as long as
/// there is no target.
pub proof fn law_display_is_asked_once(p: &DeviceContext, can_query: bool, r: bool)
    requires
        call_ensures(DeviceContext::needs_vrr_target, (p, can_query), r),
    ensures
        r ==> p.vrr_enabled && can_query,
        p.vrr_target_delay_ns > 0 ==> !r,
        p.vrr_enabled && can_query && p.vrr_target_delay_ns == 0 ==> r,
{
}

/// A new device has the cap and the display's settings that it was given, and
/// no target yet.
pub proof fn law_device_starts_without_a_target(
    fps_cap: u32,
    vrr_enabled: bool,
    vrr_offset_hz: u32,
    r: DeviceContext,
    delay_ns: u64,
)
    requires
        call_ensures(DeviceContext::new, (fps_cap, vrr_enabled, vrr_offset_hz), r),
        call_ensures(DeviceContext::effective_min_delay_ns, (&r,), delay_ns),
    ensures
        r.fps_cap == fps_cap,
        r.vrr_enabled == vrr_enabled,
        r.vrr_offset_hz == vrr_offset_hz,
        r.vrr_target_delay_ns == 0,
        fps_cap == 0 ==> delay_ns == 0,
{
}

/// A device on which the layer is off gets nothing. Otherwise it gets a
/// strategy, a clock where it has calibrated timestamps, and, where present
/// ids are known, one worker at most: the one that waits where it can wait.
pub proof fn law_plan_needs_the_layer(
    layer_enabled: bool,
    expose_reflex: bool,
    has_calibrated_timestamps: bool,
    can_wait: bool,
    can_poll: bool,
    r: DevicePlan,
)
    requires
        call_ensures(
            plan_device,
            (layer_enabled, expose_reflex, has_calibrated_timestamps, can_wait, can_poll),
            r,
        ),
    ensures
        !layer_enabled ==> !r.has_clock && !r.has_strategy && !r.reports_latency
            && r.worker is Absent,
        layer_enabled ==> r.has_strategy && r.reports_latency && r.has_clock
            == has_calibrated_timestamps,
        r.worker is Wait <==> layer_enabled && expose_reflex && can_wait,
        r.worker is Poll <==> layer_enabled && expose_reflex && can_poll && !can_wait,
{
}

} // verus!
