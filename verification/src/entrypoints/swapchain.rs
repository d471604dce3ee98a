//! Swapchains: what is worth a warning.

use vstd::prelude::*;

verus! {

/// `VK_PRESENT_MODE_FIFO_LATEST_READY_EXT` lets the driver pick the freshest
/// queued image. Pacing by submission no longer decides what is visible then.
pub const PRESENT_MODE_FIFO_LATEST_READY: i32 = 1_000_361_000;

/// Whether a swapchain makes the pacing that was asked for advisory.
pub fn warn_if_fifo_latest_ready(present_mode: i32, fps_cap: u32, vrr_enabled: bool) -> (r: bool)
    ensures
        r == (present_mode == PRESENT_MODE_FIFO_LATEST_READY && (fps_cap != 0 || vrr_enabled)),
{
    if present_mode != PRESENT_MODE_FIFO_LATEST_READY {
        return false;
    }
    if fps_cap == 0 && !vrr_enabled {
        return false;
    }
    true
}

/// Nanoseconds from which on an acquire counts as long: a frame at 60 Hz.
pub const LONG_ACQUIRE_NS: u64 = 16_000_000;

/// How long an acquire took in microseconds, where that is worth a note.
pub fn long_acquire_us(start_ns: u64, end_ns: u64) -> (r: Option<u64>)
    ensures
        r == (if end_ns - start_ns > LONG_ACQUIRE_NS {
            Some(((end_ns - start_ns) / 1_000) as u64)
        } else {
            None
        }),
{
    let elapsed: u64 = if end_ns >= start_ns {
        end_ns - start_ns
    } else {
        0
    };
    if elapsed > LONG_ACQUIRE_NS {
        Some(elapsed / 1_000)
    } else {
        None
    }
}

/// A warning is due exactly where pacing is asked for, by a cap or for the
/// display, and the swapchain has the one mode that makes it advisory.
pub proof fn law_only_advisory_pacing_is_warned_of(
    present_mode: i32,
    fps_cap: u32,
    vrr_enabled: bool,
    r: bool,
)
    requires
        call_ensures(warn_if_fifo_latest_ready, (present_mode, fps_cap, vrr_enabled), r),
    ensures
        r ==> present_mode == 1_000_361_000 && (fps_cap > 0 || vrr_enabled),
        present_mode == 1_000_361_000 && fps_cap > 0 ==> r,
        present_mode == 1_000_361_000 && vrr_enabled ==> r,
{
}

/// An acquire is noted where it took more than 16 milliseconds, with how long
/// it took.
pub proof fn law_long_acquires_are_noted(start_ns: u64, end_ns: u64, r: Option<u64>)
    requires
        call_ensures(long_acquire_us, (start_ns, end_ns), r),
    ensures
        r is Some <==> start_ns + 16_000_000 < end_ns,
        r matches Some(us) ==> start_ns + 1_000 * us <= end_ns < start_ns + 1_000 * (us + 1),
{
}

} // verus!
