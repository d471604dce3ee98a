//! The GPU's clock against the host's.
//!
//! A background worker re-anchors the pair of host and device time every
//! [`CALIBRATION_PERIOD_MS`]; reads use whatever the latest anchor is.

use vstd::prelude::*;
use crate::vk;

verus! {

pub const CALIBRATION_PERIOD_MS: u64 = 1_000;

/// A host time and the GPU's ticks at that moment.
#[derive(Debug, Clone, Copy)]
pub struct Anchor {
    pub host_ns: u64,
    pub device_ticks: u64,
}

/// The latest anchor of a device.
#[derive(Debug, Clone, Copy)]
pub struct DeviceClock {
    pub anchor: Anchor,
}

/// A time in nanoseconds as the host's clock gives it.
pub fn timespec_ns(sec: u64, nsec: u64) -> (r: u64)
    requires
        sec * 1_000_000_000 + nsec <= u64::MAX,
    ensures
        r == sec * 1_000_000_000 + nsec,
{
    sec * 1_000_000_000 + nsec
}

/// A number as the low 64 bits of its binary form.
pub open spec fn low_64(v: int) -> u64 {
    (v % 0x1_0000_0000_0000_0000) as u64
}

impl DeviceClock {
    /// A clock without an anchor, if the device has calibrated timestamps.
    pub fn new(has_calibrated_timestamps: bool) -> (r: Option<Self>)
        ensures
            r is Some == has_calibrated_timestamps,
            r matches Some(c) ==> c.anchor.host_ns == 0 && c.anchor.device_ticks == 0,
    {
        if !has_calibrated_timestamps {
            return None;
        }
        Some(DeviceClock { anchor: Anchor { host_ns: 0, device_ticks: 0 } })
    }

    /// Takes a new pair of times, unless the reading failed.
    pub fn refresh_anchor(&mut self, result: i32, device_ticks: u64, host_ns: u64) -> (r: Result<
        (),
        i32,
    >)
        ensures
            result == vk::SUCCESS ==> r is Ok && final(self).anchor == (Anchor {
                host_ns,
                device_ticks,
            }),
            result != vk::SUCCESS ==> r == Err::<(), i32>(result) && *final(self) == *old(self),
    {
        if result != vk::SUCCESS {
            return Err(result);
        }
        self.anchor = Anchor { host_ns, device_ticks };
        Ok(())
    }

    /// How far a reading of the GPU's clock is from the anchor, in ticks.
    pub fn ticks_since_anchor(&self, ticks: u64) -> (r: i128)
        ensures
            r == ticks - self.anchor.device_ticks,
    {
        ticks as i128 - self.anchor.device_ticks as i128
    }

    /// The host time at a distance from the anchor, in nanoseconds. Nothing
    /// is before the start of the host's clock.
    pub fn ticks_to_host_ns(&self, diff_ns: i128) -> (r: u64)
        requires
            self.anchor.host_ns + diff_ns <= i128::MAX,
        ensures
            r == (if self.anchor.host_ns + diff_ns < 0 {
                0
            } else {
                low_64(self.anchor.host_ns + diff_ns)
            }),
            0 <= self.anchor.host_ns + diff_ns <= u64::MAX ==> r == self.anchor.host_ns + diff_ns,
    {
        let sum: i128 = self.anchor.host_ns as i128 + diff_ns;
        if sum < 0 {
            return 0;
        }
        (sum as u128 % 0x1_0000_0000_0000_0000) as u64
    }
}

/// A reading that succeeded (0) becomes the anchor, and then the ticks of the
/// anchor are its host time: they are no distance apart. A reading that failed
/// gives its error and leaves the anchor.
pub proof fn law_anchor_is_the_latest_reading(
    c: &mut DeviceClock,
    result: i32,
    device_ticks: u64,
    host_ns: u64,
    r: Result<(), i32>,
    distance: i128,
    host: u64,
)
    requires
        call_ensures(DeviceClock::refresh_anchor, (c, result, device_ticks, host_ns), r),
        call_ensures(DeviceClock::ticks_since_anchor, (&*final(c), device_ticks), distance),
        call_ensures(DeviceClock::ticks_to_host_ns, (&*final(c), 0i128), host),
    ensures
        r is Ok <==> result == 0,
        r matches Err(e) ==> e == result && *final(c) == *old(c),
        r is Ok ==> distance == 0 && host == host_ns && final(c).anchor.device_ticks
            == device_ticks,
{
}

/// Later ticks are further on, by as many as they are later, and a longer
/// distance from the anchor is a later host time, by as much, as long as the
/// host's clock can hold both. Nothing is before its start.
pub proof fn law_clock_keeps_distances(
    c: &DeviceClock,
    ticks: u64,
    later: u64,
    of_ticks: i128,
    of_later: i128,
    diff_ns: i128,
    longer_ns: i128,
    host: u64,
    later_host: u64,
)
    requires
        diff_ns <= longer_ns,
        c.anchor.host_ns + longer_ns <= u64::MAX,
        call_ensures(DeviceClock::ticks_since_anchor, (c, ticks), of_ticks),
        call_ensures(DeviceClock::ticks_since_anchor, (c, later), of_later),
        call_ensures(DeviceClock::ticks_to_host_ns, (c, diff_ns), host),
        call_ensures(DeviceClock::ticks_to_host_ns, (c, longer_ns), later_host),
    ensures
        of_later - of_ticks == later - ticks,
        c.anchor.host_ns + diff_ns >= 0 ==> later_host - host == longer_ns - diff_ns,
        c.anchor.host_ns + diff_ns < 0 ==> host == 0,
        host <= later_host,
{
}

/// Seconds count a thousand million nanoseconds each.
pub proof fn law_seconds_and_nanoseconds(sec: u64, nsec: u64, r: u64, next: u64)
    requires
        (sec + 1) * 1_000_000_000 + nsec <= u64::MAX,
        sec < u64::MAX,
        call_ensures(timespec_ns, (sec, nsec), r),
        call_ensures(timespec_ns, ((sec + 1) as u64, nsec), next),
    ensures
        next - r == 1_000_000_000,
        r - nsec == sec * 1_000_000_000,
{
}

/// A host time that does not fit into 64 bits wraps around: it is right but
/// for a multiple of two to the 64.
pub proof fn law_clock_wraps_around(c: &DeviceClock, diff_ns: i128, host: u64)
    requires
        0 <= c.anchor.host_ns + diff_ns <= i128::MAX,
        call_ensures(DeviceClock::ticks_to_host_ns, (c, diff_ns), host),
    ensures
        (c.anchor.host_ns + diff_ns - host) % 0x1_0000_0000_0000_0000 == 0,
{
}

/// Only a device with calibrated timestamps has a clock, and it starts without
/// an anchor.
pub proof fn law_clock_needs_calibration(has_calibrated_timestamps: bool, r: Option<DeviceClock>)
    requires
        call_ensures(DeviceClock::new, (has_calibrated_timestamps,), r),
    ensures
        r is Some <==> has_calibrated_timestamps,
        r matches Some(c) ==> c.anchor.host_ns == 0 && c.anchor.device_ticks == 0,
{
}

} // verus!
