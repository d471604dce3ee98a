//! Timeline semaphore signaller that tolerates repeated values.
//!
//! Applications may ask for values that do not increase (0, 1, 1, 1, 2, ...),
//! but a timeline semaphore cannot be signalled to a value that it has
//! reached. The current value is read first, and the signal is left out where
//! it would change nothing.

use vstd::prelude::*;
use crate::vk;

verus! {

#[derive(Debug, Clone, Copy, PartialEq, Eq, Structural)]
pub struct SemaphoreSignal {
    pub semaphore: u64,
    pub value: u64,
}

impl SemaphoreSignal {
    pub fn new(semaphore: u64, value: u64) -> (r: Self)
        ensures
            r == (SemaphoreSignal { semaphore, value }),
    {
        SemaphoreSignal { semaphore, value }
    }

    /// Whether the signal can be made, once its semaphore's value has been
    /// read.
    pub open spec fn due(self, result: i32, current: u64) -> bool {
        result == vk::SUCCESS && current < self.value
    }

    /// What to signal, after the read of the current value. The read and the
    /// signal need the two timeline functions of the device.
    pub fn signal(&self, has_timeline: bool, result: i32, current: u64) -> (r: Option<(u64, u64)>)
        ensures
            r == (if has_timeline && self.due(result, current) {
                Some((self.semaphore, self.value))
            } else {
                None
            }),
    {
        if !has_timeline {
            return None;
        }
        if result != vk::SUCCESS || current >= self.value {
            return None;
        }
        Some((self.semaphore, self.value))
    }
}

/// The value of a timeline semaphore after a signal was handled.
pub open spec fn value_after(s: SemaphoreSignal, current: u64) -> u64 {
    if s.due(vk::SUCCESS, current) {
        s.value
    } else {
        current
    }
}

/// Handling a signal never takes a semaphore back, and always brings it to at
/// least the value asked for; a repeated value changes nothing.
pub proof fn law_signals_are_monotonic(s: SemaphoreSignal, current: u64)
    ensures
        value_after(s, current) >= current,
        value_after(s, current) >= s.value,
        value_after(s, value_after(s, current)) == value_after(s, current),
{
}

/// A signal is made where it can be and is needed: the device has the timeline
/// functions, the value could be read (0), and the semaphore is still below.
/// Then it is the signal that was asked for, and it raises the value.
pub proof fn law_signal_only_where_it_raises(
    s: &SemaphoreSignal,
    has_timeline: bool,
    result: i32,
    current: u64,
    r: Option<(u64, u64)>,
)
    requires
        call_ensures(SemaphoreSignal::signal, (s, has_timeline, result, current), r),
    ensures
        r is Some <==> has_timeline && result == 0 && s.value > current,
        r matches Some(made) ==> made.0 == s.semaphore && made.1 == s.value && made.1 > current,
{
}

/// A signal is the semaphore and the value that it was made of.
pub proof fn law_signal_is_as_asked_for(semaphore: u64, value: u64, r: SemaphoreSignal)
    requires
        call_ensures(SemaphoreSignal::new, (semaphore, value), r),
    ensures
        r.semaphore == semaphore,
        r.value == value,
{
}

} // verus!
