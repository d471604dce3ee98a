//! Which submissions of a queue get timestamps.

use vstd::prelude::*;

verus! {

/// `VK_QUEUE_GRAPHICS_BIT`
pub const QUEUE_GRAPHICS: u32 = 0x1;

/// What a queue's family can do.
#[derive(Debug, Clone, Copy)]
pub struct QueueFamily {
    pub queue_flags: u32,
    pub timestamp_valid_bits: u32,
}

/// What decides whether a submission to a queue gets timestamps.
#[derive(Debug, Clone, Copy)]
pub struct QueueContext {
    pub layer_enabled: bool,
    pub expose_reflex: bool,
    pub family: QueueFamily,
}

impl QueueContext {
    /// Only graphics queues, and only where the hardware has timestamps.
    pub open spec fn eligible(self) -> bool {
        &&& self.layer_enabled
        &&& self.family.timestamp_valid_bits != 0
        &&& self.family.queue_flags & QUEUE_GRAPHICS == QUEUE_GRAPHICS
    }

    /// Whether the queue is one whose submissions can get timestamps. Others
    /// submit often, and their work is not what a frame waits for.
    pub fn should_inject_timestamps(&self) -> (r: bool)
        ensures
            r == self.eligible(),
    {
        if !self.layer_enabled || self.family.timestamp_valid_bits == 0 {
            return false;
        }
        self.family.queue_flags & QUEUE_GRAPHICS == QUEUE_GRAPHICS
    }

    /// Whether a submission gets timestamps: with the one strategy always,
    /// because which submission matters is known at the present only; with
    /// the other while it collects.
    pub fn should_inject_for_submit(&self, anti_lag_tracks: bool) -> (r: bool)
        ensures
            r == (self.eligible() && (self.expose_reflex || anti_lag_tracks)),
    {
        if !self.should_inject_timestamps() {
            return false;
        }
        if self.expose_reflex {
            true
        } else {
            anti_lag_tracks
        }
    }
}

/// The properties of a queue's family, where the device has that family.
pub fn family_properties(families: &[QueueFamily], family_index: u32) -> (r: Option<QueueFamily>)
    ensures
        r == (if family_index < families@.len() {
            Some(families@[family_index as int])
        } else {
            None
        }),
{
    if (family_index as usize) < families.len() {
        Some(families[family_index as usize])
    } else {
        None
    }
}

/// Only a graphics queue (bit 0x1) of a family with timestamps is stamped, and
/// only while the layer is on. With the one strategy each of its submissions
/// is, with the other those that are collected.
pub proof fn law_only_graphics_work_is_stamped(
    q: &QueueContext,
    anti_lag_tracks: bool,
    queue: bool,
    submission: bool,
)
    requires
        call_ensures(QueueContext::should_inject_timestamps, (q,), queue),
        call_ensures(QueueContext::should_inject_for_submit, (q, anti_lag_tracks), submission),
    ensures
        submission ==> queue,
        queue ==> q.layer_enabled && q.family.timestamp_valid_bits > 0 && q.family.queue_flags % 2
            == 1,
        q.layer_enabled && q.family.timestamp_valid_bits > 0 && q.family.queue_flags % 2 == 1
            ==> queue,
        queue && q.expose_reflex ==> submission,
        queue && !q.expose_reflex ==> submission == anti_lag_tracks,
{
    let f = q.family.queue_flags;
    assert((f & 1u32 == 1u32) == (f % 2 == 1)) by (bit_vector);
}

/// A family is found at its own index, and there is none behind the last.
pub proof fn law_family_is_at_its_index(
    families: &[QueueFamily],
    family_index: u32,
    r: Option<QueueFamily>,
)
    requires
        call_ensures(family_properties, (families, family_index), r),
    ensures
        r is Some <==> family_index < families@.len(),
        r matches Some(f) ==> f == families@[family_index as int],
{
}

} // verus!
