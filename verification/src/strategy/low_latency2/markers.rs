//! Reflex latency marker history.
//!
//! An application marks the stages of a frame as it goes through them, and
//! later asks for the times of the recent frames. Times are microseconds of
//! the host's monotonic clock.

use rustc_hash::FxHashMap;
use std::collections::VecDeque;
use vstd::prelude::*;
use crate::fx::{fx_get, fx_insert, fx_len, fx_new, fx_remove};
use crate::ring::set_at;
use crate::vk;

verus! {

/// How many frames the history keeps. Readers typically sample 32 to 64 of
/// them; 128 gives headroom without significant memory.
pub const HISTORY_CAP: usize = 128;

/// The times of one frame; 0 where a stage has not been seen.
#[derive(Debug, Clone, Copy)]
pub struct FrameMarkers {
    pub present_id: u64,
    pub input_sample_us: u64,
    pub sim_start_us: u64,
    pub sim_end_us: u64,
    pub render_submit_start_us: u64,
    pub render_submit_end_us: u64,
    pub present_start_us: u64,
    /// The moment at which the application says it finished presenting.
    pub present_end_us: u64,
    /// The measured moment of scanout.
    pub display_actual_us: u64,
    pub gpu_render_start_us: u64,
    pub gpu_render_end_us: u64,
}

/// What a reader of the history gets for one frame.
#[derive(Debug, Clone, Copy, PartialEq, Eq, Structural)]
pub struct FrameReport {
    pub present_id: u64,
    pub input_sample_time_us: u64,
    pub sim_start_time_us: u64,
    pub sim_end_time_us: u64,
    pub render_submit_start_time_us: u64,
    pub render_submit_end_time_us: u64,
    pub present_start_time_us: u64,
    pub present_end_time_us: u64,
    pub gpu_render_start_time_us: u64,
    pub gpu_render_end_time_us: u64,
}

impl FrameMarkers {
    /// A frame of which nothing has been seen.
    pub open spec fn fresh(present_id: u64) -> FrameMarkers {
        FrameMarkers {
            present_id,
            input_sample_us: 0,
            sim_start_us: 0,
            sim_end_us: 0,
            render_submit_start_us: 0,
            render_submit_end_us: 0,
            present_start_us: 0,
            present_end_us: 0,
            display_actual_us: 0,
            gpu_render_start_us: 0,
            gpu_render_end_us: 0,
        }
    }

    /// The frame with one marker set. Markers that the report has no place
    /// for change nothing.
    pub open spec fn with_marker(self, marker: i32, us: u64) -> FrameMarkers {
        if marker == vk::MARKER_INPUT_SAMPLE {
            FrameMarkers { input_sample_us: us, ..self }
        } else if marker == vk::MARKER_SIMULATION_START {
            FrameMarkers { sim_start_us: us, ..self }
        } else if marker == vk::MARKER_SIMULATION_END {
            FrameMarkers { sim_end_us: us, ..self }
        } else if marker == vk::MARKER_RENDERSUBMIT_START {
            FrameMarkers { render_submit_start_us: us, ..self }
        } else if marker == vk::MARKER_RENDERSUBMIT_END {
            FrameMarkers { render_submit_end_us: us, ..self }
        } else if marker == vk::MARKER_PRESENT_START {
            FrameMarkers { present_start_us: us, ..self }
        } else if marker == vk::MARKER_PRESENT_END {
            FrameMarkers { present_end_us: us, ..self }
        } else {
            self
        }
    }

    /// Whether a marker has not come for the frame yet.
    pub open spec fn lacks(self, marker: i32) -> bool {
        if marker == vk::MARKER_INPUT_SAMPLE {
            self.input_sample_us == 0
        } else if marker == vk::MARKER_SIMULATION_START {
            self.sim_start_us == 0
        } else if marker == vk::MARKER_SIMULATION_END {
            self.sim_end_us == 0
        } else if marker == vk::MARKER_RENDERSUBMIT_START {
            self.render_submit_start_us == 0
        } else if marker == vk::MARKER_RENDERSUBMIT_END {
            self.render_submit_end_us == 0
        } else if marker == vk::MARKER_PRESENT_START {
            self.present_start_us == 0
        } else if marker == vk::MARKER_PRESENT_END {
            self.present_end_us == 0
        } else {
            true
        }
    }

    /// The frame under another present id.
    pub open spec fn named(self, present_id: u64) -> FrameMarkers {
        FrameMarkers { present_id, ..self }
    }

    /// The frame with its GPU times widened to take in a new pair: the
    /// earliest start, where one is known, and the latest end.
    pub open spec fn widened(self, start_us: u64, end_us: u64) -> FrameMarkers {
        FrameMarkers {
            gpu_render_start_us: if self.gpu_render_start_us == 0 || start_us
                < self.gpu_render_start_us {
                start_us
            } else {
                self.gpu_render_start_us
            },
            gpu_render_end_us: if end_us > self.gpu_render_end_us {
                end_us
            } else {
                self.gpu_render_end_us
            },
            ..self
        }
    }

    /// The end of the frame for a latency: its scanout, or else what the
    /// application said.
    pub open spec fn end_us(self) -> u64 {
        if self.display_actual_us != 0 {
            self.display_actual_us
        } else {
            self.present_end_us
        }
    }

    /// The time from input to photons, where both ends are known and in order.
    pub open spec fn latency(self) -> Option<u64> {
        if self.input_sample_us != 0 && self.end_us() > self.input_sample_us {
            Some((self.end_us() - self.input_sample_us) as u64)
        } else {
            None
        }
    }

    /// What a reader gets: the application's own end of the present counts
    /// before the measured one.
    pub open spec fn report(self) -> FrameReport {
        FrameReport {
            present_id: self.present_id,
            input_sample_time_us: self.input_sample_us,
            sim_start_time_us: self.sim_start_us,
            sim_end_time_us: self.sim_end_us,
            render_submit_start_time_us: self.render_submit_start_us,
            render_submit_end_time_us: self.render_submit_end_us,
            present_start_time_us: self.present_start_us,
            present_end_time_us: if self.present_end_us != 0 {
                self.present_end_us
            } else {
                self.display_actual_us
            },
            gpu_render_start_time_us: self.gpu_render_start_us,
            gpu_render_end_time_us: self.gpu_render_end_us,
        }
    }

    fn new(present_id: u64) -> (r: FrameMarkers)
        ensures
            r == FrameMarkers::fresh(present_id),
    {
        FrameMarkers {
            present_id,
            input_sample_us: 0,
            sim_start_us: 0,
            sim_end_us: 0,
            render_submit_start_us: 0,
            render_submit_end_us: 0,
            present_start_us: 0,
            present_end_us: 0,
            display_actual_us: 0,
            gpu_render_start_us: 0,
            gpu_render_end_us: 0,
        }
    }

    fn mark(self, marker: i32, us: u64) -> (r: FrameMarkers)
        ensures
            r == self.with_marker(marker, us),
    {
        let mut f = self;
        if marker == vk::MARKER_INPUT_SAMPLE {
            f.input_sample_us = us;
        } else if marker == vk::MARKER_SIMULATION_START {
            f.sim_start_us = us;
        } else if marker == vk::MARKER_SIMULATION_END {
            f.sim_end_us = us;
        } else if marker == vk::MARKER_RENDERSUBMIT_START {
            f.render_submit_start_us = us;
        } else if marker == vk::MARKER_RENDERSUBMIT_END {
            f.render_submit_end_us = us;
        } else if marker == vk::MARKER_PRESENT_START {
            f.present_start_us = us;
        } else if marker == vk::MARKER_PRESENT_END {
            f.present_end_us = us;
        }
        f
    }

    fn is_without(&self, marker: i32) -> (r: bool)
        ensures
            r == self.lacks(marker),
    {
        if marker == vk::MARKER_INPUT_SAMPLE {
            self.input_sample_us == 0
        } else if marker == vk::MARKER_SIMULATION_START {
            self.sim_start_us == 0
        } else if marker == vk::MARKER_SIMULATION_END {
            self.sim_end_us == 0
        } else if marker == vk::MARKER_RENDERSUBMIT_START {
            self.render_submit_start_us == 0
        } else if marker == vk::MARKER_RENDERSUBMIT_END {
            self.render_submit_end_us == 0
        } else if marker == vk::MARKER_PRESENT_START {
            self.present_start_us == 0
        } else if marker == vk::MARKER_PRESENT_END {
            self.present_end_us == 0
        } else {
            true
        }
    }

    fn latency_us(&self) -> (r: Option<u64>)
        ensures
            r == self.latency(),
    {
        if self.input_sample_us == 0 {
            return None;
        }
        let end: u64 = if self.display_actual_us != 0 {
            self.display_actual_us
        } else {
            self.present_end_us
        };
        if end > self.input_sample_us {
            Some(end - self.input_sample_us)
        } else {
            None
        }
    }

    fn to_report(&self) -> (r: FrameReport)
        ensures
            r == self.report(),
    {
        let present_end: u64 = if self.present_end_us != 0 {
            self.present_end_us
        } else {
            self.display_actual_us
        };
        FrameReport {
            present_id: self.present_id,
            input_sample_time_us: self.input_sample_us,
            sim_start_time_us: self.sim_start_us,
            sim_end_time_us: self.sim_end_us,
            render_submit_start_time_us: self.render_submit_start_us,
            render_submit_end_time_us: self.render_submit_end_us,
            present_start_time_us: self.present_start_us,
            present_end_time_us: present_end,
            gpu_render_start_time_us: self.gpu_render_start_us,
            gpu_render_end_time_us: self.gpu_render_end_us,
        }
    }
}

/// Whether the frame at `i` is the one with this present id.
pub open spec fn is_slot(s: Seq<FrameMarkers>, present_id: u64, i: int) -> bool {
    0 <= i < s.len() && s[i].present_id == present_id
}

/// Whether the history knows a frame.
pub open spec fn knows(s: Seq<FrameMarkers>, present_id: u64) -> bool {
    exists|i: int| is_slot(s, present_id, i)
}

/// The place of a frame that the history knows.
pub open spec fn slot(s: Seq<FrameMarkers>, present_id: u64) -> int {
    choose|i: int| is_slot(s, present_id, i)
}

/// No two frames have the same present id.
pub open spec fn distinct(s: Seq<FrameMarkers>) -> bool {
    forall|i: int, j: int|
        0 <= i < j < s.len() ==> (#[trigger] s[i]).present_id != (#[trigger] s[j]).present_id
}

/// Whether the newest frame still waits for its present id and can take a
/// marker of it: it came under 0, and a marker of another kind is due. A kind
/// that the frame has already belongs to the frame behind it.
pub open spec fn open_for(s: Seq<FrameMarkers>, marker: i32) -> bool {
    s.len() > 0 && s.last().present_id == 0 && s.last().lacks(marker)
}

/// The history after a marker. The frame is updated where it is known. Where
/// it is not, a newest frame that still waits for its id takes the id and the
/// marker. Else the frame goes in as the newest, in place of the oldest of a
/// full history.
pub open spec fn recorded(s: Seq<FrameMarkers>, present_id: u64, marker: i32, us: u64) -> Seq<
    FrameMarkers,
> {
    if knows(s, present_id) {
        let i = slot(s, present_id);
        s.update(i, s[i].with_marker(marker, us))
    } else if present_id != 0 && open_for(s, marker) {
        s.update(s.len() - 1, s.last().named(present_id).with_marker(marker, us))
    } else {
        let rest = if s.len() == HISTORY_CAP {
            s.drop_first()
        } else {
            s
        };
        rest.push(FrameMarkers::fresh(present_id).with_marker(marker, us))
    }
}

/// The latencies of the frames that have one, oldest first.
pub open spec fn latencies(s: Seq<FrameMarkers>) -> Seq<u64>
    decreases s.len(),
{
    if s.len() == 0 {
        Seq::empty()
    } else {
        match s.last().latency() {
            Some(us) => latencies(s.drop_last()).push(us),
            None => latencies(s.drop_last()),
        }
    }
}

/// The latency of the newest frame that has one; 0 where none has.
pub open spec fn newest_latency(s: Seq<FrameMarkers>) -> u64
    decreases s.len(),
{
    if s.len() == 0 {
        0
    } else {
        match s.last().latency() {
            Some(us) => us,
            None => newest_latency(s.drop_last()),
        }
    }
}

/// The sum of two numbers, wrapped into 64 bits.
pub open spec fn wrapped(a: int, b: int) -> u64 {
    if a + b > u64::MAX {
        (a + b - 0x1_0000_0000_0000_0000) as u64
    } else {
        (a + b) as u64
    }
}

/// The recent frames, oldest first, with a map that finds a frame by its
/// present id.
pub struct MarkerHistory {
    pub frames: VecDeque<FrameMarkers>,
    /// The number of each frame, counted from the first that was ever
    /// recorded. Subtracting `head_index` gives its place in `frames`.
    pub by_present_id: FxHashMap<u64, u64>,
    /// The number of the oldest frame in `frames`.
    pub head_index: u64,
}

impl MarkerHistory {
    /// The map mirrors the frames exactly.
    pub open spec fn wf(self) -> bool {
        &&& self.frames@.len() <= HISTORY_CAP
        &&& distinct(self.frames@)
        &&& forall|id: u64|
            #![trigger self.by_present_id@.contains_key(id)]
            self.by_present_id@.contains_key(id) ==> exists|i: int|
                #[trigger] is_slot(self.frames@, id, i) && self.by_present_id@[id] == wrapped(
                    self.head_index as int,
                    i,
                )
        &&& forall|i: int|
            0 <= i < self.frames@.len() ==> self.by_present_id@.contains_key(
                (#[trigger] self.frames@[i]).present_id,
            )
    }

    pub fn new() -> (r: Self)
        ensures
            r.wf(),
            r.frames@ == Seq::<FrameMarkers>::empty(),
    {
        MarkerHistory { frames: VecDeque::new(), by_present_id: fx_new(), head_index: 0 }
    }

    /// The place of a frame that the history knows.
    fn find(&self, present_id: u64) -> (r: Option<usize>)
        requires
            self.wf(),
        ensures
            match r {
                Some(i) => {
                    &&& is_slot(self.frames@, present_id, i as int)
                    &&& knows(self.frames@, present_id)
                    &&& slot(self.frames@, present_id) == i
                },
                None => !knows(self.frames@, present_id) && !self.by_present_id@.contains_key(
                    present_id,
                ),
            },
    {
        match fx_get(&self.by_present_id, present_id) {
            Some(number) => {
                let i: u64 = number.wrapping_sub(self.head_index);
                proof {
                    let w = choose|w: int|
                        is_slot(self.frames@, present_id, w) && self.by_present_id@[present_id]
                            == wrapped(self.head_index as int, w);
                    assert(i == w);
                    lemma_slot_is(self.frames@, present_id, w);
                }
                Some(i as usize)
            },
            None => {
                proof {
                    if knows(self.frames@, present_id) {
                        let w = slot(self.frames@, present_id);
                        assert(is_slot(self.frames@, present_id, w));
                        assert(self.by_present_id@.contains_key(self.frames@[w].present_id));
                    }
                }
                None
            },
        }
    }

    /// Replaces the frame at `i` by one with the same present id.
    fn replace(&mut self, i: usize, f: FrameMarkers)
        requires
            old(self).wf(),
            i < old(self).frames@.len(),
            f.present_id == old(self).frames@[i as int].present_id,
        ensures
            final(self).wf(),
            final(self).frames@ == old(self).frames@.update(i as int, f),
    {
        let ghost before = *self;
        set_at(&mut self.frames, i, f);
        proof {
            assert forall|id: u64| #[trigger] self.by_present_id@.contains_key(id) implies exists|
                j: int,
            |
                #[trigger] is_slot(self.frames@, id, j) && self.by_present_id@[id] == wrapped(
                    self.head_index as int,
                    j,
                ) by {
                let j = choose|j: int|
                    is_slot(before.frames@, id, j) && before.by_present_id@[id] == wrapped(
                        before.head_index as int,
                        j,
                    );
                assert(is_slot(self.frames@, id, j));
            }
            assert forall|j: int| 0 <= j < self.frames@.len() implies self.by_present_id@.contains_key(
                (#[trigger] self.frames@[j]).present_id,
            ) by {
                assert(before.by_present_id@.contains_key(before.frames@[j].present_id));
            }
        }
    }

    /// Drops the oldest frame of a full history.
    fn make_room(&mut self)
        requires
            old(self).wf(),
        ensures
            final(self).wf(),
            final(self).frames@.len() < HISTORY_CAP,
            final(self).frames@ == (if old(self).frames@.len() == HISTORY_CAP {
                old(self).frames@.drop_first()
            } else {
                old(self).frames@
            }),
    {
        if self.frames.len() < HISTORY_CAP {
            return;
        }
        let ghost before = *self;
        if let Some(oldest) = self.frames.pop_front() {
            let _ = fx_remove(&mut self.by_present_id, oldest.present_id);
            self.head_index = self.head_index.wrapping_add(1);
            proof {
                assert(self.frames@ =~= before.frames@.drop_first());
                assert(oldest == before.frames@[0]);
                assert forall|j: int|
                    0 <= j < self.frames@.len() implies self.by_present_id@.contains_key(
                    (#[trigger] self.frames@[j]).present_id,
                ) by {
                    assert(self.frames@[j] == before.frames@[j + 1]);
                    assert(before.by_present_id@.contains_key(before.frames@[j + 1].present_id));
                }
                assert forall|id: u64| #[trigger] self.by_present_id@.contains_key(id) implies exists|
                    j: int,
                |
                    #[trigger] is_slot(self.frames@, id, j) && self.by_present_id@[id] == wrapped(
                        self.head_index as int,
                        j,
                    ) by {
                    assert(before.by_present_id@.contains_key(id));
                    let j = choose|j: int|
                        is_slot(before.frames@, id, j) && before.by_present_id@[id] == wrapped(
                            before.head_index as int,
                            j,
                        );
                    assert(j > 0);
                    assert(is_slot(self.frames@, id, j - 1));
                    assert(self.by_present_id@[id] == wrapped(self.head_index as int, j - 1));
                }
            }
        }
    }

    /// Whether the newest frame still waits for its present id and can take a
    /// marker of it.
    fn is_open_for(&self, marker: i32) -> (r: bool)
        ensures
            r == open_for(self.frames@, marker),
    {
        let n: usize = self.frames.len();
        n > 0 && self.frames[n - 1].present_id == 0 && self.frames[n - 1].is_without(marker)
    }

    /// Replaces the newest frame, which has no present id, by one with an id
    /// that the history does not know.
    fn adopt(&mut self, f: FrameMarkers)
        requires
            old(self).wf(),
            old(self).frames@.len() > 0,
            old(self).frames@.last().present_id == 0,
            f.present_id != 0,
            !knows(old(self).frames@, f.present_id),
            !old(self).by_present_id@.contains_key(f.present_id),
        ensures
            final(self).wf(),
            final(self).frames@ == old(self).frames@.update(old(self).frames@.len() - 1, f),
    {
        let ghost before = *self;
        let last: usize = self.frames.len() - 1;
        let number: u64 = self.head_index.wrapping_add(last as u64);
        let _ = fx_remove(&mut self.by_present_id, 0);
        let _ = fx_insert(&mut self.by_present_id, f.present_id, number);
        set_at(&mut self.frames, last, f);
        proof {
            let n = last as int;
            assert(is_slot(before.frames@, 0, n));
            assert forall|id: u64| #[trigger] self.by_present_id@.contains_key(id) implies exists|
                j: int,
            |
                #[trigger] is_slot(self.frames@, id, j) && self.by_present_id@[id] == wrapped(
                    self.head_index as int,
                    j,
                ) by {
                if id == f.present_id {
                    assert(is_slot(self.frames@, id, n));
                } else {
                    assert(before.by_present_id@.contains_key(id));
                    let j = choose|j: int|
                        is_slot(before.frames@, id, j) && before.by_present_id@[id] == wrapped(
                            before.head_index as int,
                            j,
                        );
                    assert(is_slot(before.frames@, id, j));
                    assert(j != n);
                    assert(is_slot(self.frames@, id, j));
                }
            }
            assert forall|j: int| 0 <= j < self.frames@.len() implies self.by_present_id@.contains_key(
                (#[trigger] self.frames@[j]).present_id,
            ) by {
                if j < n {
                    assert(before.by_present_id@.contains_key(before.frames@[j].present_id));
                    assert(before.frames@[j].present_id != before.frames@[n].present_id);
                }
            }
            assert forall|i: int, j: int|
                0 <= i < j < self.frames@.len() implies (#[trigger] self.frames@[i]).present_id
                != (#[trigger] self.frames@[j]).present_id by {
                if j == n && self.frames@[i].present_id == f.present_id {
                    assert(is_slot(before.frames@, f.present_id, i));
                } else if j < n {
                    assert(before.frames@[i].present_id != before.frames@[j].present_id);
                }
            }
        }
    }

    /// Records one marker. `present_id` may be 0 for calls that do not know it
    /// yet. What came under 0 is merged into the frame of the first real id
    /// that arrives on a marker of another kind.
    pub fn record(&mut self, present_id: u64, marker: i32, now_ns: u64)
        requires
            old(self).wf(),
        ensures
            final(self).wf(),
            final(self).frames@ == recorded(
                old(self).frames@,
                present_id,
                marker,
                (now_ns / 1_000) as u64,
            ),
    {
        let now_us: u64 = now_ns / 1_000;
        match self.find(present_id) {
            Some(i) => {
                let f = self.frames[i].mark(marker, now_us);
                self.replace(i, f);
            },
            None => {
                if present_id != 0 && self.is_open_for(marker) {
                    let mut f = self.frames[self.frames.len() - 1];
                    f.present_id = present_id;
                    self.adopt(f.mark(marker, now_us));
                    return;
                }
                let ghost start = *self;
                self.make_room();
                let ghost before = *self;
                proof {
                    if knows(before.frames@, present_id) {
                        let w = slot(before.frames@, present_id);
                        assert(is_slot(before.frames@, present_id, w));
                        if start.frames@.len() == HISTORY_CAP {
                            assert(is_slot(start.frames@, present_id, w + 1));
                        } else {
                            assert(is_slot(start.frames@, present_id, w));
                        }
                        assert(false);
                    }
                }
                let number: u64 = self.head_index.wrapping_add(self.frames.len() as u64);
                let _ = fx_insert(&mut self.by_present_id, present_id, number);
                let f = FrameMarkers::new(present_id).mark(marker, now_us);
                self.frames.push_back(f);
                proof {
                    let n = before.frames@.len() as int;
                    assert(f.present_id == present_id);
                    assert forall|id: u64| #[trigger]
                        self.by_present_id@.contains_key(id) implies exists|j: int|
                        #[trigger] is_slot(self.frames@, id, j) && self.by_present_id@[id]
                            == wrapped(self.head_index as int, j) by {
                        if id == present_id {
                            assert(is_slot(self.frames@, id, n));
                        } else {
                            assert(before.by_present_id@.contains_key(id));
                            let j = choose|j: int|
                                is_slot(before.frames@, id, j) && before.by_present_id@[id]
                                    == wrapped(before.head_index as int, j);
                            assert(is_slot(self.frames@, id, j));
                        }
                    }
                    assert forall|j: int|
                        0 <= j < self.frames@.len() implies self.by_present_id@.contains_key(
                        (#[trigger] self.frames@[j]).present_id,
                    ) by {
                        if j < n {
                            assert(before.by_present_id@.contains_key(
                                before.frames@[j].present_id,
                            ));
                        }
                    }
                    assert forall|i: int, j: int|
                        0 <= i < j < self.frames@.len() implies (#[trigger] self.frames@[i]).present_id
                        != (#[trigger] self.frames@[j]).present_id by {
                        if j == n && self.frames@[i].present_id == present_id {
                            assert(is_slot(before.frames@, present_id, i));
                        }
                    }
                }
            },
        }
    }

    /// Records the GPU's start and end of a frame that the history knows.
    pub fn record_gpu_timing(&mut self, present_id: u64, start_host_ns: u64, end_host_ns: u64)
        requires
            old(self).wf(),
        ensures
            final(self).wf(),
            final(self).frames@ == (if knows(old(self).frames@, present_id) {
                let i = slot(old(self).frames@, present_id);
                old(self).frames@.update(
                    i,
                    (FrameMarkers {
                        gpu_render_start_us: (start_host_ns / 1_000) as u64,
                        gpu_render_end_us: (end_host_ns / 1_000) as u64,
                        ..old(self).frames@[i]
                    }),
                )
            } else {
                old(self).frames@
            }),
    {
        if let Some(i) = self.find(present_id) {
            let mut f = self.frames[i];
            f.gpu_render_start_us = start_host_ns / 1_000;
            f.gpu_render_end_us = end_host_ns / 1_000;
            self.replace(i, f);
        }
    }

    /// Widens the GPU's start and end of a frame that the history knows, so
    /// that they span what was recorded before and the new pair.
    pub fn record_gpu_widest(&mut self, present_id: u64, start_host_ns: u64, end_host_ns: u64)
        requires
            old(self).wf(),
        ensures
            final(self).wf(),
            final(self).frames@ == (if knows(old(self).frames@, present_id) {
                let i = slot(old(self).frames@, present_id);
                old(self).frames@.update(
                    i,
                    old(self).frames@[i].widened(
                        (start_host_ns / 1_000) as u64,
                        (end_host_ns / 1_000) as u64,
                    ),
                )
            } else {
                old(self).frames@
            }),
    {
        if let Some(i) = self.find(present_id) {
            let mut f = self.frames[i];
            let start_us: u64 = start_host_ns / 1_000;
            let end_us: u64 = end_host_ns / 1_000;
            if f.gpu_render_start_us == 0 || start_us < f.gpu_render_start_us {
                f.gpu_render_start_us = start_us;
            }
            if end_us > f.gpu_render_end_us {
                f.gpu_render_end_us = end_us;
            }
            self.replace(i, f);
        }
    }

    /// Records the measured scanout of a frame that the history knows. The
    /// application's own end of the present stays as it is.
    pub fn record_present_actual(&mut self, present_id: u64, actual_host_ns: u64)
        requires
            old(self).wf(),
        ensures
            final(self).wf(),
            final(self).frames@ == with_present_actual(
                old(self).frames@,
                present_id,
                actual_host_ns,
            ),
    {
        if let Some(i) = self.find(present_id) {
            let mut f = self.frames[i];
            f.display_actual_us = actual_host_ns / 1_000;
            self.replace(i, f);
        }
    }

    /// The latency of the newest frame that has both ends, in microseconds;
    /// 0 where none has.
    pub fn latest_latency_us(&self) -> (r: u64)
        ensures
            r == newest_latency(self.frames@),
    {
        let mut n: usize = self.frames.len();
        proof {
            assert(self.frames@.take(n as int) =~= self.frames@);
        }
        while n > 0
            invariant
                n <= self.frames@.len(),
                newest_latency(self.frames@) == newest_latency(self.frames@.take(n as int)),
            decreases n,
        {
            proof {
                assert(self.frames@.take(n as int).last() == self.frames@[n - 1]);
                assert(self.frames@.take(n as int).drop_last() =~= self.frames@.take(n - 1));
            }
            if let Some(us) = self.frames[n - 1].latency_us() {
                return us;
            }
            n -= 1;
        }
        0
    }

    /// The reports of the newest frames, newest first: all of them where no
    /// room is given for fewer.
    pub fn fill(&self, capacity: usize) -> (r: Vec<FrameReport>)
        ensures
            r@.len() == (if capacity < self.frames@.len() {
                capacity as int
            } else {
                self.frames@.len() as int
            }),
            forall|i: int|
                0 <= i < r@.len() ==> #[trigger] r@[i] == self.frames@[self.frames@.len() - 1
                    - i].report(),
    {
        let len: usize = self.frames.len();
        let to_write: usize = if capacity < len {
            capacity
        } else {
            len
        };
        let mut out: Vec<FrameReport> = Vec::new();
        let mut i: usize = 0;
        while i < to_write
            invariant
                i <= to_write <= len,
                len == self.frames@.len(),
                out@.len() == i,
                forall|j: int| 0 <= j < i
                    ==> #[trigger] out@[j] == self.frames@[len - 1 - j].report(),
            decreases to_write - i,
        {
            let report = self.frames[len - 1 - i].to_report();
            out.push(report);
            i += 1;
        }
        out
    }

    /// How many frames there are to report, for a caller that asks before it
    /// makes room.
    pub fn report_count(&self) -> (r: usize)
        ensures
            r == self.frames@.len(),
    {
        self.frames.len()
    }

    /// How many present ids can be looked up.
    pub fn known_ids(&self) -> (r: usize)
        requires
            self.wf(),
        ensures
            r == self.frames@.len(),
    {
        let r: usize = fx_len(&self.by_present_id);
        proof {
            law_map_mirrors_frames(*self);
        }
        r
    }

    /// Appends the latency of every frame that has both ends, in microseconds
    /// and oldest first.
    pub fn latencies_us(&self, out: &mut Vec<u64>)
        ensures
            final(out)@ == old(out)@ + latencies(self.frames@),
    {
        let ghost before = out@;
        let mut i: usize = 0;
        proof {
            assert(out@ =~= before + latencies(self.frames@.take(0)));
        }
        while i < self.frames.len()
            invariant
                i <= self.frames@.len(),
                out@ == before + latencies(self.frames@.take(i as int)),
            decreases self.frames@.len() - i,
        {
            proof {
                assert(self.frames@.take(i + 1).last() == self.frames@[i as int]);
                assert(self.frames@.take(i + 1).drop_last() =~= self.frames@.take(i as int));
            }
            if let Some(us) = self.frames[i].latency_us() {
                out.push(us);
            }
            proof {
                assert(out@ =~= before + latencies(self.frames@.take(i + 1)));
            }
            i += 1;
        }
        proof {
            assert(self.frames@.take(i as int) =~= self.frames@);
        }
    }
}

impl Default for MarkerHistory {
    fn default() -> (r: Self)
        ensures
            r.wf(),
            r.frames@ == Seq::<FrameMarkers>::empty(),
    {
        MarkerHistory::new()
    }
}

/// The history with the scanout of a frame that it knows.
pub open spec fn with_present_actual(
    s: Seq<FrameMarkers>,
    present_id: u64,
    actual_host_ns: u64,
) -> Seq<FrameMarkers> {
    if knows(s, present_id) {
        let i = slot(s, present_id);
        s.update(i, FrameMarkers { display_actual_us: (actual_host_ns / 1_000) as u64, ..s[i] })
    } else {
        s
    }
}

proof fn lemma_slot_is(s: Seq<FrameMarkers>, present_id: u64, i: int)
    requires
        distinct(s),
        is_slot(s, present_id, i),
    ensures
        knows(s, present_id),
        slot(s, present_id) == i,
{
    let w = slot(s, present_id);
    assert(is_slot(s, present_id, w));
    if w < i {
        assert(s[w].present_id != s[i].present_id);
    } else if i < w {
        assert(s[i].present_id != s[w].present_id);
    }
}

/// The map has exactly the present ids of the frames, each once.
pub proof fn law_map_mirrors_frames(h: MarkerHistory)
    requires
        h.wf(),
    ensures
        forall|id: u64| h.by_present_id@.contains_key(id) <==> knows(h.frames@, id),
        h.by_present_id@.dom().len() == h.frames@.len(),
{
    let ids = h.frames@.map_values(|f: FrameMarkers| f.present_id);
    assert forall|id: u64| h.by_present_id@.contains_key(id) <==> knows(h.frames@, id) by {
        if knows(h.frames@, id) {
            let w = slot(h.frames@, id);
            assert(is_slot(h.frames@, id, w));
            assert(h.by_present_id@.contains_key(h.frames@[w].present_id));
        }
    }
    assert forall|i: int, j: int| 0 <= i < ids.len() && 0 <= j < ids.len() && i != j implies ids[i]
        != ids[j] by {
        if i < j {
            assert(h.frames@[i].present_id != h.frames@[j].present_id);
        } else {
            assert(h.frames@[j].present_id != h.frames@[i].present_id);
        }
    }
    assert(ids.no_duplicates());
    assert(ids.to_set() =~= h.by_present_id@.dom()) by {
        assert forall|id: u64| ids.to_set().contains(id)
            <==> h.by_present_id@.dom().contains(id) by {
            if ids.to_set().contains(id) {
                let i = choose|i: int| 0 <= i < ids.len() && ids[i] == id;
                assert(is_slot(h.frames@, id, i));
            }
            if h.by_present_id@.dom().contains(id) {
                let w = slot(h.frames@, id);
                assert(is_slot(h.frames@, id, w));
                assert(ids[w] == id);
            }
        }
    }
    ids.unique_seq_to_set();
}

/// All markers of one present id go into one frame: a second marker adds none.
pub proof fn law_record_dedupes(
    s: Seq<FrameMarkers>,
    present_id: u64,
    first: i32,
    second: i32,
    first_us: u64,
    second_us: u64,
)
    requires
        distinct(s),
    ensures
        recorded(recorded(s, present_id, first, first_us), present_id, second, second_us).len()
            == recorded(s, present_id, first, first_us).len(),
{
    let once = recorded(s, present_id, first, first_us);
    if knows(s, present_id) {
        let i = slot(s, present_id);
        assert(is_slot(s, present_id, i));
        assert(is_slot(once, present_id, i));
    } else {
        assert(is_slot(once, present_id, once.len() - 1));
    }
}

/// What came under no present id is not lost: the first marker of another
/// kind that brings the id makes one frame of both.
pub proof fn law_unnamed_markers_are_merged(
    s: Seq<FrameMarkers>,
    present_id: u64,
    first: i32,
    second: i32,
    first_us: u64,
    second_us: u64,
)
    requires
        present_id != 0,
        first != second,
        !knows(s, 0),
        !knows(s, present_id),
    ensures
        ({
            let one = recorded(s, 0, first, first_us);
            let two = recorded(one, present_id, second, second_us);
            &&& two.len() == one.len()
            &&& two.drop_last() == one.drop_last()
            &&& two.last() == FrameMarkers::fresh(present_id).with_marker(
                first,
                first_us,
            ).with_marker(second, second_us)
            &&& !knows(two, 0)
        }),
{
    let one = recorded(s, 0, first, first_us);
    let two = recorded(one, present_id, second, second_us);
    let rest = one.drop_last();
    assert forall|i: int, id: u64| (id == 0 || id == present_id) implies !#[trigger] is_slot(
        rest,
        id,
        i,
    ) by {
        if is_slot(rest, id, i) {
            if s.len() == HISTORY_CAP {
                assert(is_slot(s, id, i + 1));
            } else {
                assert(is_slot(s, id, i));
            }
        }
    }
    if knows(one, present_id) {
        let w = slot(one, present_id);
        assert(is_slot(one, present_id, w));
        assert(w < one.len() - 1);
        assert(is_slot(rest, present_id, w));
    }
    assert(one.last() == FrameMarkers::fresh(0).with_marker(first, first_us));
    assert(open_for(one, second));
    assert(two.drop_last() =~= one.drop_last());
    if knows(two, 0) {
        let w = slot(two, 0);
        assert(is_slot(two, 0, w));
        assert(is_slot(rest, 0, w));
    }
}

/// The latest latency is the last of all of them, and 0 exactly where there
/// is none.
pub proof fn law_latest_is_the_last(s: Seq<FrameMarkers>)
    ensures
        newest_latency(s) == (if latencies(s).len() == 0 {
            0
        } else {
            latencies(s).last()
        }),
        newest_latency(s) == 0 <==> latencies(s).len() == 0,
    decreases s.len(),
{
    if s.len() > 0 {
        law_latest_is_the_last(s.drop_last());
    }
}

/// The order in which the queues of a frame report does not matter: in the
/// end the times span them all.
pub proof fn law_widening_commutes(f: FrameMarkers, s1: u64, e1: u64, s2: u64, e2: u64)
    requires
        s1 != 0,
        s2 != 0,
    ensures
        f.widened(s1, e1).widened(s2, e2) == f.widened(s2, e2).widened(s1, e1),
        f.widened(s1, e1).gpu_render_start_us <= s1,
        f.widened(s1, e1).gpu_render_end_us >= e1,
{
}

/// The measured scanout never touches what the application said of its
/// present.
pub proof fn law_present_actual_keeps_present_end(
    s: Seq<FrameMarkers>,
    present_id: u64,
    actual_host_ns: u64,
    i: int,
)
    requires
        0 <= i < s.len(),
    ensures
        with_present_actual(s, present_id, actual_host_ns).len() == s.len(),
        with_present_actual(s, present_id, actual_host_ns)[i].present_end_us == s[i].present_end_us,
        with_present_actual(s, present_id, actual_host_ns)[i].present_id == s[i].present_id,
{
    if knows(s, present_id) {
        assert(is_slot(s, present_id, slot(s, present_id)));
    }
}

/// The time that a report has of a marker, by the marker's number in the
/// interface.
pub open spec fn time_of(r: FrameReport, marker: i32) -> u64 {
    match marker {
        0 => r.sim_start_time_us,
        1 => r.sim_end_time_us,
        2 => r.render_submit_start_time_us,
        3 => r.render_submit_end_time_us,
        4 => r.present_start_time_us,
        5 => r.present_end_time_us,
        6 => r.input_sample_time_us,
        _ => 0,
    }
}

/// A marker shows up in the report of its frame, under its own stage and with
/// its time in microseconds. The other stages of the frame keep their times,
/// and a frame that is new has none but this one. The frame is the newest of
/// the history where it is new. Only one frame has the present id.
pub proof fn law_marker_is_reported(
    h: &mut MarkerHistory,
    present_id: u64,
    marker: i32,
    now_ns: u64,
    i: int,
    other: i32,
)
    requires
        old(h).wf(),
        0 <= marker <= 6,
        0 <= other <= 6,
        other != marker,
        call_ensures(MarkerHistory::record, (h, present_id, marker, now_ns), ()),
        0 <= i < final(h).frames@.len(),
        final(h).frames@[i].present_id == present_id,
    ensures
        stage_of(final(h).frames@[i], marker) == now_ns / 1_000,
        now_ns >= 1_000 ==> time_of(final(h).frames@[i].report(), marker) == now_ns / 1_000,
        final(h).frames@[i].report().present_id == present_id,
        knows(old(h).frames@, present_id) ==> old(h).frames@[i].present_id == present_id
            && time_of(final(h).frames@[i].report(), other) == time_of(
            old(h).frames@[i].report(),
            other,
        ),
        !knows(old(h).frames@, present_id) ==> i == final(h).frames@.len() - 1,
        !knows(old(h).frames@, present_id) && !knows(old(h).frames@, 0) ==> time_of(
            final(h).frames@[i].report(),
            other,
        ) == 0,
{
    let s = old(h).frames@;
    let t = final(h).frames@;
    if knows(s, present_id) {
        let w = slot(s, present_id);
        assert(is_slot(s, present_id, w));
        assert(is_slot(t, present_id, w));
        lemma_slot_is(t, present_id, w);
        lemma_slot_is(t, present_id, i);
        assert(i == w);
    } else {
        let last = t.len() - 1;
        assert(is_slot(t, present_id, last));
        lemma_slot_is(t, present_id, last);
        lemma_slot_is(t, present_id, i);
        assert(i == last);
        if !knows(s, 0) && s.len() > 0 {
            assert(is_slot(s, 0, s.len() - 1) == (s.last().present_id == 0));
        }
    }
}

/// The time that a frame has of a marker, by the marker's number in the
/// interface.
pub open spec fn stage_of(f: FrameMarkers, marker: i32) -> u64 {
    match marker {
        0 => f.sim_start_us,
        1 => f.sim_end_us,
        2 => f.render_submit_start_us,
        3 => f.render_submit_end_us,
        4 => f.present_start_us,
        5 => f.present_end_us,
        6 => f.input_sample_us,
        _ => 0,
    }
}

/// A marker leaves the frames of other presents as they are. Only the newest
/// frame, where it came without an id and without this marker, takes the id of
/// a present that is unknown, and keeps its other markers. Else an unknown
/// present comes behind all others, and only a full history of 128 gives up
/// its oldest frame for it.
pub proof fn law_marker_touches_one_frame(
    h: &mut MarkerHistory,
    present_id: u64,
    marker: i32,
    now_ns: u64,
    i: int,
    other: i32,
)
    requires
        old(h).wf(),
        call_ensures(MarkerHistory::record, (h, present_id, marker, now_ns), ()),
        0 <= i < old(h).frames@.len(),
        old(h).frames@[i].present_id != present_id,
        other != marker,
    ensures
        ({
            let s = old(h).frames@;
            let t = final(h).frames@;
            let known = knows(s, present_id);
            let merges = !known && present_id != 0 && s.last().present_id == 0 && stage_of(
                s.last(),
                marker,
            ) == 0;
            let gives_up = !known && !merges && s.len() == 128;
            &&& known || merges || gives_up ==> t.len() == s.len()
            &&& !known && !merges && !gives_up ==> t.len() == s.len() + 1
            &&& gives_up && i > 0 ==> t[i - 1] == s[i]
            &&& merges && i == s.len() - 1 ==> {
                &&& t[i].present_id == present_id
                &&& stage_of(t[i], other) == stage_of(s[i], other)
                &&& t[i].display_actual_us == s[i].display_actual_us
                &&& t[i].gpu_render_start_us == s[i].gpu_render_start_us
                &&& t[i].gpu_render_end_us == s[i].gpu_render_end_us
            }
            &&& !gives_up && !(merges && i == s.len() - 1) ==> t[i] == s[i]
            &&& known || t.last().present_id == present_id
        }),
{
    let s = old(h).frames@;
    if knows(s, present_id) {
        assert(is_slot(s, present_id, slot(s, present_id)));
    }
}

/// Whether a frame has a latency: from the input that was sampled to the
/// scanout that was measured, or to the end of the present where none was.
pub open spec fn has_latency(f: FrameMarkers, us: u64) -> bool {
    let end = if f.display_actual_us > 0 {
        f.display_actual_us
    } else {
        f.present_end_us
    };
    f.input_sample_us > 0 && us > 0 && f.input_sample_us + us == end
}

/// The latest latency is that of a frame behind which no frame has one, and 0
/// where no frame has any.
pub proof fn law_latest_latency_is_of_the_newest(h: &MarkerHistory, r: u64)
    requires
        call_ensures(MarkerHistory::latest_latency_us, (h,), r),
    ensures
        r == 0 ==> forall|i: int, us: u64|
            0 <= i < h.frames@.len() ==> !#[trigger] has_latency(h.frames@[i], us),
        r > 0 ==> exists|i: int|
            0 <= i < h.frames@.len() && has_latency(#[trigger] h.frames@[i], r) && forall|
                j: int,
                us: u64,
            |
                i < j < h.frames@.len() ==> !#[trigger] has_latency(h.frames@[j], us),
{
    lemma_newest(h.frames@);
}

proof fn lemma_newest(s: Seq<FrameMarkers>)
    ensures
        newest_latency(s) == 0 ==> forall|i: int, us: u64|
            0 <= i < s.len() ==> !#[trigger] has_latency(s[i], us),
        newest_latency(s) > 0 ==> exists|i: int|
            0 <= i < s.len() && has_latency(#[trigger] s[i], newest_latency(s)) && forall|
                j: int,
                us: u64,
            |
                i < j < s.len() ==> !#[trigger] has_latency(s[j], us),
    decreases s.len(),
{
    if s.len() > 0 {
        let rest = s.drop_last();
        let n = s.len() - 1;
        lemma_newest(rest);
        assert(s.last() == s[n]);
        match s.last().latency() {
            Some(us) => {
                assert(has_latency(s[n], us));
                assert(newest_latency(s) > 0);
            },
            None => {
                assert forall|us: u64| !has_latency(s[n], us) by {}
                if newest_latency(rest) > 0 {
                    let i = choose|i: int|
                        0 <= i < rest.len() && has_latency(#[trigger] rest[i], newest_latency(rest))
                            && forall|j: int, us: u64|
                            i < j < rest.len() ==> !#[trigger] has_latency(rest[j], us);
                    assert(s[i] == rest[i]);
                    assert forall|j: int, us: u64| i < j < s.len() implies !#[trigger] has_latency(
                        s[j],
                        us,
                    ) by {
                        if j < n {
                            assert(s[j] == rest[j]);
                        }
                    }
                } else {
                    assert forall|i: int, us: u64| 0 <= i < s.len() implies !#[trigger] has_latency(
                        s[i],
                        us,
                    ) by {
                        if i < n {
                            assert(s[i] == rest[i]);
                        }
                    }
                }
            },
        }
    }
}

/// The latencies are those of all frames that have one, oldest first, behind
/// what was there.
pub proof fn law_latencies_are_complete(h: &MarkerHistory, out: &mut Vec<u64>)
    requires
        call_ensures(MarkerHistory::latencies_us, (h, out), ()),
    ensures
        final(out)@ == old(out)@ + h.frames@.filter_map(
            |f: FrameMarkers|
                {
                    let end = if f.display_actual_us > 0 {
                        f.display_actual_us
                    } else {
                        f.present_end_us
                    };
                    if f.input_sample_us > 0 && end > f.input_sample_us {
                        Some((end - f.input_sample_us) as u64)
                    } else {
                        None
                    }
                },
        ),
{
    lemma_latencies(h.frames@);
}

proof fn lemma_latencies(s: Seq<FrameMarkers>)
    ensures
        latencies(s) == s.filter_map(
            |f: FrameMarkers|
                {
                    let end = if f.display_actual_us > 0 {
                        f.display_actual_us
                    } else {
                        f.present_end_us
                    };
                    if f.input_sample_us > 0 && end > f.input_sample_us {
                        Some((end - f.input_sample_us) as u64)
                    } else {
                        None
                    }
                },
        ),
    decreases s.len(),
{
    reveal(Seq::filter_map);
    if s.len() > 0 {
        lemma_latencies(s.drop_last());
    }
}

/// A reader gets the newest frames, newest first, as many as it has room for:
/// each is whole, and none is left out between two.
pub proof fn law_reader_gets_the_newest(h: &MarkerHistory, capacity: usize, r: Vec<FrameReport>, i: int)
    requires
        call_ensures(MarkerHistory::fill, (h, capacity), r),
        0 <= i < r@.len(),
    ensures
        r@.len() == capacity || (r@.len() == h.frames@.len() && r@.len() < capacity),
        r@.len() <= h.frames@.len(),
        ({
            let f = h.frames@[h.frames@.len() - 1 - i];
            &&& r@[i].present_id == f.present_id
            &&& r@[i].input_sample_time_us == f.input_sample_us
            &&& r@[i].sim_start_time_us == f.sim_start_us
            &&& r@[i].sim_end_time_us == f.sim_end_us
            &&& r@[i].render_submit_start_time_us == f.render_submit_start_us
            &&& r@[i].render_submit_end_time_us == f.render_submit_end_us
            &&& r@[i].present_start_time_us == f.present_start_us
            &&& r@[i].gpu_render_start_time_us == f.gpu_render_start_us
            &&& r@[i].gpu_render_end_time_us == f.gpu_render_end_us
            &&& f.present_end_us > 0 ==> r@[i].present_end_time_us == f.present_end_us
            &&& f.present_end_us == 0 ==> r@[i].present_end_time_us == f.display_actual_us
        }),
{
}

/// A reader that asks how much room it needs is told of every frame.
pub proof fn law_count_is_enough_room(
    h: &MarkerHistory,
    count: usize,
    known: usize,
    all: Vec<FrameReport>,
)
    requires
        h.wf(),
        call_ensures(MarkerHistory::report_count, (h,), count),
        call_ensures(MarkerHistory::known_ids, (h,), known),
        call_ensures(MarkerHistory::fill, (h, count), all),
    ensures
        all@.len() == h.frames@.len(),
        count == all@.len(),
        known == count,
{
}

/// Whether two frames differ in no time but those of the GPU and the scanout.
pub open spec fn same_markers(a: FrameMarkers, b: FrameMarkers) -> bool {
    &&& a.present_id == b.present_id
    &&& a.input_sample_us == b.input_sample_us
    &&& a.sim_start_us == b.sim_start_us
    &&& a.sim_end_us == b.sim_end_us
    &&& a.render_submit_start_us == b.render_submit_start_us
    &&& a.render_submit_end_us == b.render_submit_end_us
    &&& a.present_start_us == b.present_start_us
    &&& a.present_end_us == b.present_end_us
}

/// What is measured of a present goes into its frame and no other, in
/// microseconds, and touches no marker. A present that the history does not
/// know changes nothing. The GPU's times are set, or widened: a widened start
/// is the earliest that was seen and a widened end the latest.
pub proof fn law_measured_times_reach_their_frame(
    set: &mut MarkerHistory,
    wide: &mut MarkerHistory,
    actual: &mut MarkerHistory,
    present_id: u64,
    start_ns: u64,
    end_ns: u64,
    i: int,
)
    requires
        old(set).wf(),
        *old(wide) == *old(set),
        *old(actual) == *old(set),
        call_ensures(MarkerHistory::record_gpu_timing, (set, present_id, start_ns, end_ns), ()),
        call_ensures(MarkerHistory::record_gpu_widest, (wide, present_id, start_ns, end_ns), ()),
        call_ensures(MarkerHistory::record_present_actual, (actual, present_id, end_ns), ()),
        0 <= i < old(set).frames@.len(),
    ensures
        final(set).frames@.len() == old(set).frames@.len(),
        final(wide).frames@.len() == old(set).frames@.len(),
        final(actual).frames@.len() == old(set).frames@.len(),
        ({
            let was = old(set).frames@[i];
            let s = final(set).frames@[i];
            let w = final(wide).frames@[i];
            let a = final(actual).frames@[i];
            let start_us = start_ns as int / 1_000;
            let end_us = end_ns as int / 1_000;
            &&& was.present_id != present_id ==> s == was && w == was && a == was
            &&& was.present_id == present_id ==> {
                &&& same_markers(s, was) && same_markers(w, was) && same_markers(a, was)
                &&& s.display_actual_us == was.display_actual_us
                &&& w.display_actual_us == was.display_actual_us
                &&& a.display_actual_us == end_us
                &&& a.gpu_render_start_us == was.gpu_render_start_us
                &&& a.gpu_render_end_us == was.gpu_render_end_us
                &&& s.gpu_render_start_us == start_us && s.gpu_render_end_us == end_us
                &&& w.gpu_render_start_us <= start_us && w.gpu_render_end_us >= end_us
                &&& was.gpu_render_start_us > 0 ==> w.gpu_render_start_us
                    <= was.gpu_render_start_us
                &&& w.gpu_render_end_us >= was.gpu_render_end_us
                &&& w.gpu_render_start_us == start_us || w.gpu_render_start_us
                    == was.gpu_render_start_us
                &&& was.gpu_render_start_us == 0 ==> w.gpu_render_start_us == start_us
                &&& w.gpu_render_end_us == end_us || w.gpu_render_end_us == was.gpu_render_end_us
            }
        }),
{
    let s = old(set).frames@;
    if knows(s, present_id) {
        assert(is_slot(s, present_id, slot(s, present_id)));
    }
    if s[i].present_id == present_id {
        assert(is_slot(s, present_id, i));
        lemma_slot_is(s, present_id, i);
    }
}

/// A marker that the report has no place for sets nothing: a frame that is
/// known stays as it is, and a new one has no times.
pub proof fn law_other_markers_set_nothing(
    h: &mut MarkerHistory,
    present_id: u64,
    marker: i32,
    now_ns: u64,
    i: int,
    stage: i32,
)
    requires
        old(h).wf(),
        marker < 0 || marker > 6,
        0 <= stage <= 6,
        call_ensures(MarkerHistory::record, (h, present_id, marker, now_ns), ()),
        0 <= i < final(h).frames@.len(),
        final(h).frames@[i].present_id == present_id,
    ensures
        knows(old(h).frames@, present_id) ==> final(h).frames@[i] == old(h).frames@[i],
        !knows(old(h).frames@, present_id) && !knows(old(h).frames@, 0) ==> stage_of(
            final(h).frames@[i],
            stage,
        ) == 0,
{
    let s = old(h).frames@;
    let t = final(h).frames@;
    if knows(s, present_id) {
        let w = slot(s, present_id);
        assert(is_slot(s, present_id, w));
        assert(is_slot(t, present_id, w));
        lemma_slot_is(t, present_id, w);
        lemma_slot_is(t, present_id, i);
    } else {
        let last = t.len() - 1;
        assert(is_slot(t, present_id, last));
        lemma_slot_is(t, present_id, last);
        lemma_slot_is(t, present_id, i);
        if s.len() > 0 {
            assert(is_slot(s, 0, s.len() - 1) == (s.last().present_id == 0));
        }
    }
}

} // verus!
