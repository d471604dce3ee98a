//! The strategy behind `VK_AMD_anti_lag`.
//!
//! The application gives two updates per frame: one before it samples its
//! input, from which on submissions are collected, and one before it
//! presents, which ends that. At the next input the collected work is waited
//! for, and the frame is delayed.

use vstd::prelude::*;
use crate::amd_anti_lag;
use crate::amd_anti_lag::AntiLagDataAMD;
use crate::config;
use crate::strategy::low_latency2::markers;
use crate::strategy::low_latency2::markers::{FrameMarkers, MarkerHistory};
use crate::submission_span;
use crate::submission_span::{extend_or_init, SubmissionSpan};
use crate::vk;

verus! {

pub struct AntiLagDeviceStrategy {
    /// The frame whose submissions are being collected.
    pub frame_index: Option<u64>,
    pub enabled: bool,
}

/// The shortest time between two frames under a cap; 0 = uncapped.
pub fn compute_min_delay_ns(max_fps: u32) -> (r: u64)
    ensures
        r == config::cap_delay_ns(max_fps),
{
    if max_fps == 0 {
        0
    } else {
        1_000_000_000 / max_fps as u64
    }
}

/// Whether an update enables the strategy.
pub open spec fn enables(data: AntiLagDataAMD) -> bool {
    data.mode.0 != amd_anti_lag::ANTI_LAG_MODE_OFF
}

/// The stricter of the application's cap and the layer's: the longer delay.
pub open spec fn update_delay(data: AntiLagDataAMD, layer_cap_ns: u64) -> u64 {
    let app_cap = config::cap_delay_ns(data.max_fps);
    if app_cap >= layer_cap_ns {
        app_cap
    } else {
        layer_cap_ns
    }
}

/// What an update does to the collecting of submissions.
pub open spec fn frame_after(frame: Option<u64>, data: AntiLagDataAMD) -> Option<u64> {
    match data.presentation {
        Some(p) => if !enables(data) {
            frame
        } else if p.stage.0 == amd_anti_lag::ANTI_LAG_STAGE_PRESENT {
            None
        } else {
            Some(p.frame_index)
        },
        None => frame,
    }
}

/// What an update puts into the history, at `now_ns`.
pub open spec fn markers_after(
    frames: Seq<FrameMarkers>,
    data: AntiLagDataAMD,
    now_ns: u64,
) -> Seq<FrameMarkers> {
    let us = (now_ns / 1_000) as u64;
    match data.presentation {
        Some(p) => if !enables(data) {
            frames
        } else if p.stage.0 == amd_anti_lag::ANTI_LAG_STAGE_PRESENT {
            markers::with_present_actual(
                markers::recorded(frames, p.frame_index, vk::MARKER_PRESENT_END, us),
                p.frame_index,
                now_ns,
            )
        } else if p.stage.0 == amd_anti_lag::ANTI_LAG_STAGE_INPUT {
            markers::recorded(frames, p.frame_index, vk::MARKER_INPUT_SAMPLE, us)
        } else {
            frames
        },
        None => frames,
    }
}

/// Whether an update has the frame wait and be delayed.
pub open spec fn paces(data: AntiLagDataAMD) -> bool {
    enables(data) && (data.presentation matches Some(p) && p.stage.0
        != amd_anti_lag::ANTI_LAG_STAGE_PRESENT)
}

impl AntiLagDeviceStrategy {
    pub fn new() -> (r: Self)
        ensures
            r.frame_index is None,
            !r.enabled,
    {
        AntiLagDeviceStrategy { frame_index: None, enabled: false }
    }

    /// Whether submissions are being collected. Outside of the window from
    /// input to present their timestamps would be discarded anyway.
    pub fn should_track_submissions(&self) -> (r: bool)
        ensures
            r == (self.enabled && self.frame_index is Some),
    {
        self.enabled && self.frame_index.is_some()
    }

    /// Takes an update in. Where a delay is given back, the collected work is
    /// to be waited for and the frame to be delayed by at least that.
    pub fn notify_update(
        &mut self,
        history: &mut MarkerHistory,
        data: &AntiLagDataAMD,
        layer_cap_ns: u64,
        now_ns: u64,
    ) -> (r: Option<u64>)
        requires
            old(history).wf(),
        ensures
            final(history).wf(),
            final(self).enabled == enables(*data),
            final(self).frame_index == frame_after(old(self).frame_index, *data),
            final(history).frames@ == markers_after(old(history).frames@, *data, now_ns),
            r == (if paces(*data) {
                Some(update_delay(*data, layer_cap_ns))
            } else {
                None
            }),
    {
        self.enabled = data.mode.0 != amd_anti_lag::ANTI_LAG_MODE_OFF;
        let app_cap: u64 = compute_min_delay_ns(data.max_fps);
        let min_delay_ns: u64 = if app_cap >= layer_cap_ns {
            app_cap
        } else {
            layer_cap_ns
        };
        let p = match data.presentation {
            Some(p) => p,
            None => {
                return None;
            },
        };
        if !self.enabled {
            return None;
        }
        if p.stage.0 == amd_anti_lag::ANTI_LAG_STAGE_PRESENT {
            self.frame_index = None;
            history.record(p.frame_index, vk::MARKER_PRESENT_END, now_ns);
            history.record_present_actual(p.frame_index, now_ns);
            return None;
        }
        self.frame_index = Some(p.frame_index);
        if p.stage.0 == amd_anti_lag::ANTI_LAG_STAGE_INPUT {
            history.record(p.frame_index, vk::MARKER_INPUT_SAMPLE, now_ns);
        }
        Some(min_delay_ns)
    }
}

impl Default for AntiLagDeviceStrategy {
    fn default() -> (r: Self)
        ensures
            r.frame_index is None,
            !r.enabled,
    {
        AntiLagDeviceStrategy::new()
    }
}

/// The work of one queue since its span was last taken.
pub struct AntiLagQueueStrategy<H> {
    pub span: Option<SubmissionSpan<H>>,
}

impl<H> AntiLagQueueStrategy<H> {
    pub fn new() -> (r: Self)
        ensures
            r.span is None,
    {
        AntiLagQueueStrategy { span: None }
    }

    pub fn take_submission_span(&mut self) -> (r: Option<SubmissionSpan<H>>)
        ensures
            r == old(self).span,
            final(self).span is None,
    {
        self.span.take()
    }

    pub fn notify_submit(&mut self, handle: H)
        ensures
            final(self).span == Some(submission_span::extended(old(self).span, handle)),
    {
        extend_or_init(&mut self.span, handle);
    }
}

impl<H> Default for AntiLagQueueStrategy<H> {
    fn default() -> (r: Self)
        ensures
            r.span is None,
    {
        AntiLagQueueStrategy::new()
    }
}

/// The spans that the queues hold, in the order of the queues.
pub open spec fn spans_of<H>(queues: Seq<AntiLagQueueStrategy<H>>) -> Seq<SubmissionSpan<H>>
    decreases queues.len(),
{
    if queues.len() == 0 {
        Seq::empty()
    } else {
        let rest = spans_of(queues.drop_last());
        match queues.last().span {
            Some(span) => rest.push(span),
            None => rest,
        }
    }
}

/// Takes every queue's outstanding span, before they are waited for.
pub fn steal_spans<H>(queues: &mut Vec<AntiLagQueueStrategy<H>>) -> (r: Vec<SubmissionSpan<H>>)
    ensures
        r@ == spans_of(old(queues)@),
        final(queues)@.len() == old(queues)@.len(),
        forall|i: int| 0 <= i < final(queues)@.len()
            ==> (#[trigger] final(queues)@[i]).span is None,
{
    let ghost before = queues@;
    let mut work: Vec<SubmissionSpan<H>> = Vec::new();
    let mut i: usize = 0;
    while i < queues.len()
        invariant
            i <= queues@.len(),
            queues@.len() == before.len(),
            forall|j: int| 0 <= j < i ==> (#[trigger] queues@[j]).span is None,
            forall|j: int| i <= j < before.len() ==> #[trigger] queues@[j] == before[j],
            work@ == spans_of(before.take(i as int)),
        decreases queues@.len() - i,
    {
        proof {
            assert(before.take(i + 1).last() == before[i as int]);
            assert(before.take(i + 1).drop_last() =~= before.take(i as int));
            assert(queues@[i as int] == before[i as int]);
        }
        if let Some(span) = queues[i].take_submission_span() {
            work.push(span);
        }
        i += 1;
    }
    proof {
        assert(before.take(i as int) =~= before);
    }
    work
}

/// Submissions are collected from the input stage of a frame to its present
/// stage and at no other time.
pub proof fn law_tracking_window(frame: Option<u64>, input: AntiLagDataAMD, present: AntiLagDataAMD)
    requires
        enables(input),
        input.presentation matches Some(p) && p.stage.0 == amd_anti_lag::ANTI_LAG_STAGE_INPUT,
        enables(present),
        present.presentation matches Some(p) && p.stage.0 == amd_anti_lag::ANTI_LAG_STAGE_PRESENT,
    ensures
        frame_after(frame, input) is Some,
        frame_after(frame_after(frame, input), present) is None,
{
}

/// A whole frame, from input to present, gives a latency: the time between
/// the two updates, where the frame is new to the history and the clock is
/// not at its very start.
pub proof fn law_frame_gives_its_latency(
    frames: Seq<FrameMarkers>,
    input: AntiLagDataAMD,
    present: AntiLagDataAMD,
    start_ns: u64,
    end_ns: u64,
)
    requires
        enables(input),
        enables(present),
        input.presentation matches Some(p) && p.stage.0 == amd_anti_lag::ANTI_LAG_STAGE_INPUT,
        present.presentation matches Some(p) && p.stage.0 == amd_anti_lag::ANTI_LAG_STAGE_PRESENT,
        input.presentation->0.frame_index == present.presentation->0.frame_index,
        !markers::knows(frames, input.presentation->0.frame_index),
        start_ns >= 1_000,
        end_ns / 1_000 > start_ns / 1_000,
    ensures
        markers::newest_latency(
            markers_after(markers_after(frames, input, start_ns), present, end_ns),
        ) == end_ns / 1_000 - start_ns / 1_000,
{
    let id = input.presentation->0.frame_index;
    let one = markers_after(frames, input, start_ns);
    let last = one.len() - 1;
    assert(markers::is_slot(one, id, last));
    assert forall|i: int| markers::is_slot(one, id, i) implies i == last by {
        if i < last && id != 0 && markers::open_for(frames, vk::MARKER_INPUT_SAMPLE) {
            assert(one[i] == frames[i]);
            assert(markers::is_slot(frames, id, i));
        } else if i < last {
            let rest = if frames.len() == markers::HISTORY_CAP {
                frames.drop_first()
            } else {
                frames
            };
            assert(one[i] == rest[i]);
            if frames.len() == markers::HISTORY_CAP {
                assert(markers::is_slot(frames, id, i + 1));
            } else {
                assert(markers::is_slot(frames, id, i));
            }
        }
    }
    assert(markers::is_slot(one, id, markers::slot(one, id)));
    let two = markers::recorded(one, id, vk::MARKER_PRESENT_END, (end_ns / 1_000) as u64);
    assert(markers::is_slot(two, id, last));
    assert(markers::is_slot(two, id, markers::slot(two, id)));
    assert(markers::slot(two, id) == last) by {
        let w = markers::slot(two, id);
        if w < last {
            assert(two[w] == one[w]);
            assert(markers::is_slot(one, id, w));
        }
    }
    let three = markers_after(one, present, end_ns);
    assert(three.last() == three[last]);
}

/// A frame that is paced waits as long as the stricter cap says: no less than
/// the layer's cap asks for and no less than the application's, and no more
/// than one of the two. An application without a cap leaves the layer's.
pub proof fn law_update_obeys_both_caps(
    s: &mut AntiLagDeviceStrategy,
    history: &mut MarkerHistory,
    data: AntiLagDataAMD,
    layer_cap_ns: u64,
    now_ns: u64,
    r: Option<u64>,
)
    requires
        call_ensures(
            AntiLagDeviceStrategy::notify_update,
            (s, history, &data, layer_cap_ns, now_ns),
            r,
        ),
    ensures
        r matches Some(delay_ns) ==> {
            &&& delay_ns >= layer_cap_ns
            &&& data.max_fps > 0 ==> (delay_ns + 1) * data.max_fps > 1_000_000_000
            &&& delay_ns == layer_cap_ns || (data.max_fps > 0 && delay_ns * data.max_fps
                <= 1_000_000_000)
            &&& data.max_fps == 0 ==> delay_ns == layer_cap_ns
        },
{
    if data.max_fps > 0 {
        let n = data.max_fps as int;
        let q = 1_000_000_000int / n;
        lemma_cap_is_floor(n, q);
        if let Some(d) = r {
            assert((d + 1) * n >= (q + 1) * n) by (nonlinear_arith)
                requires
                    d >= q,
                    n > 0,
            ;
        }
    }
}

proof fn lemma_cap_is_floor(n: int, q: int)
    by (nonlinear_arith)
    requires
        n > 0,
        q == 1_000_000_000int / n,
    ensures
        q * n <= 1_000_000_000,
        (q + 1) * n > 1_000_000_000,
{
}

/// Which updates do what, by the numbers of the interface. Mode 2 is off and
/// every other is on. Stage 1 comes before the present and ends the frame;
/// any other stage begins one and is paced. An update that is off, or names no
/// frame, paces nothing and begins nothing.
pub proof fn law_update_by_mode_and_stage(
    s: &mut AntiLagDeviceStrategy,
    history: &mut MarkerHistory,
    data: AntiLagDataAMD,
    layer_cap_ns: u64,
    now_ns: u64,
    r: Option<u64>,
)
    requires
        call_ensures(
            AntiLagDeviceStrategy::notify_update,
            (s, history, &data, layer_cap_ns, now_ns),
            r,
        ),
    ensures
        final(s).enabled == (data.mode.0 != 2),
        data.mode.0 == 2 || data.presentation is None ==> r is None
            && final(s).frame_index == old(s).frame_index
                && final(history).frames@ == old(history).frames@,
        data.mode.0 != 2 ==> (data.presentation matches Some(p) ==> {
            &&& p.stage.0 == 1 ==> r is None && final(s).frame_index is None
            &&& p.stage.0 != 1 ==> r is Some && final(s).frame_index == Some(p.frame_index)
            &&& p.stage.0 != 0 && p.stage.0 != 1 ==> final(history).frames@ == old(history).frames@
        }),
{
}

/// After an update before the input, and until the next one before a present,
/// submissions are collected; after that they are not, nor while it is off.
pub proof fn law_submissions_are_collected_within_a_frame(
    s: &mut AntiLagDeviceStrategy,
    history: &mut MarkerHistory,
    data: AntiLagDataAMD,
    layer_cap_ns: u64,
    now_ns: u64,
    r: Option<u64>,
    collects: bool,
)
    requires
        call_ensures(
            AntiLagDeviceStrategy::notify_update,
            (s, history, &data, layer_cap_ns, now_ns),
            r,
        ),
        call_ensures(AntiLagDeviceStrategy::should_track_submissions, (&*final(s),), collects),
    ensures
        r is Some ==> collects,
        data.mode.0 == 2 ==> !collects,
        data.mode.0 != 2 ==> (data.presentation matches Some(p) ==> collects == (p.stage.0 != 1)),
{
}

/// The work that is waited for at an input is that of every queue, in their
/// order and each once, and afterwards no queue has any left.
pub proof fn law_all_collected_work_is_taken<H>(
    queues: &mut Vec<AntiLagQueueStrategy<H>>,
    r: Vec<SubmissionSpan<H>>,
    i: int,
)
    requires
        call_ensures(steal_spans::<H>, (queues,), r),
        0 <= i < old(queues)@.len(),
    ensures
        r@ == old(queues)@.filter(|q: AntiLagQueueStrategy<H>| q.span is Some).map_values(
            |q: AntiLagQueueStrategy<H>| q.span->0,
        ),
        final(queues)@.len() == old(queues)@.len(),
        final(queues)@[i].span is None,
{
    lemma_spans_filter(old(queues)@);
}

proof fn lemma_spans_filter<H>(queues: Seq<AntiLagQueueStrategy<H>>)
    ensures
        spans_of(queues) == queues.filter(
            |q: AntiLagQueueStrategy<H>| q.span is Some,
        ).map_values(|q: AntiLagQueueStrategy<H>| q.span->0),
    decreases queues.len(),
{
    reveal(Seq::filter);
    let p = |q: AntiLagQueueStrategy<H>| q.span is Some;
    let f = |q: AntiLagQueueStrategy<H>| q.span->0;
    if queues.len() > 0 {
        let rest = queues.drop_last();
        lemma_spans_filter(rest);
        assert(rest.filter(p).push(queues.last()).map_values(f) =~= rest.filter(p).map_values(
            f,
        ).push(f(queues.last())));
    } else {
        assert(queues.filter(p).map_values(f) =~= Seq::empty());
    }
}

/// A queue's span ends with the newest submission and begins with the first
/// since it was last taken. Taking it leaves nothing.
pub proof fn law_span_is_collected_and_taken<H>(
    a: &mut AntiLagQueueStrategy<H>,
    handle: H,
    b: &mut AntiLagQueueStrategy<H>,
    r: Option<SubmissionSpan<H>>,
)
    requires
        call_ensures(AntiLagQueueStrategy::<H>::notify_submit, (a, handle), ()),
        *old(b) == *final(a),
        call_ensures(AntiLagQueueStrategy::<H>::take_submission_span, (b,), r),
    ensures
        final(b).span is None,
        r matches Some(s) && s.last() == handle && s.head == (match old(a).span {
            Some(was) => was.head,
            None => handle,
        }),
{
}

/// The shortest time between two frames under a cap is the longest whole
/// number of nanoseconds of which as many as the cap fit into a second.
pub proof fn law_cap_fits_into_a_second(max_fps: u32, r: u64)
    requires
        call_ensures(compute_min_delay_ns, (max_fps,), r),
    ensures
        max_fps == 0 ==> r == 0,
        max_fps > 0 ==> r * max_fps <= 1_000_000_000 < (r + 1) * max_fps,
{
    if max_fps > 0 {
        lemma_cap_is_floor(max_fps as int, 1_000_000_000int / max_fps as int);
    }
}

/// An update before the input marks the sampling of the input of its frame, and
/// one before the present marks the end of the present and the scanout, each
/// at its moment in microseconds. No frame of another index that has one
/// changes.
pub proof fn law_update_marks_its_frame(
    s: &mut AntiLagDeviceStrategy,
    history: &mut MarkerHistory,
    data: AntiLagDataAMD,
    layer_cap_ns: u64,
    now_ns: u64,
    r: Option<u64>,
    i: int,
)
    requires
        old(history).wf(),
        call_ensures(
            AntiLagDeviceStrategy::notify_update,
            (s, history, &data, layer_cap_ns, now_ns),
            r,
        ),
        data.mode.0 != 2,
        data.presentation is Some,
        0 <= i < final(history).frames@.len(),
        final(history).frames@[i].present_id == data.presentation->0.frame_index,
    ensures
        data.presentation->0.stage.0 == 0 ==> final(history).frames@[i].input_sample_us == now_ns
            / 1_000,
        data.presentation->0.stage.0 == 1 ==> final(history).frames@[i].present_end_us == now_ns
            / 1_000 && final(history).frames@[i].display_actual_us == now_ns / 1_000,
        data.presentation->0.stage.0 == 0 || data.presentation->0.stage.0 == 1 ==> markers::knows(
            final(history).frames@,
            data.presentation->0.frame_index,
        ),
{
    let p = data.presentation->0;
    let id = p.frame_index;
    let frames = old(history).frames@;
    let us = (now_ns / 1_000) as u64;
    let after = final(history).frames@;
    assert(markers::is_slot(after, id, i));
    if p.stage.0 == 1 {
        let one = markers::recorded(frames, id, vk::MARKER_PRESENT_END, us);
        lemma_recorded_slot(frames, id, vk::MARKER_PRESENT_END, us);
        let w = markers::slot(one, id);
        assert(markers::is_slot(one, id, w));
        assert(after == markers::with_present_actual(one, id, now_ns));
        assert(markers::is_slot(after, id, w));
        lemma_one_slot(after, id, i, w);
    } else if p.stage.0 == 0 {
        lemma_recorded_slot(frames, id, vk::MARKER_INPUT_SAMPLE, us);
        let w = markers::slot(after, id);
        assert(markers::is_slot(after, id, w));
        lemma_one_slot(after, id, i, w);
    }
}

/// A frame has one place.
proof fn lemma_one_slot(s: Seq<FrameMarkers>, id: u64, i: int, j: int)
    requires
        markers::distinct(s),
        markers::is_slot(s, id, i),
        markers::is_slot(s, id, j),
    ensures
        i == j,
{
    if i < j {
        assert(s[i].present_id != s[j].present_id);
    } else if j < i {
        assert(s[j].present_id != s[i].present_id);
    }
}

/// A marker is in the frame that it was recorded for.
proof fn lemma_recorded_slot(s: Seq<FrameMarkers>, id: u64, marker: i32, us: u64)
    ensures
        ({
            let t = markers::recorded(s, id, marker, us);
            let w = markers::slot(t, id);
            &&& markers::knows(t, id)
            &&& markers::is_slot(t, id, w)
            &&& markers::distinct(t) && marker == vk::MARKER_INPUT_SAMPLE
                ==> t[w].input_sample_us == us
            &&& markers::distinct(t) && marker == vk::MARKER_PRESENT_END
                ==> t[w].present_end_us == us
            &&& markers::distinct(s) ==> markers::distinct(t)
        }),
{
    let t = markers::recorded(s, id, marker, us);
    let k = if markers::knows(s, id) {
        markers::slot(s, id)
    } else {
        t.len() - 1
    };
    if markers::knows(s, id) {
        assert(markers::is_slot(s, id, k));
    }
    assert(markers::is_slot(t, id, k));
    assert(markers::is_slot(t, id, markers::slot(t, id)));
    if markers::distinct(t) {
        lemma_one_slot(t, id, k, markers::slot(t, id));
    }
    if markers::distinct(s) {
        assert forall|i: int, j: int| 0 <= i < j < t.len() implies (#[trigger] t[i]).present_id != (
        #[trigger] t[j]).present_id by {
            lemma_still_distinct(s, id, marker, us, i, j);
        }
    }
}

proof fn lemma_still_distinct(
    s: Seq<FrameMarkers>,
    id: u64,
    marker: i32,
    us: u64,
    i: int,
    j: int,
)
    requires
        markers::distinct(s),
        0 <= i < j < markers::recorded(s, id, marker, us).len(),
    ensures
        markers::recorded(s, id, marker, us)[i].present_id != markers::recorded(
            s,
            id,
            marker,
            us,
        )[j].present_id,
{
    let t = markers::recorded(s, id, marker, us);
    if markers::knows(s, id) {
        let w = markers::slot(s, id);
        assert(markers::is_slot(s, id, w));
        assert(s[i].present_id != s[j].present_id);
    } else if id != 0 && markers::open_for(s, marker) {
        if j < t.len() - 1 {
            assert(s[i].present_id != s[j].present_id);
        } else {
            assert(!markers::is_slot(s, id, i));
        }
    } else {
        let shift: int = if s.len() == markers::HISTORY_CAP {
            1
        } else {
            0
        };
        if j < t.len() - 1 {
            assert(s[i + shift].present_id != s[j + shift].present_id);
        } else {
            assert(!markers::is_slot(s, id, i + shift));
        }
    }
}

} // verus!
