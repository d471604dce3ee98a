use ash::vk;
use vkpace::strategy::low_latency2::markers::{FrameReport, MarkerHistory, HISTORY_CAP};
use vkpace::vk as numbers;

const INPUT_SAMPLE: i32 = vk::LatencyMarkerNV::INPUT_SAMPLE.as_raw();
const SIMULATION_START: i32 = vk::LatencyMarkerNV::SIMULATION_START.as_raw();
const PRESENT_END: i32 = vk::LatencyMarkerNV::PRESENT_END.as_raw();

#[test]
fn record_dedupes_by_present_id() {
    let mut h = MarkerHistory::new();
    for m in [INPUT_SAMPLE, SIMULATION_START, PRESENT_END] {
        h.record(42, m, 1_000);
    }
    assert_eq!(h.frames.len(), 1);
    assert_eq!(h.frames[0].present_id, 42);
}

#[test]
fn fill_two_call_protocol_returns_count_with_null_buffer() {
    let mut h = MarkerHistory::new();
    for pid in 1..=5u64 {
        h.record(pid, INPUT_SAMPLE, 1_000);
    }
    assert_eq!(h.report_count(), 5);
}

#[test]
fn fill_writes_up_to_requested_count_in_reverse_order() {
    let mut h = MarkerHistory::new();
    for pid in 1..=5u64 {
        h.record(pid, INPUT_SAMPLE, 1_000);
    }
    let buf = h.fill(3);
    assert_eq!(buf.len(), 3);
    // Newest first.
    assert_eq!(buf[0].present_id, 5);
    assert_eq!(buf[1].present_id, 4);
    assert_eq!(buf[2].present_id, 3);
}

#[test]
fn history_cap_evicts_oldest() {
    let mut h = MarkerHistory::new();
    for pid in 0..(HISTORY_CAP + 32) as u64 {
        h.record(pid, INPUT_SAMPLE, 1_000);
    }
    assert_eq!(h.frames.len(), HISTORY_CAP);
    assert_eq!(h.frames.front().unwrap().present_id, 32);
    assert_eq!(h.frames.back().unwrap().present_id, (HISTORY_CAP + 31) as u64);
    // The map must mirror the frames exactly.
    assert_eq!(h.known_ids(), HISTORY_CAP);
    assert_eq!(h.by_present_id.len(), HISTORY_CAP);
}

#[test]
fn latency_source_skips_frames_missing_endpoints() {
    let mut h = MarkerHistory::new();
    h.record(1, INPUT_SAMPLE, 100_000);
    h.record(1, PRESENT_END, 500_000);
    h.record(2, INPUT_SAMPLE, 600_000);
    // The second frame has no end and is skipped.
    let mut out = Vec::new();
    h.latencies_us(&mut out);
    assert_eq!(out, vec![400]);
}

#[test]
fn record_present_actual_does_not_clobber_app_present_end() {
    let mut h = MarkerHistory::new();
    h.record(7, INPUT_SAMPLE, 100_000);
    h.record(7, PRESENT_END, 800_000);
    h.record_present_actual(7, 1_500_000);
    assert_eq!(h.frames[0].present_end_us, 800);
    assert_eq!(h.frames[0].display_actual_us, 1500);
}

#[test]
fn latency_source_prefers_display_actual_over_app_present_end() {
    let mut h = MarkerHistory::new();
    h.record(9, INPUT_SAMPLE, 100_000);
    h.record(9, PRESENT_END, 200_000);
    h.record_present_actual(9, 1_000_000);
    let mut out = Vec::new();
    h.latencies_us(&mut out);
    // 1000 - 100 wins over 200 - 100: scanout is what counts.
    assert_eq!(out, vec![900]);
    assert_eq!(h.latest_latency_us(), 900);
}

#[test]
fn report_prefers_the_end_that_the_application_gave() {
    let mut h = MarkerHistory::default();
    h.record(3, INPUT_SAMPLE, 1_000_000);
    h.record_present_actual(3, 9_000_000);
    assert_eq!(h.fill(10)[0].present_end_time_us, 9_000);
    h.record(3, PRESENT_END, 7_000_000);
    assert_eq!(h.fill(10)[0].present_end_time_us, 7_000);
}

#[test]
fn every_marker_has_its_place() {
    let mut h = MarkerHistory::new();
    let markers = [
        vk::LatencyMarkerNV::SIMULATION_START,
        vk::LatencyMarkerNV::SIMULATION_END,
        vk::LatencyMarkerNV::RENDERSUBMIT_START,
        vk::LatencyMarkerNV::RENDERSUBMIT_END,
        vk::LatencyMarkerNV::PRESENT_START,
        vk::LatencyMarkerNV::PRESENT_END,
        vk::LatencyMarkerNV::INPUT_SAMPLE,
        vk::LatencyMarkerNV::TRIGGER_FLASH,
    ];
    for (i, m) in markers.iter().enumerate() {
        h.record(1, m.as_raw(), (i as u64 + 1) * 1_000);
    }
    h.record_gpu_timing(1, 20_000, 30_000);
    assert_eq!(
        h.fill(1)[0],
        FrameReport {
            present_id: 1,
            input_sample_time_us: 7,
            sim_start_time_us: 1,
            sim_end_time_us: 2,
            render_submit_start_time_us: 3,
            render_submit_end_time_us: 4,
            present_start_time_us: 5,
            present_end_time_us: 6,
            gpu_render_start_time_us: 20,
            gpu_render_end_time_us: 30,
        }
    );
    assert_eq!(numbers::MARKER_PRESENT_END, PRESENT_END);
}

#[test]
fn unknown_frames_are_not_made_up() {
    let mut h = MarkerHistory::new();
    h.record_present_actual(5, 1_000);
    h.record_gpu_timing(5, 1, 2);
    assert_eq!(h.report_count(), 0);
    assert_eq!(h.latest_latency_us(), 0);
    assert!(h.fill(4).is_empty());
}

#[test]
fn gpu_times_span_all_queues() {
    let mut h = MarkerHistory::new();
    h.record(1, INPUT_SAMPLE, 1_000);
    h.record_gpu_widest(1, 50_000, 60_000);
    h.record_gpu_widest(1, 40_000, 55_000);
    h.record_gpu_widest(1, 45_000, 70_000);
    assert_eq!(h.frames[0].gpu_render_start_us, 40);
    assert_eq!(h.frames[0].gpu_render_end_us, 70);
}

#[test]
fn evicted_frames_can_come_back_as_new() {
    let mut h = MarkerHistory::new();
    for pid in 0..=HISTORY_CAP as u64 {
        h.record(pid, INPUT_SAMPLE, 1_000);
    }
    h.record(0, PRESENT_END, 5_000);
    assert_eq!(h.frames.back().unwrap().present_id, 0);
    assert_eq!(h.frames.back().unwrap().input_sample_us, 0);
    assert_eq!(h.known_ids(), HISTORY_CAP);
    h.record(HISTORY_CAP as u64, PRESENT_END, 9_000);
    assert_eq!(h.frames[HISTORY_CAP - 2].present_end_us, 9);
}

#[test]
fn markers_without_an_id_are_merged() {
    let mut h = MarkerHistory::new();
    h.record(0, INPUT_SAMPLE, 5_000);
    h.record(7, PRESENT_END, 9_000);
    assert_eq!(h.frames.len(), 1);
    assert_eq!(h.frames[0].present_id, 7);
    assert_eq!(h.frames[0].input_sample_us, 5);
    assert_eq!(h.frames[0].present_end_us, 9);
    assert_eq!(h.known_ids(), 1);
    // The frame is found under its id, and no longer under none.
    h.record_present_actual(0, 99_000);
    assert_eq!(h.frames[0].display_actual_us, 0);
    h.record_present_actual(7, 12_000);
    assert_eq!(h.frames[0].display_actual_us, 12);
    // A marker that the frame has already starts another frame.
    h.record(0, INPUT_SAMPLE, 20_000);
    h.record(8, INPUT_SAMPLE, 21_000);
    assert_eq!(h.frames.len(), 3);
    assert_eq!(h.known_ids(), 3);
}

#[test]
fn latest_latency_is_the_last_of_all() {
    let mut h = MarkerHistory::new();
    let mut all = Vec::new();
    h.latencies_us(&mut all);
    assert_eq!((h.latest_latency_us(), all.len()), (0, 0));
    for id in 1..4u64 {
        h.record(id, INPUT_SAMPLE, id * 10_000);
        h.record(id, PRESENT_END, id * 10_000 + id * 1_000);
    }
    h.latencies_us(&mut all);
    assert_eq!(all, vec![1, 2, 3]);
    assert_eq!(h.latest_latency_us(), 3);
}
