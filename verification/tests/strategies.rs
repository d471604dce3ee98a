use vkpace::amd_anti_lag::{
    AntiLagDataAMD, AntiLagModeAMD, AntiLagPresentationInfoAMD, AntiLagStageAMD,
};
use vkpace::present_wait::{
    classify_google_domain, poll_size, poll_succeeded, wait_finished, GoogleClockDomain,
    GoogleTimingWorker, PresentWaitWorker, WaitStep, GOOGLE_PENDING_CAP,
};
use vkpace::strategy::anti_lag::{
    compute_min_delay_ns, steal_spans, AntiLagDeviceStrategy, AntiLagQueueStrategy,
};
use vkpace::strategy::low_latency2::device::{forward_present, LowLatency2DeviceStrategy};
use vkpace::strategy::low_latency2::markers::MarkerHistory;
use vkpace::strategy::low_latency2::queue::{LowLatency2QueueStrategy, MAX_TRACKED_PRESENTS};
use vkpace::strategy::low_latency2::semaphore_signal::SemaphoreSignal;
use vkpace::strategy::low_latency2::swapchain_monitor::{
    record_widest, serve_start, serve_step, MonitorStep, Notified, ServeCursor, SwapchainMonitor,
    TaggedSpans,
};
use vkpace::strategy::{make_device_strategy, make_queue_strategy};
use vkpace::submission_span::{
    await_completed_until, wait_budget, AwaitAll, SubmissionSpan, WaitPoll,
};

#[test]
fn compute_min_delay_handles_zero_and_common_caps() {
    assert_eq!(compute_min_delay_ns(0), 0);
    assert_eq!(compute_min_delay_ns(60), 16_666_666);
    assert_eq!(compute_min_delay_ns(144), 6_944_444);
    assert_eq!(compute_min_delay_ns(240), 4_166_666);
}

fn update(mode: i32, stage: Option<i32>, frame_index: u64, max_fps: u32) -> AntiLagDataAMD {
    AntiLagDataAMD {
        mode: AntiLagModeAMD(mode),
        max_fps,
        presentation: stage.map(|s| AntiLagPresentationInfoAMD {
            stage: AntiLagStageAMD(s),
            frame_index,
        }),
    }
}

#[test]
fn submissions_are_tracked_from_input_to_present() {
    let mut s = AntiLagDeviceStrategy::new();
    let mut h = MarkerHistory::new();
    assert!(!s.should_track_submissions());
    // Input: wait and delay by the stricter cap.
    let r = s.notify_update(&mut h, &update(1, Some(0), 7, 60), 1_000, 2_000_000);
    assert_eq!(r, Some(16_666_666));
    assert!(s.should_track_submissions());
    let r = s.notify_update(&mut h, &update(1, Some(0), 7, 0), 9_999, 2_000_000);
    assert_eq!(r, Some(9_999));
    // Present: no wait, and the frame has its latency.
    let r = s.notify_update(&mut h, &update(1, Some(1), 7, 60), 1_000, 5_000_000);
    assert_eq!(r, None);
    assert!(!s.should_track_submissions());
    assert_eq!(h.latest_latency_us(), 3_000);
    assert_eq!(h.frames[0].present_end_us, 5_000);
    assert_eq!(h.frames[0].display_actual_us, 5_000);
}

#[test]
fn updates_without_a_stage_or_turned_off_do_nothing_else() {
    let mut s = AntiLagDeviceStrategy::default();
    let mut h = MarkerHistory::new();
    assert_eq!(s.notify_update(&mut h, &update(0, None, 1, 60), 0, 1_000), None);
    assert!(s.enabled);
    assert_eq!(s.notify_update(&mut h, &update(2, Some(0), 1, 60), 0, 1_000), None);
    assert!(!s.enabled);
    assert_eq!(h.report_count(), 0);
    // A stage that is not known collects, but marks nothing.
    assert_eq!(s.notify_update(&mut h, &update(1, Some(9), 4, 0), 5, 1_000), Some(5));
    assert_eq!(s.frame_index, Some(4));
    assert_eq!(h.report_count(), 0);
}

#[test]
fn spans_hold_the_first_and_the_last_submission() {
    let mut q: AntiLagQueueStrategy<u32> = AntiLagQueueStrategy::new();
    q.notify_submit(1);
    assert_eq!(*q.span.as_ref().unwrap().trailing(), 1);
    q.notify_submit(2);
    q.notify_submit(3);
    let span = q.take_submission_span().unwrap();
    assert_eq!(span.head, 1);
    assert_eq!(span.tail, Some(3));
    assert_eq!(*span.trailing(), 3);
    assert!(q.take_submission_span().is_none());

    let mut queues = vec![AntiLagQueueStrategy::new(), AntiLagQueueStrategy::new()];
    queues[1].notify_submit(8u32);
    let work = steal_spans(&mut queues);
    assert_eq!(work.len(), 1);
    assert_eq!(work[0].head, 8);
    assert!(steal_spans(&mut queues).is_empty());
}

#[test]
fn waits_end_at_the_deadline() {
    assert_eq!(await_completed_until(true, 99, 10), WaitPoll::Completed);
    assert_eq!(await_completed_until(false, 10, 10), WaitPoll::TimedOut);
    assert_eq!(await_completed_until(false, 9, 10), WaitPoll::Again);

    let mut all = AwaitAll::new(3, 100, 50);
    assert_eq!(all.current(), Some(0));
    all.poll(true, 110);
    all.poll(false, 120);
    assert_eq!(all.current(), Some(1));
    // The span that runs out of time does not hide the one behind it.
    all.poll(false, 150);
    assert_eq!(all.current(), Some(2));
    all.poll(true, 151);
    assert_eq!(all.current(), None);
    assert_eq!(all.done, 2);

    let mut stuck_first = AwaitAll::new(2, 0, 10);
    stuck_first.poll(false, 10);
    stuck_first.poll(true, 10);
    assert_eq!((stuck_first.current(), stuck_first.done), (None, 1));
    assert_eq!(AwaitAll::new(0, 0, 0).current(), None);
}

#[test]
fn wait_budget_reads_or_defaults() {
    assert_eq!(wait_budget(None), 4_000);
    assert_eq!(wait_budget(Some("250")), 250);
    assert_eq!(wait_budget(Some("soon")), 4_000);
}

#[test]
fn queue_groups_submissions_by_present() {
    let mut q: LowLatency2QueueStrategy<u32> = LowLatency2QueueStrategy::new();
    q.notify_submit(5, 1);
    q.notify_submit(0, 2);
    q.notify_submit(5, 3);
    let span = q.take_by_present_id(5).unwrap();
    assert_eq!((span.head, span.tail), (1, Some(3)));
    assert!(q.take_by_present_id(5).is_none());
    assert_eq!(q.take_by_present_id(0).unwrap().head, 2);
    assert!(!q.is_out_of_band);
    q.mark_out_of_band();
    assert!(q.is_out_of_band);
}

#[test]
fn queue_gives_up_presents_that_never_come() {
    let mut q: LowLatency2QueueStrategy<u64> = LowLatency2QueueStrategy::default();
    for id in 1..=(MAX_TRACKED_PRESENTS as u64 + 1) {
        q.notify_submit(id, id);
    }
    assert_eq!(q.submissions.len(), MAX_TRACKED_PRESENTS);
    assert!(q.take_by_present_id(1).is_none());
    assert!(q.take_by_present_id(2).is_some());
}

#[test]
fn repeated_semaphore_values_are_left_out() {
    let s = SemaphoreSignal::new(3, 5);
    assert_eq!(s.signal(true, 0, 4), Some((3, 5)));
    assert_eq!(s.signal(true, 0, 5), None);
    assert_eq!(s.signal(true, 0, 6), None);
    assert_eq!(s.signal(true, -1, 4), None);
    assert_eq!(s.signal(false, 0, 4), None);
}

#[test]
fn monitor_signals_at_once_while_pacing_is_off() {
    let mut m: SwapchainMonitor<u32> = SwapchainMonitor::new();
    let s = SemaphoreSignal::new(1, 1);
    assert_eq!(m.notify_semaphore(s), Notified::SignalNow(s));
    m.attach_work(4, vec![SubmissionSpan::new(9)]);
    assert!(m.pending_groups.is_empty());
    assert!(matches!(m.step(0), MonitorStep::Park));
}

#[test]
fn monitor_serves_in_order_with_the_stricter_delay() {
    let mut m: SwapchainMonitor<u32> = SwapchainMonitor::new();
    m.update_params(true, 2);
    m.attach_work(4, vec![SubmissionSpan::new(9)]);
    let a = SemaphoreSignal::new(1, 1);
    let b = SemaphoreSignal::new(1, 2);
    assert_eq!(m.notify_semaphore(a), Notified::Queued);
    assert_eq!(m.notify_semaphore(b), Notified::Queued);
    match m.step(1_500) {
        MonitorStep::Serve { pending, delay_ns } => {
            assert_eq!(pending.signal, a);
            assert_eq!(pending.groups.len(), 1);
            assert_eq!(pending.groups[0].present_id, 4);
            assert_eq!(delay_ns, 2_000);
        }
        other => panic!("{:?}", other),
    }
    // Closing: what is left is signalled without a wait.
    m.close();
    assert!(matches!(m.step(0), MonitorStep::Drain(s) if s == b));
    assert!(matches!(m.step(0), MonitorStep::Exit));
    m.update_params(true, u64::MAX);
    assert_eq!(m.present_delay_ns, u64::MAX);
}

#[test]
fn every_group_is_looked_at_though_one_ran_out_of_time() {
    let group = |id: u64, n: u32| TaggedSpans {
        present_id: id,
        spans: (0..n).map(SubmissionSpan::new).collect(),
    };
    let groups = vec![group(1, 2), group(2, 0), group(3, 1)];
    let start = serve_start(&groups);
    assert_eq!(start, ServeCursor { group: 0, span: 0 });
    let second = serve_step(&groups, start, true, 0, 100);
    assert_eq!(second, ServeCursor { group: 0, span: 1 });
    assert_eq!(serve_step(&groups, second, false, 99, 100), second);
    let third = serve_step(&groups, second, false, 100, 100);
    assert_eq!(third, ServeCursor { group: 2, span: 0 });
    let end = serve_step(&groups, third, true, 500, 100);
    assert_eq!(end, ServeCursor { group: 3, span: 0 });
    assert_eq!(serve_start(&Vec::<TaggedSpans<u32>>::new()), ServeCursor { group: 0, span: 0 });
}

#[test]
fn device_without_a_monitor_never_keeps_a_semaphore() {
    let mut d: LowLatency2DeviceStrategy<u32> = LowLatency2DeviceStrategy::new();
    let s = SemaphoreSignal::new(1, 7);
    assert_eq!(d.notify_latency_sleep_nv(10, s), Notified::SignalNow(s));
    d.notify_create_swapchain(10, None);
    assert_eq!(d.notify_latency_sleep_nv(10, s), Notified::Queued);
    d.notify_create_swapchain(11, Some(false));
    assert_eq!(d.notify_latency_sleep_nv(11, s), Notified::SignalNow(s));
    d.notify_latency_sleep_mode(11, Some((true, 8_000)));
    assert_eq!(d.monitors[&11].present_delay_ns, 8_000_000);
    assert_eq!(d.notify_latency_sleep_nv(11, s), Notified::Queued);
    d.notify_latency_sleep_mode(11, None);
    assert_eq!(d.notify_latency_sleep_nv(11, s), Notified::SignalNow(s));
    // A swapchain that goes away has its signals made first.
    d.notify_destroy_swapchain(10);
    assert!(matches!(d.step(10, 0), MonitorStep::Drain(x) if x == s));
    assert!(matches!(d.step(10, 0), MonitorStep::Exit));
    assert!(!d.monitors.contains_key(&10));
    assert!(matches!(d.step(10, 0), MonitorStep::Exit));
}

#[test]
fn a_replaced_monitor_gives_its_semaphores_back() {
    let mut d: LowLatency2DeviceStrategy<u32> = LowLatency2DeviceStrategy::new();
    assert!(d.notify_create_swapchain(10, None).is_empty());
    let (a, b) = (SemaphoreSignal::new(1, 7), SemaphoreSignal::new(1, 8));
    assert_eq!(d.notify_latency_sleep_nv(10, a), Notified::Queued);
    assert_eq!(d.notify_latency_sleep_nv(10, b), Notified::Queued);
    assert_eq!(d.notify_create_swapchain(10, None), vec![a, b]);
    assert!(matches!(d.step(10, 0), MonitorStep::Park));
}

#[test]
fn presents_claim_the_work_of_their_queues() {
    let mut d: LowLatency2DeviceStrategy<u32> = LowLatency2DeviceStrategy::new();
    d.notify_create_swapchain(10, None);
    let mut queues = vec![
        LowLatency2QueueStrategy::new(),
        LowLatency2QueueStrategy::new(),
        LowLatency2QueueStrategy::new(),
    ];
    queues[0].notify_submit(6, 100u32);
    queues[1].notify_submit(6, 200);
    queues[1].mark_out_of_band();
    queues[2].notify_submit(7, 300);
    d.submit_swapchain_present_id(&mut queues, 10, 6);
    let groups = &d.monitors[&10].pending_groups;
    assert_eq!(groups.len(), 1);
    assert_eq!(groups[0].present_id, 6);
    assert_eq!(groups[0].spans.len(), 1);
    assert_eq!(groups[0].spans[0].head, 100);
    assert!(queues[0].take_by_present_id(6).is_none());
    assert!(queues[1].take_by_present_id(6).is_some());
    assert!(queues[2].take_by_present_id(7).is_some());
}

#[test]
fn presents_without_ids_count_as_zero() {
    assert_eq!(forward_present(&[1, 2], None), vec![(1, 0), (2, 0)]);
    assert_eq!(forward_present(&[1, 2], Some(&[8, 9])), vec![(1, 8), (2, 9)]);
}

#[test]
fn configuration_picks_the_strategy() {
    let mut ll2 = make_device_strategy::<u32>(true);
    assert!(ll2.as_low_latency2().is_some());
    assert!(ll2.as_anti_lag().is_none());
    ll2.notify_create_swapchain(3, None);
    ll2.notify_destroy_swapchain(3);
    assert!(ll2.as_low_latency2().unwrap().monitors[&3].stop);
    let mut al = make_device_strategy::<u32>(false);
    al.notify_create_swapchain(3, None);
    assert!(al.as_anti_lag().is_some());
    assert!(al.as_low_latency2().is_none());
    let mut q = make_queue_strategy::<u32>(true);
    q.notify_submit(4, 1);
    q.mark_out_of_band();
    assert!(matches!(&q, vkpace::strategy::QueueStrategy::LowLatency2(s)
        if s.is_out_of_band && s.submissions.contains_key(&4)));
}

#[test]
fn gpu_envelope_goes_into_the_history() {
    let mut h = MarkerHistory::new();
    h.record(2, 6, 1_000);
    record_widest(&mut h, 2, 9_000, 10_000);
    record_widest(&mut h, 2, 5_000, 8_000);
    assert_eq!(h.frames[0].gpu_render_start_us, 5);
    assert_eq!(h.frames[0].gpu_render_end_us, 10);
}

#[test]
fn present_waits_are_worked_off_in_order() {
    assert!(PresentWaitWorker::new(false).is_none());
    let mut w = PresentWaitWorker::new(true).unwrap();
    w.enqueue(1, 10);
    w.enqueue(1, 0);
    w.enqueue(2, 11);
    w.stop = true;
    assert!(matches!(w.step(), WaitStep::Wait { swapchain: 1, present_id: 10 }));
    assert!(matches!(w.step(), WaitStep::Wait { swapchain: 2, present_id: 11 }));
    assert!(matches!(w.step(), WaitStep::Exit));
    w.stop = false;
    assert!(matches!(w.step(), WaitStep::Park));

    let mut h = MarkerHistory::new();
    h.record(10, 6, 1_000);
    wait_finished(&mut h, 10, 2, 5_000_000);
    assert_eq!(h.frames[0].display_actual_us, 0);
    wait_finished(&mut h, 10, 0, 5_000_000);
    assert_eq!(h.frames[0].display_actual_us, 5_000);
}

#[test]
fn polled_times_are_paired_in_order() {
    assert!(GoogleTimingWorker::new(false).is_none());
    let mut w = GoogleTimingWorker::new(true).unwrap();
    let mut h = MarkerHistory::new();
    for id in [1u64, 2, 3] {
        h.record(id, 6, 1_000);
        w.enqueue(50, id);
    }
    w.enqueue(50, 0);
    assert_eq!(w.swapchains(), vec![50]);
    let now = 10_000_000_000;
    // The first sample is near the host's clock, so the clock is trusted.
    w.record(&mut h, 50, &[0, now - 2_000_000], now);
    assert_eq!(w.domain, GoogleClockDomain::Monotonic);
    assert_eq!(h.frames[0].display_actual_us, now / 1_000);
    assert_eq!(h.frames[1].display_actual_us, (now - 2_000_000) / 1_000);
    assert_eq!(h.frames[2].display_actual_us, 0);
    // More times than presents: the rest has nobody.
    w.record(&mut h, 50, &[7_000, 8_000], now);
    assert_eq!(h.frames[2].display_actual_us, 7);
    w.record(&mut h, 99, &[1_000], now);
    w.forget_swapchain(50);
    assert!(w.swapchains().is_empty());
}

#[test]
fn times_of_a_strange_clock_give_way_to_the_host() {
    let mut w = GoogleTimingWorker::new(true).unwrap();
    let mut h = MarkerHistory::new();
    h.record(1, 6, 1_000);
    w.enqueue(50, 1);
    w.record(&mut h, 50, &[123], 60_000_000_000);
    assert_eq!(w.domain, GoogleClockDomain::Unknown);
    assert_eq!(h.frames[0].display_actual_us, 60_000_000);
    let s = 5_000_000_000u64;
    assert_eq!(classify_google_domain(s, 0), GoogleClockDomain::Monotonic);
    assert_eq!(classify_google_domain(0, s + 1), GoogleClockDomain::Unknown);
}

#[test]
fn pending_presents_are_bounded() {
    let mut w = GoogleTimingWorker::new(true).unwrap();
    for id in 1..=(GOOGLE_PENDING_CAP as u64 + 3) {
        w.enqueue(1, id);
    }
    assert_eq!(w.pending[&1].len(), GOOGLE_PENDING_CAP);
    assert_eq!(w.pending[&1].front(), Some(&4));
}

#[test]
fn polls_read_a_bounded_number() {
    assert_eq!(poll_size(0, 0), None);
    assert_eq!(poll_size(-1, 5), None);
    assert_eq!(poll_size(0, 5), Some(5));
    assert_eq!(poll_size(0, 1_000), Some(64));
    assert!(poll_succeeded(0));
    assert!(poll_succeeded(5));
    assert!(!poll_succeeded(-4));
}
