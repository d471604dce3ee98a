use vkpace::entrypoints::present::{
    enqueue_polls, enqueue_waits, first_present_id, record_present,
};
use vkpace::entrypoints::submit::{
    complete_submit, mask_of, submit_route, SubmitArena, SubmitBuilder, SubmitRoute,
    MAX_CACHED_BUFFERS,
};
use vkpace::entrypoints::swapchain::{long_acquire_us, warn_if_fifo_latest_ready};
use vkpace::present_wait::{GoogleTimingWorker, PresentWaitWorker, WaitStep};
use vkpace::strategy::{make_queue_strategy, QueueStrategy};
use vkpace::telemetry::{
    client_action, listen_action, stats_interval, AcceptOutcome, ClientAction, Counters,
    FrameRecord, ListenAction, StatsSampler, Telemetry, RING_CAPACITY,
};

#[test]
fn tracked_batches_are_wrapped_and_others_left() {
    let mask = mask_of(&[false, true, false, true]);
    assert_eq!(submit_route(true, true, &mask), SubmitRoute::Wrap);
    let mut arena: SubmitArena<u64> = SubmitArena::new();
    let mut b: SubmitBuilder<u64, u32> = SubmitBuilder::new(mask);
    assert_eq!(b.advance(), Some(1));
    b.supply(7, 100, 101, &[1, 2], arena.take());
    assert_eq!(b.advance(), Some(3));
    b.supply(8, 200, 201, &[], arena.take());
    assert_eq!(b.advance(), None);
    assert_eq!(
        b.buffers,
        vec![None, Some(vec![100, 1, 2, 101]), None, Some(vec![200, 201])]
    );
    assert_eq!(b.handles, vec![None, Some(7), None, Some(8)]);

    let mut strategy = make_queue_strategy::<u32>(true);
    let mut counters = Counters::default();
    complete_submit(&mut strategy, &mut counters, 0, &[5, 5, 5, 6], b.handles);
    assert_eq!((counters.submits, counters.injections), (4, 2));
    match &mut strategy {
        QueueStrategy::LowLatency2(s) => {
            assert_eq!(s.take_by_present_id(5).unwrap().head, 7);
            assert_eq!(s.take_by_present_id(6).unwrap().head, 8);
        }
        QueueStrategy::AntiLag(_) => panic!(),
    }
}

#[test]
fn submissions_reach_the_strategy_in_order() {
    let mut strategy = make_queue_strategy::<u32>(false);
    let mut counters = Counters::default();
    let handles = vec![Some(1), None, Some(2), Some(3)];
    complete_submit(&mut strategy, &mut counters, 0, &[0; 4], handles);
    match &strategy {
        QueueStrategy::AntiLag(s) => {
            let span = s.span.as_ref().unwrap();
            assert_eq!((span.head, span.tail), (1, Some(3)));
        }
        QueueStrategy::LowLatency2(_) => panic!(),
    }
}

#[test]
fn failed_submissions_leave_nothing() {
    let mut strategy = make_queue_strategy::<u32>(false);
    let mut counters = Counters::default();
    complete_submit(&mut strategy, &mut counters, -4, &[0], vec![Some(1)]);
    assert_eq!(counters, Counters::default());
    assert!(matches!(&strategy, QueueStrategy::AntiLag(s) if s.span.is_none()));
}

#[test]
fn calls_without_tracked_batches_go_on_as_they_are() {
    assert_eq!(
        submit_route(true, true, &mask_of(&[])),
        SubmitRoute::Forward { counted: false }
    );
    assert_eq!(
        submit_route(true, true, &mask_of(&[false, false, false, false, false])),
        SubmitRoute::Forward { counted: true }
    );
    assert_eq!(submit_route(false, true, &mask_of(&[true])), SubmitRoute::Fail(-3));
    assert_eq!(submit_route(true, false, &mask_of(&[true])), SubmitRoute::Fail(-3));
    // More batches than fit inline.
    assert_eq!(
        submit_route(true, true, &mask_of(&[false, false, false, false, true])),
        SubmitRoute::Wrap
    );
    let mut b: SubmitBuilder<u64, u32> = SubmitBuilder::new(mask_of(&[true, true]));
    assert_eq!(b.advance(), Some(0));
    b.supply(3, 1, 2, &[9], Vec::new());
    assert_eq!(b.abandon(), vec![Some(3)]);
}

#[test]
fn arena_keeps_a_few_small_buffers() {
    let mut arena: SubmitArena<u64> = SubmitArena::new();
    for _ in 0..10 {
        arena.give(vec![1, 2, 3], 8);
    }
    assert_eq!(arena.cached.len(), MAX_CACHED_BUFFERS);
    assert!(arena.take().is_empty());
    arena.give(Vec::new(), 65);
    assert_eq!(arena.cached.len(), MAX_CACHED_BUFFERS - 1);
    arena.give(Vec::new(), 64);
    assert_eq!(arena.cached.len(), MAX_CACHED_BUFFERS);
}

#[test]
fn presents_are_counted_and_recorded() {
    let mut t = Telemetry::new(true);
    record_present(&mut t, 0xabc, 9, 1_500, 77);
    record_present(&mut t, 0xabc, 10, 0, 78);
    assert_eq!((t.counters.presents, t.counters.frames), (2, 2));
    assert_eq!(
        t.drain(),
        vec![
            FrameRecord { host_ns: 77, frame_index: 1, queue_id: 0xabc, present_id: 9, latency_us: 1_500 },
            FrameRecord { host_ns: 78, frame_index: 2, queue_id: 0xabc, present_id: 10, latency_us: 0 },
        ]
    );
    assert!(t.drain().is_empty());
    let mut silent = Telemetry::new(false);
    assert!(!silent.socket_enabled());
    record_present(&mut silent, 1, 2, 3, 4);
    assert_eq!(silent.counters.presents, 1);
    assert!(silent.drain().is_empty());
}

#[test]
fn slow_consumers_lose_the_oldest_presents() {
    let mut t = Telemetry::new(true);
    for i in 0..(RING_CAPACITY as u64 + 5) {
        record_present(&mut t, 1, i, 0, i);
    }
    let all = t.drain();
    assert_eq!(all.len(), RING_CAPACITY);
    assert_eq!(all[0].present_id, 5);
}

#[test]
fn only_presents_with_an_id_are_followed() {
    let pairs = [(1u64, 10u64), (2, 0), (1, 11)];
    let mut w = PresentWaitWorker::new(true).unwrap();
    enqueue_waits(&mut w, &pairs);
    assert!(matches!(w.step(), WaitStep::Wait { swapchain: 1, present_id: 10 }));
    assert!(matches!(w.step(), WaitStep::Wait { swapchain: 1, present_id: 11 }));
    assert!(matches!(w.step(), WaitStep::Park));
    let mut g = GoogleTimingWorker::new(true).unwrap();
    enqueue_polls(&mut g, &pairs);
    assert_eq!(g.swapchains(), vec![1]);
    assert_eq!(g.pending[&1].iter().copied().collect::<Vec<u64>>(), vec![10, 11]);
    assert_eq!(first_present_id(None), 0);
    assert_eq!(first_present_id(Some(&[])), 0);
    assert_eq!(first_present_id(Some(&[4, 5])), 4);
}

#[test]
fn pacing_under_the_freshest_image_mode_is_advisory() {
    assert!(warn_if_fifo_latest_ready(1_000_361_000, 144, false));
    assert!(warn_if_fifo_latest_ready(1_000_361_000, 0, true));
    assert!(!warn_if_fifo_latest_ready(1_000_361_000, 0, false));
    assert!(!warn_if_fifo_latest_ready(2, 144, true));
    assert_eq!(long_acquire_us(0, 16_000_000), None);
    assert_eq!(long_acquire_us(0, 16_001_000), Some(16_001));
    assert_eq!(long_acquire_us(10, 5), None);
}

#[test]
fn counters_add_up_and_wrap() {
    let mut c = Counters::default();
    c.record_submit_call(3, 2);
    c.record_submit_call(1, 0);
    c.inc_present();
    c.inc_acquire();
    assert_eq!((c.submits, c.injections, c.presents, c.frames, c.acquires), (4, 2, 1, 1, 1));
    c.frames = u64::MAX;
    c.inc_present();
    assert_eq!(c.frames, 0);
}

#[test]
fn snapshots_count_frames_since_the_last() {
    let mut s = StatsSampler::new();
    let mut c = Counters::default();
    c.frames = 10;
    assert_eq!(s.sample(&c).frames_delta, 10);
    c.frames = 25;
    assert_eq!(s.sample(&c).frames_delta, 15);
    assert_eq!(stats_interval(None), 0);
    assert_eq!(stats_interval(Some("5")), 5);
    assert_eq!(stats_interval(Some("often")), 0);
}

#[test]
fn telemetry_threads_know_what_to_do() {
    assert_eq!(client_action(true, 5), ClientAction::Leave);
    assert_eq!(client_action(false, 0), ClientAction::Wait);
    assert_eq!(client_action(false, 5), ClientAction::Stream);
    assert_eq!(listen_action(AcceptOutcome::Connected), ListenAction::Serve);
    assert_eq!(listen_action(AcceptOutcome::WouldBlock), ListenAction::Retry(100));
    assert_eq!(listen_action(AcceptOutcome::Failed), ListenAction::Stop);
}
