use vkpace::hud::reader::{
    after_read, sleep_interruptible, Backoff, ReadOutcome, ReaderStep,
};
use vkpace::hud::state::{Record, SharedState, RING_CAPACITY};
use vkpace::hud::stats::{
    bin_max, bin_percentile, bin_records, frame_gaps, live_stats, plot_line, total_drops,
    LiveStats, Percentile, PlotPoint, Series,
};
use vkpace::hud::theme::{fps_level, latency_level, top_strip, us_label, Level, TileValue, UsLabel};

fn rec(ts_ns: u64, frame: u64, latency_us: u64) -> Record {
    Record {
        ts_ns,
        frame,
        queue: 0,
        pid: frame,
        latency_us,
    }
}

fn fps(stats: &LiveStats, window_ns: u64) -> f64 {
    stats.frames as f64 * 1_000_000_000.0 / window_ns as f64
}

#[test]
fn fps_over_known_window() {
    // 60 records spread over exactly 1s = 60 fps.
    let records: Vec<Record> = (0u64..60).map(|i| rec(i * 16_666_666, i, 0)).collect();
    let stats = live_stats(&records, 60 * 16_666_666, 1_000_000_000);
    let rate = fps(&stats, 1_000_000_000);
    assert!(rate > 58.0 && rate <= 61.0, "fps was {}", rate);
}

#[test]
fn latency_percentiles_on_known_distribution() {
    let records: Vec<Record> = (1..=100u64).map(|i| rec(i * 1_000_000, i, i)).collect();
    let stats = live_stats(&records, 100_000_000, 1_000_000_000);
    assert_eq!(stats.p50_us, 51);
    assert_eq!(stats.p99_us, 99);
    assert_eq!(stats.max_us, 100);
}

#[test]
fn latencies_of_zero_are_skipped() {
    let mut records: Vec<Record> = (1..=10u64).map(|i| rec(i * 1_000_000, i, 100)).collect();
    records.extend((11..=20u64).map(|i| rec(i * 1_000_000, i, 0)));
    let stats = live_stats(&records, 20_000_000, 1_000_000_000);
    assert_eq!(stats.samples, 10);
    assert_eq!(stats.p50_us, 100);
}

#[test]
fn empty_input_returns_zero() {
    let stats = live_stats(&[], 0, 1_000_000_000);
    assert_eq!(fps(&stats, 1_000_000_000), 0.0);
    assert_eq!(stats.samples, 0);
}

#[test]
fn frame_gaps_detects_dropped_presents() {
    let records = vec![
        rec(1, 1, 0),
        rec(2, 2, 0),
        // Frames 3-5 were dropped, the next present is 6.
        rec(3, 6, 0),
        rec(4, 7, 0),
        // Another gap.
        rec(5, 10, 0),
    ];
    let gaps = frame_gaps(&records);
    let points: Vec<[f64; 2]> = gaps.iter().map(|g| [g.0 as f64, g.1 as f64]).collect();
    assert_eq!(points, vec![[6.0, 3.0], [10.0, 2.0]]);
    assert_eq!(total_drops(&gaps), Some(5));
}

#[test]
fn bin_records_skips_empty_bins() {
    let records = vec![
        rec(100_000_000, 1, 0),
        rec(500_000_000, 2, 0),
        rec(900_000_000, 3, 0),
    ];
    let bins = bin_records(&records, 1_000_000_000, 1_000_000_000, 100_000_000);
    assert_eq!(bins.len(), 3);
    assert!(bins.iter().all(|b| b.records.len() == 1));
}

#[test]
fn bin_records_groups_by_time() {
    let records: Vec<Record> = (0u64..10).map(|i| rec(i * 100_000_000, i, 0)).collect();
    // 1s window, 100 ms bins: 10 bins, one record per bin.
    let bins = bin_records(&records, 1_000_000_000, 1_000_000_000, 100_000_000);
    assert_eq!(bins.len(), 10);
    assert!(bins.iter().all(|b| b.records.len() == 1));
}

#[test]
fn bin_records_keys_are_absolute_so_sealed_bins_dont_change() {
    // Two records straddling a bin boundary at t = 500ms.
    let records = vec![rec(450_000_000, 1, 0), rec(550_000_000, 2, 0)];
    let bins_a = bin_records(&records, 600_000_000, 1_000_000_000, 500_000_000);
    let bins_b = bin_records(&records, 1_200_000_000, 1_000_000_000, 500_000_000);
    let vals_a: Vec<f64> = bins_a.iter().map(|b| b.records.len() as f64).collect();
    let vals_b: Vec<f64> = bins_b.iter().map(|b| b.records.len() as f64).collect();
    assert_eq!(vals_a, vals_b);
}

#[test]
fn bin_records_marks_current_bin_with_partial_width() {
    let records = vec![rec(1_100_000_000, 1, 0), rec(1_200_000_000, 2, 0)];
    // 500 ms bins, now at 1.3 s: the current bin starts at 1 s, so 300 ms of
    // it have passed. Sealed bins have the full 500 ms.
    let mut saw_current = false;
    for b in bin_records(&records, 1_300_000_000, 1_000_000_000, 500_000_000) {
        if b.is_current {
            assert_eq!(b.width_ns, 300_000_000);
            saw_current = true;
        } else {
            assert_eq!(b.width_ns, 500_000_000);
        }
    }
    assert!(saw_current);
}

#[test]
fn bins_come_in_order_whatever_the_order_of_records() {
    let records = vec![
        rec(900, 3, 30),
        rec(100, 1, 10),
        rec(950, 4, 40),
        rec(500, 2, 20),
        rec(1_001, 5, 50),
    ];
    let bins = bin_records(&records, 1_000, 950, 100);
    let keys: Vec<u64> = bins.iter().map(|b| b.key).collect();
    assert_eq!(keys, vec![1, 5, 9]);
    assert_eq!(bins[2].records.len(), 2);
    assert_eq!(bins[2].start_ns, 900);
    assert!(bins.iter().all(|b| !b.is_current && b.width_ns == 100));
    assert!(bin_records(&records, 1_000, 950, 0).is_empty());
    assert!(bin_records(&records, 0, 950, 100).is_empty());
}

#[test]
fn current_bin_is_at_least_a_nanosecond_wide() {
    let bins = bin_records(&[rec(1_000, 1, 0)], 1_000, 1_000, 100);
    assert_eq!(bins.len(), 1);
    assert!(bins[0].is_current);
    assert_eq!(bins[0].width_ns, 1);
}

#[test]
fn percentiles_of_a_bin_ignore_missing_samples() {
    let records = vec![rec(1, 1, 40), rec(2, 2, 0), rec(3, 3, 10), rec(4, 4, 30)];
    assert_eq!(bin_percentile(&records, Percentile::P50), 30);
    assert_eq!(bin_percentile(&records, Percentile::P99), 40);
    assert_eq!(bin_max(&records), 40);
    assert_eq!(bin_percentile(&[rec(1, 1, 0)], Percentile::P50), 0);
    assert_eq!(bin_max(&[]), 0);
    let two = vec![rec(1, 1, 7), rec(2, 2, 5)];
    assert_eq!(bin_percentile(&two, Percentile::P50), 7);
}

#[test]
fn percentile_ranks_agree_with_the_rounded_share() {
    for n in 1..=400u64 {
        let records: Vec<Record> = (0..n).map(|i| rec(i + 1, i, i + 1)).collect();
        let p50 = ((n as f64 - 1.0) * 0.50).round() as u64 + 1;
        let p99 = ((n as f64 - 1.0) * 0.99).round() as u64 + 1;
        assert_eq!(bin_percentile(&records, Percentile::P50), p50);
        assert_eq!(bin_percentile(&records, Percentile::P99), p99);
    }
}

#[test]
fn window_without_samples_still_counts_frames() {
    let records = vec![rec(1_000, 1, 5), rec(9_000, 2, 0), rec(9_500, 3, 0)];
    let stats = live_stats(&records, 10_000, 2_000);
    assert_eq!(stats.frames, 2);
    assert_eq!(stats.samples, 0);
    assert_eq!(stats.max_us, 0);
    assert_eq!(live_stats(&records, 10_000, 0).frames, 0);
    assert_eq!(live_stats(&records, 100_000, 1_000).frames, 0);
}

#[test]
fn plot_line_has_a_point_per_bin() {
    let records = vec![rec(1_100, 1, 10), rec(1_150, 2, 30), rec(1_520, 3, 0)];
    let frames = plot_line(&records, 1_600, 1_000, 500, Series::Frames);
    assert_eq!(
        frames,
        vec![
            PlotPoint { ago_ns: 600, width_ns: 500, value: 2 },
            PlotPoint { ago_ns: 100, width_ns: 100, value: 1 },
        ]
    );
    let max = plot_line(&records, 1_600, 1_000, 500, Series::Max);
    assert_eq!(max[0].value, 30);
    assert_eq!(max[1].value, 0);
    assert_eq!(plot_line(&records, 1_600, 1_000, 500, Series::P50)[0].value, 30);
    assert_eq!(plot_line(&records, 1_600, 1_000, 500, Series::P99)[0].value, 30);
}

#[test]
fn frames_that_follow_one_another_have_no_gap() {
    assert!(frame_gaps(&[rec(1, 5, 0), rec(2, 6, 0), rec(3, 7, 0)]).is_empty());
    assert!(frame_gaps(&[rec(1, u64::MAX, 0), rec(2, 0, 0)]).is_empty());
    assert!(frame_gaps(&[]).is_empty());
    assert_eq!(total_drops(&[(1, u64::MAX), (2, 1)]), None);
    assert_eq!(total_drops(&[]), Some(0));
}

#[test]
fn ring_keeps_the_newest_records() {
    let mut state = SharedState::new();
    assert_eq!(state.latest_ts(), None);
    for i in 0..(RING_CAPACITY as u64 + 10) {
        state.push(rec(i, i, 0));
    }
    assert_eq!(state.ring.len(), RING_CAPACITY);
    assert_eq!(state.latest_ts(), Some(RING_CAPACITY as u64 + 9));
    assert_eq!(state.ring.front().unwrap().ts_ns, 10);
    let snapshot = state.snapshot_since(RING_CAPACITY as u64 + 7);
    let times: Vec<u64> = snapshot.iter().map(|r| r.ts_ns).collect();
    let n = RING_CAPACITY as u64;
    assert_eq!(times, vec![n + 7, n + 8, n + 9]);
}

#[test]
fn lines_go_into_the_ring() {
    let mut state = SharedState::new();
    state.receive("{\"ts\":500,\"frame\":1}\n");
    state.receive("garbage\n");
    state.receive("{\"ts\":900,\"frame\":2}\n");
    assert_eq!(state.ring.len(), 2);
    let (now, window) = state.view_window(100);
    assert_eq!(now, 900);
    assert_eq!(window.len(), 1);
    assert_eq!(window[0].frame, 2);
    assert_eq!(SharedState::default().view_window(100).0, 0);
}

#[test]
fn backoff_doubles_up_to_its_limit() {
    let mut b = Backoff::new();
    let waits: Vec<u64> = (0..8).map(|_| b.failed()).collect();
    assert_eq!(waits, vec![100, 200, 400, 800, 1600, 3200, 5000, 5000]);
    b.succeeded();
    assert_eq!(b.failed(), 100);
}

#[test]
fn reader_reconnects_when_the_socket_is_gone() {
    let mut b = Backoff::new();
    b.failed();
    let waiting = b.ms;
    assert_eq!(after_read(ReadOutcome::TimedOut, &mut b), ReaderStep::ReadAgain);
    assert_eq!(after_read(ReadOutcome::End, &mut b), ReaderStep::Reconnect);
    assert_eq!(after_read(ReadOutcome::Failed, &mut b), ReaderStep::Reconnect);
    assert_eq!(b.ms, waiting);
    assert_eq!(after_read(ReadOutcome::Line, &mut b), ReaderStep::TakeLine);
    assert_eq!(b.ms, Backoff::new().ms);
    assert_ne!(b.ms, waiting);
    assert_eq!(sleep_interruptible(250, false), Some(100));
    assert_eq!(sleep_interruptible(50, false), Some(50));
    assert_eq!(sleep_interruptible(50, true), None);
    assert_eq!(sleep_interruptible(0, false), None);
}

#[test]
fn levels_follow_the_refresh_rates() {
    assert_eq!(latency_level(0), Level::Muted);
    assert_eq!(latency_level(15_999), Level::Good);
    assert_eq!(latency_level(16_000), Level::Warn);
    assert_eq!(latency_level(32_999), Level::Warn);
    assert_eq!(latency_level(33_000), Level::Bad);
    assert_eq!(fps_level(0, 1_000_000_000), Level::Muted);
    assert_eq!(fps_level(120, 1_000_000_000), Level::Good);
    assert_eq!(fps_level(119, 1_000_000_000), Level::Warn);
    assert_eq!(fps_level(60, 1_000_000_000), Level::Warn);
    assert_eq!(fps_level(59, 1_000_000_000), Level::Bad);
}

#[test]
fn latency_labels() {
    assert!(matches!(us_label(0), UsLabel::Text(s) if s == "\u{2014}"));
    assert!(matches!(us_label(999), UsLabel::Text(s) if s == "999 \u{b5}s"));
    assert!(matches!(us_label(1_000), UsLabel::Millis(1_000)));
}

#[test]
fn strip_shows_six_tiles() {
    let live = LiveStats {
        frames: 144,
        p50_us: 900,
        p99_us: 20_000,
        max_us: 40_000,
        samples: 3,
    };
    let tiles = top_strip(&live, 1_000_000_000, 2);
    let labels: Vec<&str> = tiles.iter().map(|t| t.label).collect();
    assert_eq!(labels, vec!["fps", "p50", "p99", "max", "samples", "drops/60s"]);
    let levels: Vec<Level> = tiles.iter().map(|t| t.level).collect();
    assert_eq!(
        levels,
        vec![Level::Good, Level::Good, Level::Warn, Level::Bad, Level::Plain, Level::Warn]
    );
    assert!(matches!(tiles[5].value, TileValue::Count(2)));
    let empty = top_strip(&LiveStats::default(), 1_000_000_000, 0);
    assert_eq!(empty[4].level, Level::Muted);
    assert_eq!(empty[5].level, Level::Good);
}
