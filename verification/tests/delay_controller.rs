use vkpace::clock::{timespec_ns, DeviceClock};
use vkpace::delay_controller::{spin_until, Begin, DelayController, FrameInfo, Resume, Spin};

/// Runs one whole frame with a clock that stands still at `now_ns`, and with
/// the gradient estimate of the controller's owner.
fn delay(ctl: &mut DelayController<f64>, now_ns: u64, min_delay_ns: u64) -> Option<u64> {
    match ctl.begin(now_ns, min_delay_ns) {
        Begin::Recorded => None,
        Begin::Wait { frametime_ns, until_ns } => {
            let now_ns = until_ns.map_or(now_ns, |u| u.max(now_ns));
            if let Resume::Wait { jitter_ns, until_ns, sample } = ctl.resume(now_ns, frametime_ns) {
                let moved = sample.map(|s| {
                    let gradient = if s.dt_jitter_ns == 0 {
                        0.0
                    } else {
                        (s.dt_frametime_ns as f64 / s.dt_jitter_ns as f64).clamp(-1.0, 1.0)
                    };
                    let ewma = 0.01 * gradient + 0.99 * ctl.gradient_ewma;
                    let delta = (5.0 * (0.5 - ewma) * s.previous_jitter_ns as f64) as i64;
                    (ewma, delta)
                });
                ctl.finish(until_ns.max(now_ns), frametime_ns, jitter_ns, moved);
            }
            until_ns
        }
    }
}

/// Feeds a synthetic frame time.
fn step_with_frametime(ctl: &mut DelayController<f64>, frametime_ns: i64) {
    // Pretend the previous frame released at `now - frametime_ns`.
    let now: u64 = 1_000_000_000_000;
    ctl.previous_frame = Some(FrameInfo {
        frametime_ns,
        jitter_ns: 0,
        release_ns: now.saturating_sub(frametime_ns as u64),
    });
    delay(ctl, now, 0);
}

#[test]
fn drain_stays_zero_when_coupled() {
    let mut ctl = DelayController::new(false, 0.0);
    for _ in 0..50 {
        step_with_frametime(&mut ctl, 8_000_000);
    }
    assert_eq!(ctl.drain_ns, 0);
}

#[test]
fn previous_frame_initialized_on_first_call() {
    let mut ctl = DelayController::new(true, 0.0);
    assert!(ctl.previous_frame.is_none());
    delay(&mut ctl, 1_000, 0);
    assert!(ctl.previous_frame.is_some());
}

#[test]
fn min_delay_zero_is_noop() {
    let mut ctl = DelayController::new(false, 0.0);
    delay(&mut ctl, 1_000, 0); // first call: just records.
    let waits = delay(&mut ctl, 2_000, 0);
    // No minimum delay: nothing to wait for.
    assert!(waits.is_none());
    assert_eq!(ctl.previous_frame.unwrap().release_ns, 2_000);
}

#[test]
fn drain_bounds_under_stable_frametime() {
    let mut ctl = DelayController::new(true, 0.0);
    let target = 16_000_000i64;
    for _ in 0..400 {
        step_with_frametime(&mut ctl, target);
    }
    assert!(ctl.drain_ns >= 0);
    assert!(
        ctl.drain_ns <= target,
        "drain {} exceeded frametime {}",
        ctl.drain_ns,
        target
    );
    assert!(ctl.gradient_ewma.is_finite());
    assert!((-1.0..=1.0).contains(&ctl.gradient_ewma));
}

#[test]
fn drain_stays_zero_when_coupled_long_run() {
    let mut ctl = DelayController::new(false, 0.0);
    for _ in 0..1000 {
        step_with_frametime(&mut ctl, 8_000_000);
    }
    assert_eq!(ctl.drain_ns, 0);
}

#[test]
fn minimum_delay_counts_from_the_previous_release() {
    let mut ctl = DelayController::new(false, ());
    assert!(matches!(ctl.begin(1_000_000, 5_000), Begin::Recorded));
    assert!(matches!(
        ctl.begin(1_002_000, 5_000),
        Begin::Wait { frametime_ns: 2_000, until_ns: Some(1_005_000) }
    ));
    assert!(matches!(ctl.resume(1_005_000, 2_000), Resume::Recorded));
    let frame = ctl.previous_frame.unwrap();
    assert_eq!((frame.frametime_ns, frame.jitter_ns, frame.release_ns), (2_000, 0, 1_005_000));
}

#[test]
fn jitter_comes_on_every_other_frame() {
    let mut ctl = DelayController::new(true, ());
    ctl.begin(1_000_000, 0);
    // Up: a fiftieth of the frame time, and nothing to learn yet.
    ctl.begin(1_050_000, 0);
    match ctl.resume(1_050_000, 50_000) {
        Resume::Wait { jitter_ns, until_ns, sample } => {
            assert_eq!(jitter_ns, 1_000);
            assert_eq!(until_ns, 1_051_000);
            assert!(sample.is_none());
        }
        other => panic!("{:?}", other),
    }
    ctl.finish(1_051_000, 50_000, 1_000, None);
    // Down: no jitter, and the answer of the frame time.
    match ctl.resume(1_101_000, 50_500) {
        Resume::Wait { jitter_ns, until_ns, sample } => {
            assert_eq!(jitter_ns, 0);
            assert_eq!(until_ns, 1_101_000);
            let s = sample.unwrap();
            assert_eq!(s.dt_frametime_ns, 500);
            assert_eq!(s.dt_jitter_ns, -1_000);
            assert_eq!(s.previous_jitter_ns, 1_000);
        }
        other => panic!("{:?}", other),
    }
    // The drain moves, but only within the frame.
    ctl.finish(1_101_000, 50_500, 0, Some(((), 2_500)));
    assert_eq!(ctl.drain_ns, 2_500);
    ctl.finish(1_101_000, 50_500, 0, Some(((), 100_000)));
    assert_eq!(ctl.drain_ns, 50_500);
    ctl.finish(1_101_000, 50_500, 0, Some(((), -100_000)));
    assert_eq!(ctl.drain_ns, 0);
}

#[test]
fn a_clock_that_went_back_gives_no_time() {
    let mut ctl = DelayController::new(false, ());
    ctl.begin(1_000, 0);
    assert!(matches!(
        ctl.begin(400, 0),
        Begin::Wait { frametime_ns: 0, until_ns: None }
    ));
}

#[test]
fn waiters_spin_only_near_the_deadline() {
    assert_eq!(spin_until(10, 10), Spin::Reached);
    assert_eq!(spin_until(11, 10), Spin::Reached);
    assert_eq!(spin_until(0, 200_000), Spin::Pause);
    assert_eq!(spin_until(0, 200_001), Spin::Yield);
}

#[test]
fn host_times_follow_the_anchor() {
    assert!(DeviceClock::new(false).is_none());
    let mut clock = DeviceClock::new(true).unwrap();
    assert_eq!(clock.refresh_anchor(-3, 1, 2), Err(-3));
    assert_eq!(clock.anchor.host_ns, 0);
    assert_eq!(clock.refresh_anchor(0, 1_000, 5_000), Ok(()));
    assert_eq!(clock.ticks_since_anchor(1_000), 0);
    assert_eq!(clock.ticks_since_anchor(900), -100);
    assert_eq!(clock.ticks_to_host_ns(0), 5_000);
    assert_eq!(clock.ticks_to_host_ns(-100), 4_900);
    assert_eq!(clock.ticks_to_host_ns(-6_000), 0);
    assert_eq!(clock.ticks_to_host_ns(u64::MAX as i128), 4_999);
    assert_eq!(timespec_ns(2, 5), 2_000_000_005);
}

#[test]
fn releases_are_the_minimum_delay_apart() {
    for decoupled in [false, true] {
        let mut ctl = DelayController::new(decoupled, 0.0);
        let mut now_ns = 1_000_000;
        delay(&mut ctl, now_ns, 16_000_000);
        let first = ctl.previous_frame.unwrap();
        assert_eq!((first.frametime_ns, first.jitter_ns), (0, 0));
        assert_eq!(first.release_ns, now_ns);
        for _ in 0..20 {
            let before = ctl.previous_frame.unwrap().release_ns;
            now_ns = before + 3_000_000;
            delay(&mut ctl, now_ns, 16_000_000);
            assert!(ctl.previous_frame.unwrap().release_ns >= before + 16_000_000);
            assert!(ctl.drain_ns >= 0 && ctl.drain_ns <= 3_000_000);
        }
    }
}
