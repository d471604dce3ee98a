//! The "drain" controller for games that simulate apart from rendering.
//!
//! Most games tightly couple simulation and render, with a queue of one frame
//! at most. A few decouple them, letting the simulation run two or three
//! frames ahead, where the GPU is idle by the time the layer would otherwise
//! wait. The controller then injects a small sleep that forces the simulation
//! back to the floor. It applies a small jitter on every other frame and
//! watches how the frame time answers.
//!
//! A frame goes through the controller in up to three readings of the clock:
//! [`DelayController::begin`], [`DelayController::resume`] and
//! [`DelayController::finish`]. All times are nanoseconds of the host's
//! monotonic clock. The running gradient estimate is carried for its owner,
//! who computes it.

use vstd::prelude::*;

verus! {

#[derive(Debug, Clone, Copy)]
pub struct FrameInfo {
    pub frametime_ns: i64,
    pub jitter_ns: i64,
    pub release_ns: u64,
}

pub struct DelayController<G> {
    pub simulation_decoupled: bool,
    pub previous_frame: Option<FrameInfo>,
    pub gradient_ewma: G,
    pub drain_ns: i64,
}

/// What a frame does once its time is known.
#[derive(Debug, Clone, Copy)]
pub enum Begin {
    /// The first frame: nothing to compare with.
    Recorded,
    /// Wait, where a moment is given, then resume.
    Wait { frametime_ns: i64, until_ns: Option<u64> },
}

/// What a frame does after its minimum delay.
#[derive(Debug, Clone, Copy)]
pub enum Resume {
    /// Simulation and render are coupled: the frame is released.
    Recorded,
    /// Wait until the given moment, then finish.
    Wait { jitter_ns: i64, until_ns: u64, sample: Option<GradientSample> },
}

/// How the frame time answered to the end of a jitter.
#[derive(Debug, Clone, Copy)]
pub struct GradientSample {
    pub dt_frametime_ns: i64,
    pub dt_jitter_ns: i64,
    pub previous_jitter_ns: i64,
}

/// `v`, moved into the range from `lo` to `hi`.
pub open spec fn clamped(v: int, lo: int, hi: int) -> int {
    if v < lo {
        lo
    } else if v > hi {
        hi
    } else {
        v
    }
}

/// The jitter of a frame: a fiftieth of its time after a frame without.
pub open spec fn next_jitter(prev: FrameInfo, frametime_ns: i64) -> i64 {
    if prev.jitter_ns == 0 {
        (frametime_ns as int / 50) as i64
    } else {
        0
    }
}

impl<G> DelayController<G> {
    pub open spec fn wf(self) -> bool {
        &&& self.drain_ns >= 0
        &&& !self.simulation_decoupled ==> self.drain_ns == 0
        &&& self.previous_frame matches Some(p) ==> p.frametime_ns >= 0 && 0 <= p.jitter_ns
            <= i64::MAX / 50
    }

    pub fn new(simulation_decoupled: bool, gradient_ewma: G) -> (r: Self)
        ensures
            r.wf(),
            r.simulation_decoupled == simulation_decoupled,
            r.previous_frame is None,
            r.gradient_ewma == gradient_ewma,
            r.drain_ns == 0,
    {
        DelayController { simulation_decoupled, previous_frame: None, gradient_ewma, drain_ns: 0 }
    }

    /// A frame once its time is known, and what it does then.
    pub open spec fn begun(self, now_ns: u64, min_delay_ns: u64) -> (Self, Begin) {
        match self.previous_frame {
            None => (
                DelayController {
                    previous_frame: Some(
                        FrameInfo { frametime_ns: 0, jitter_ns: 0, release_ns: now_ns },
                    ),
                    ..self
                },
                Begin::Recorded,
            ),
            Some(p) => (
                self,
                Begin::Wait {
                    frametime_ns: if now_ns >= p.release_ns {
                        (now_ns - p.release_ns) as i64
                    } else {
                        0
                    },
                    until_ns: if min_delay_ns != 0 {
                        Some((p.release_ns + min_delay_ns) as u64)
                    } else {
                        None
                    },
                },
            ),
        }
    }

    /// A frame after its minimum delay, and what it does then.
    pub open spec fn resumed(self, now_ns: u64, frametime_ns: i64) -> (Self, Resume) {
        let p = self.previous_frame->0;
        let jitter = next_jitter(p, frametime_ns);
        if !self.simulation_decoupled {
            (
                DelayController {
                    previous_frame: Some(
                        FrameInfo { frametime_ns, jitter_ns: 0, release_ns: now_ns },
                    ),
                    ..self
                },
                Resume::Recorded,
            )
        } else {
            (
                self,
                Resume::Wait {
                    jitter_ns: jitter,
                    until_ns: (now_ns + jitter + self.drain_ns) as u64,
                    sample: if p.jitter_ns == 0 {
                        None
                    } else {
                        Some(
                            GradientSample {
                                dt_frametime_ns: (frametime_ns - p.frametime_ns) as i64,
                                dt_jitter_ns: (-p.jitter_ns) as i64,
                                previous_jitter_ns: p.jitter_ns,
                            },
                        )
                    },
                },
            )
        }
    }

    /// A frame at its release. Where the estimate moved, the drain moves too,
    /// within one frame's time.
    pub open spec fn finished(
        self,
        now_ns: u64,
        frametime_ns: i64,
        jitter_ns: i64,
        moved: Option<(G, i64)>,
    ) -> Self {
        DelayController {
            simulation_decoupled: self.simulation_decoupled,
            previous_frame: Some(FrameInfo { frametime_ns, jitter_ns, release_ns: now_ns }),
            gradient_ewma: match moved {
                Some(m) => m.0,
                None => self.gradient_ewma,
            },
            drain_ns: match moved {
                Some(m) => clamped(self.drain_ns + m.1, 0, frametime_ns as int) as i64,
                None => self.drain_ns,
            },
        }
    }

    /// Starts a frame. Without a previous frame it is only recorded. Else its
    /// time is known, and it may not be released before `min_delay_ns` have
    /// passed since the previous release.
    pub fn begin(&mut self, now_ns: u64, min_delay_ns: u64) -> (r: Begin)
        requires
            old(self).wf(),
            old(self).previous_frame matches Some(p) ==> now_ns - p.release_ns <= i64::MAX
                && p.release_ns + min_delay_ns <= u64::MAX,
        ensures
            final(self).wf(),
            (*final(self), r) == old(self).begun(now_ns, min_delay_ns),
    {
        match self.previous_frame {
            None => {
                self.previous_frame = Some(
                    FrameInfo { frametime_ns: 0, jitter_ns: 0, release_ns: now_ns },
                );
                Begin::Recorded
            },
            Some(p) => {
                let frametime_ns: i64 = if now_ns >= p.release_ns {
                    (now_ns - p.release_ns) as i64
                } else {
                    0
                };
                let until_ns = if min_delay_ns != 0 {
                    Some(p.release_ns + min_delay_ns)
                } else {
                    None
                };
                Begin::Wait { frametime_ns, until_ns }
            },
        }
    }

    /// Goes on once the minimum delay has passed. A coupled game's frame is
    /// released at once. Else the drain and, on every other frame, a jitter
    /// are waited out first.
    pub fn resume(&mut self, now_ns: u64, frametime_ns: i64) -> (r: Resume)
        requires
            old(self).wf(),
            old(self).previous_frame is Some,
            frametime_ns >= 0,
            old(self).simulation_decoupled ==> {
                let jitter = next_jitter(old(self).previous_frame->0, frametime_ns);
                &&& now_ns + jitter + old(self).drain_ns <= u64::MAX
                &&& jitter + old(self).drain_ns <= i64::MAX
            },
        ensures
            final(self).wf(),
            (*final(self), r) == old(self).resumed(now_ns, frametime_ns),
    {
        let p = match self.previous_frame {
            Some(p) => p,
            None => FrameInfo { frametime_ns: 0, jitter_ns: 0, release_ns: 0 },
        };
        if !self.simulation_decoupled {
            self.previous_frame = Some(
                FrameInfo { frametime_ns, jitter_ns: 0, release_ns: now_ns },
            );
            return Resume::Recorded;
        }
        let jitter_ns: i64 = if p.jitter_ns == 0 {
            frametime_ns / 50
        } else {
            0
        };
        let until_ns: u64 = now_ns + (jitter_ns + self.drain_ns) as u64;
        let sample = if p.jitter_ns == 0 {
            None
        } else {
            Some(
                GradientSample {
                    dt_frametime_ns: frametime_ns - p.frametime_ns,
                    dt_jitter_ns: -p.jitter_ns,
                    previous_jitter_ns: p.jitter_ns,
                },
            )
        };
        Resume::Wait { jitter_ns, until_ns, sample }
    }

    /// Releases the frame. After a gradient sample the estimate is new, and
    /// the drain moves by what follows from it, within one frame's time.
    pub fn finish(
        &mut self,
        now_ns: u64,
        frametime_ns: i64,
        jitter_ns: i64,
        moved: Option<(G, i64)>,
    )
        requires
            old(self).wf(),
            old(self).simulation_decoupled,
            frametime_ns >= 0,
            0 <= jitter_ns <= i64::MAX / 50,
            moved matches Some(m) ==> old(self).drain_ns + m.1 <= i64::MAX,
        ensures
            final(self).wf(),
            *final(self) == old(self).finished(now_ns, frametime_ns, jitter_ns, moved),
    {
        if let Some((ewma, delta)) = moved {
            self.gradient_ewma = ewma;
            let drain: i64 = self.drain_ns + delta;
            self.drain_ns = if drain < 0 {
                0
            } else if drain > frametime_ns {
                frametime_ns
            } else {
                drain
            };
        }
        self.previous_frame = Some(FrameInfo { frametime_ns, jitter_ns, release_ns: now_ns });
    }
}

/// The nanoseconds before a deadline from which on a waiter no longer gives
/// up its time slice.
pub const SPIN_BELOW_NS: u64 = 200_000;

/// One turn of a wait for a moment.
#[derive(Debug, Clone, Copy, PartialEq, Eq, Structural)]
pub enum Spin {
    Reached,
    Yield,
    Pause,
}

/// What a waiter does at `now_ns`: it gives up its time slice while the
/// deadline is far, and spins when it is near.
pub fn spin_until(now_ns: u64, deadline_ns: u64) -> (r: Spin)
    ensures
        r == (if now_ns >= deadline_ns {
            Spin::Reached
        } else if deadline_ns - now_ns > SPIN_BELOW_NS {
            Spin::Yield
        } else {
            Spin::Pause
        }),
{
    if now_ns >= deadline_ns {
        return Spin::Reached;
    }
    let remaining: u64 = deadline_ns - now_ns;
    if remaining > SPIN_BELOW_NS {
        Spin::Yield
    } else {
        Spin::Pause
    }
}

/// One delay from outside: the least time since the previous release, the
/// readings of the clock on entry, after the minimum delay and at the release,
/// and, where the gradient is asked for, the new estimate with what the drain
/// moves by.
pub struct Delay<G> {
    pub min_delay_ns: u64,
    pub entered_ns: u64,
    pub resumed_ns: u64,
    pub released_ns: u64,
    pub moved: (G, i64),
}

impl<G> DelayController<G> {
    /// A new controller.
    pub open spec fn initial(simulation_decoupled: bool, gradient_ewma: G) -> Self {
        DelayController { simulation_decoupled, previous_frame: None, gradient_ewma, drain_ns: 0 }
    }

    /// The time of a frame that comes in at a moment.
    pub open spec fn frametime_at(self, entered_ns: u64) -> i64 {
        match self.begun(entered_ns, 0).1 {
            Begin::Recorded => 0,
            Begin::Wait { frametime_ns, .. } => frametime_ns,
        }
    }

    /// The controller after a whole delay: begin, resume and finish.
    pub open spec fn delayed(self, d: Delay<G>) -> Self {
        match self.begun(d.entered_ns, d.min_delay_ns) {
            (begun, Begin::Recorded) => begun,
            (begun, Begin::Wait { frametime_ns, .. }) => match begun.resumed(
                d.resumed_ns,
                frametime_ns,
            ) {
                (resumed, Resume::Recorded) => resumed,
                (resumed, Resume::Wait { jitter_ns, sample, .. }) => resumed.finished(
                    d.released_ns,
                    frametime_ns,
                    jitter_ns,
                    match sample {
                        Some(_) => Some(d.moved),
                        None => None,
                    },
                ),
            },
        }
    }

    /// Whether the times of a delay fit into their numbers.
    pub open spec fn fits(self, d: Delay<G>) -> bool {
        let ft = self.frametime_at(d.entered_ns);
        self.previous_frame matches Some(p) ==> {
            &&& d.entered_ns - p.release_ns <= i64::MAX
            &&& p.release_ns + d.min_delay_ns <= u64::MAX
            &&& self.simulation_decoupled ==> {
                &&& d.resumed_ns + next_jitter(p, ft) + self.drain_ns <= u64::MAX
                &&& next_jitter(p, ft) + self.drain_ns <= i64::MAX
                &&& p.jitter_ns != 0 ==> self.drain_ns + d.moved.1 <= i64::MAX
            }
        }
    }

    /// Whether every wait of a delay was waited out, on a clock that does not
    /// go back.
    pub open spec fn waited(self, d: Delay<G>) -> bool {
        &&& d.entered_ns <= d.resumed_ns <= d.released_ns
        &&& self.previous_frame matches Some(p) ==> p.release_ns <= d.entered_ns
        &&& self.begun(d.entered_ns, d.min_delay_ns).1 matches Begin::Wait {
            until_ns: Some(until_ns),
            ..
        } ==> d.resumed_ns >= until_ns
        &&& self.resumed(d.resumed_ns, self.frametime_at(d.entered_ns)).1 matches Resume::Wait {
            until_ns,
            ..
        } ==> d.released_ns >= until_ns
    }
}

/// The controller after some delays.
pub open spec fn after_delays<G>(c: DelayController<G>, delays: Seq<Delay<G>>) -> DelayController<G>
    decreases delays.len(),
{
    if delays.len() == 0 {
        c
    } else {
        after_delays(c, delays.drop_last()).delayed(delays.last())
    }
}

/// Whether the times of all delays fit.
pub open spec fn all_fit<G>(c: DelayController<G>, delays: Seq<Delay<G>>) -> bool
    decreases delays.len(),
{
    delays.len() > 0 ==> all_fit(c, delays.drop_last()) && after_delays(
        c,
        delays.drop_last(),
    ).fits(delays.last())
}

/// The first frame is only recorded. From then on two releases are at least
/// the minimum delay apart. A coupled game without a minimum waits for
/// nothing.
pub proof fn law_releases_are_apart<G>(c: DelayController<G>, d: Delay<G>)
    requires
        c.wf(),
        c.fits(d),
        c.waited(d),
    ensures
        c.previous_frame is None ==> c.delayed(d).previous_frame == Some(
            FrameInfo { frametime_ns: 0, jitter_ns: 0, release_ns: d.entered_ns },
        ),
        c.previous_frame matches Some(p) ==> {
            &&& c.delayed(d).previous_frame is Some
            &&& c.delayed(d).previous_frame->0.release_ns >= p.release_ns + d.min_delay_ns
            &&& c.delayed(d).previous_frame->0.release_ns >= d.entered_ns
        },
        !c.simulation_decoupled && d.min_delay_ns == 0 ==> {
            &&& c.begun(d.entered_ns, 0).1 matches Begin::Wait { until_ns, .. } ==> until_ns is None
            &&& c.resumed(d.resumed_ns, c.frametime_at(d.entered_ns)).1 is Recorded
        },
{
}

/// A coupled game never drains and gets no jitter, however many frames come,
/// and its gradient estimate is never touched.
pub proof fn law_coupled_never_drains<G>(gradient_ewma: G, delays: Seq<Delay<G>>)
    ensures
        ({
            let c = after_delays(DelayController::initial(false, gradient_ewma), delays);
            &&& !c.simulation_decoupled
            &&& c.drain_ns == 0
            &&& c.gradient_ewma == gradient_ewma
            &&& c.previous_frame matches Some(p) ==> p.jitter_ns == 0
        }),
    decreases delays.len(),
{
    if delays.len() > 0 {
        law_coupled_never_drains(gradient_ewma, delays.drop_last());
    }
}

/// Every state that delays lead to is a valid one: no drain is negative.
pub proof fn law_delays_keep_the_state_valid<G>(
    simulation_decoupled: bool,
    gradient_ewma: G,
    delays: Seq<Delay<G>>,
)
    requires
        all_fit(DelayController::initial(simulation_decoupled, gradient_ewma), delays),
    ensures
        after_delays(DelayController::initial(simulation_decoupled, gradient_ewma), delays).wf(),
        after_delays(
            DelayController::initial(simulation_decoupled, gradient_ewma),
            delays,
        ).simulation_decoupled == simulation_decoupled,
    decreases delays.len(),
{
    if delays.len() > 0 {
        law_delays_keep_the_state_valid(simulation_decoupled, gradient_ewma, delays.drop_last());
    }
}

/// Whatever the gradient says, the drain that it moves stays within the frame
/// at hand. Only the frame behind a jitter moves it, or the estimate.
pub proof fn law_drain_is_within_a_frame<G>(c: DelayController<G>, d: Delay<G>)
    requires
        c.wf(),
        c.fits(d),
    ensures
        c.delayed(d).drain_ns >= 0,
        ({
            let moves = c.simulation_decoupled && (c.previous_frame matches Some(p) && p.jitter_ns
                != 0);
            &&& moves ==> c.delayed(d).drain_ns <= c.frametime_at(d.entered_ns)
                && c.delayed(d).gradient_ewma == d.moved.0
            &&& !moves ==> c.delayed(d).drain_ns == c.drain_ns && c.delayed(d).gradient_ewma
                == c.gradient_ewma
        }),
{
}

/// Of a new controller, after any number of delays, the next delay keeps its
/// release apart from the previous one, and the drain within its frame.
pub proof fn law_every_delay_of_a_run<G>(
    simulation_decoupled: bool,
    gradient_ewma: G,
    delays: Seq<Delay<G>>,
    d: Delay<G>,
)
    requires
        all_fit(DelayController::initial(simulation_decoupled, gradient_ewma), delays),
        after_delays(
            DelayController::initial(simulation_decoupled, gradient_ewma),
            delays,
        ).fits(d),
        after_delays(
            DelayController::initial(simulation_decoupled, gradient_ewma),
            delays,
        ).waited(d),
    ensures
        ({
            let c = after_delays(
                DelayController::initial(simulation_decoupled, gradient_ewma),
                delays,
            );
            let next = c.delayed(d);
            &&& next.wf()
            &&& next.previous_frame is Some
            &&& c.previous_frame matches Some(p) ==> next.previous_frame->0.release_ns
                >= p.release_ns + d.min_delay_ns
            &&& next.drain_ns >= 0
            &&& next.drain_ns == c.drain_ns || next.drain_ns <= c.frametime_at(d.entered_ns)
        }),
{
    let start = DelayController::initial(simulation_decoupled, gradient_ewma);
    let c = after_delays(start, delays);
    law_delays_keep_the_state_valid(simulation_decoupled, gradient_ewma, delays);
    law_releases_are_apart(c, d);
    law_drain_is_within_a_frame(c, d);
    assert(delays.push(d).drop_last() =~= delays);
    law_delays_keep_the_state_valid(simulation_decoupled, gradient_ewma, delays.push(d));
}

/// The jitter comes on every other frame only.
pub proof fn law_jitter_alternates(prev: FrameInfo, frametime_ns: i64)
    requires
        frametime_ns >= 0,
    ensures
        prev.jitter_ns != 0 ==> next_jitter(prev, frametime_ns) == 0,
        prev.jitter_ns == 0 ==> next_jitter(prev, frametime_ns) == frametime_ns / 50,
{
}

/// A frame's time is what has passed since the previous release, and the
/// moment that its minimum delay ends comes that delay after the release. The
/// first frame has neither.
pub proof fn law_frame_is_measured_from_the_release<G>(
    c: &mut DelayController<G>,
    now_ns: u64,
    min_delay_ns: u64,
    r: Begin,
)
    requires
        old(c).wf(),
        old(c).previous_frame matches Some(p) ==> now_ns - p.release_ns <= i64::MAX && p.release_ns
            + min_delay_ns <= u64::MAX,
        call_ensures(DelayController::<G>::begin, (c, now_ns, min_delay_ns), r),
    ensures
        final(c).simulation_decoupled == old(c).simulation_decoupled,
        final(c).drain_ns == old(c).drain_ns,
        final(c).gradient_ewma == old(c).gradient_ewma,
        r is Recorded <==> old(c).previous_frame is None,
        r is Recorded ==> (final(c).previous_frame matches Some(f) && f.frametime_ns == 0
            && f.jitter_ns == 0 && f.release_ns == now_ns),
        r matches Begin::Wait { frametime_ns, until_ns } ==> {
            let p = old(c).previous_frame->0;
            &&& *final(c) == *old(c)
            &&& p.release_ns + frametime_ns == now_ns || (now_ns < p.release_ns && frametime_ns
                == 0)
            &&& min_delay_ns == 0 ==> until_ns is None
            &&& min_delay_ns > 0 ==> (until_ns matches Some(u) && u - p.release_ns == min_delay_ns)
        },
{
}

/// A decoupled frame is held for the drain and its jitter, no longer and no
/// shorter. A fiftieth of the frame's time is the jitter of a frame behind one
/// without. The frame behind a jitter has none of its own, and gives how the
/// frame time and the jitter changed since. A coupled frame is not held.
pub proof fn law_drain_is_slept_out<G>(
    c: &mut DelayController<G>,
    now_ns: u64,
    frametime_ns: i64,
    r: Resume,
)
    requires
        old(c).wf(),
        old(c).previous_frame is Some,
        frametime_ns >= 0,
        old(c).simulation_decoupled ==> {
            let jitter = if old(c).previous_frame->0.jitter_ns == 0 {
                frametime_ns as int / 50
            } else {
                0
            };
            &&& now_ns + jitter + old(c).drain_ns <= u64::MAX
            &&& jitter + old(c).drain_ns <= i64::MAX
        },
        call_ensures(DelayController::<G>::resume, (c, now_ns, frametime_ns), r),
    ensures
        final(c).simulation_decoupled == old(c).simulation_decoupled,
        final(c).drain_ns == old(c).drain_ns,
        final(c).gradient_ewma == old(c).gradient_ewma,
        r is Wait <==> old(c).simulation_decoupled,
        r is Recorded ==> (final(c).previous_frame matches Some(f) && f.frametime_ns == frametime_ns
            && f.jitter_ns == 0 && f.release_ns == now_ns),
        r matches Resume::Wait { jitter_ns, until_ns, sample } ==> {
            let p = old(c).previous_frame->0;
            &&& *final(c) == *old(c)
            &&& until_ns - now_ns == old(c).drain_ns + jitter_ns
            &&& until_ns >= now_ns + old(c).drain_ns
            &&& p.jitter_ns != 0 ==> jitter_ns == 0
            &&& p.jitter_ns == 0 ==> 50 * jitter_ns <= frametime_ns < 50 * (jitter_ns + 1)
            &&& sample is Some <==> p.jitter_ns != 0
            &&& sample matches Some(s) ==> {
                &&& p.frametime_ns + s.dt_frametime_ns == frametime_ns
                &&& p.jitter_ns + s.dt_jitter_ns == jitter_ns
                &&& s.previous_jitter_ns == p.jitter_ns
            }
        },
{
    assert(50 * (frametime_ns as int / 50) <= frametime_ns < 50 * (frametime_ns as int / 50 + 1));
}

/// A released frame is remembered as it was. What the gradient asks for moves
/// the drain: it falls short only where that is more than the frame's time,
/// and goes beyond only where that is negative.
pub proof fn law_drain_goes_where_the_gradient_says<G>(
    c: &mut DelayController<G>,
    now_ns: u64,
    frametime_ns: i64,
    jitter_ns: i64,
    moved: Option<(G, i64)>,
)
    requires
        old(c).wf(),
        old(c).simulation_decoupled,
        frametime_ns >= 0,
        moved matches Some(m) ==> old(c).drain_ns + m.1 <= i64::MAX,
        call_ensures(DelayController::<G>::finish, (c, now_ns, frametime_ns, jitter_ns, moved), ()),
    ensures
        final(c).simulation_decoupled == old(c).simulation_decoupled,
        final(c).previous_frame matches Some(f) && f.frametime_ns == frametime_ns && f.jitter_ns
            == jitter_ns && f.release_ns == now_ns,
        moved is None ==> final(c).drain_ns == old(c).drain_ns
            && final(c).gradient_ewma == old(c).gradient_ewma,
        moved matches Some(m) ==> {
            let wanted = old(c).drain_ns + m.1;
            &&& final(c).gradient_ewma == m.0
            &&& 0 <= final(c).drain_ns <= frametime_ns
            &&& 0 <= wanted <= frametime_ns ==> final(c).drain_ns == wanted
            &&& final(c).drain_ns < wanted ==> final(c).drain_ns == frametime_ns
            &&& final(c).drain_ns > wanted ==> final(c).drain_ns == 0
        },
{
}

/// A whole delay of a decoupled game, where its waits are waited out: the
/// release comes after the minimum delay, and then after the drain and the
/// jitter of the frame on top.
pub proof fn law_release_comes_after_drain_and_jitter<G>(c: DelayController<G>, d: Delay<G>)
    requires
        c.wf(),
        c.fits(d),
        c.waited(d),
        c.simulation_decoupled,
        c.previous_frame is Some,
    ensures
        ({
            let p = c.previous_frame->0;
            let f = c.delayed(d).previous_frame->0;
            &&& c.delayed(d).previous_frame is Some
            &&& f.release_ns >= d.resumed_ns + c.drain_ns + f.jitter_ns
            &&& f.release_ns >= p.release_ns + d.min_delay_ns + c.drain_ns + f.jitter_ns
            &&& p.release_ns + f.frametime_ns == d.entered_ns
            &&& p.jitter_ns != 0 ==> f.jitter_ns == 0
            &&& p.jitter_ns == 0 ==> 50 * f.jitter_ns <= f.frametime_ns < 50 * (f.jitter_ns + 1)
        }),
{
    let ft = c.frametime_at(d.entered_ns);
    assert(50 * (ft as int / 50) <= ft < 50 * (ft as int / 50 + 1));
}

/// A wait is over exactly from its deadline on, neither before nor later, and
/// the last fifth of a millisecond is never given away.
pub proof fn law_wait_ends_at_its_deadline(now_ns: u64, deadline_ns: u64, r: Spin)
    requires
        call_ensures(spin_until, (now_ns, deadline_ns), r),
    ensures
        r is Reached <==> now_ns >= deadline_ns,
        r is Yield <==> now_ns + 200_000 < deadline_ns,
{
}

} // verus!
