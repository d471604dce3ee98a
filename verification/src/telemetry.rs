//! Telemetry: counters, and the ring of recent presents that wait to be
//! streamed.

use std::collections::VecDeque;
use vstd::prelude::*;
use crate::ring;
use crate::ring::push_bounded;

verus! {

/// How many presents wait for a slow consumer before the oldest is dropped.
pub const RING_CAPACITY: usize = 1024;

/// The sum of two counter values, which wraps around at two to the 64.
pub open spec fn wrapped_sum(a: u64, b: int) -> int {
    (a + b) % 0x1_0000_0000_0000_0000
}

/// Running totals of what passed through the layer.
#[derive(Clone, Copy, Debug, PartialEq, Eq, Structural)]
pub struct Counters {
    pub frames: u64,
    pub submits: u64,
    pub presents: u64,
    pub injections: u64,
    pub acquires: u64,
}

impl Default for Counters {
    fn default() -> (r: Self)
        ensures
            r == (Counters { frames: 0, submits: 0, presents: 0, injections: 0, acquires: 0 }),
    {
        Counters { frames: 0, submits: 0, presents: 0, injections: 0, acquires: 0 }
    }
}

impl Counters {
    /// Counts one submit call of `submit_count` batches, of which `injected`
    /// were wrapped with timestamps.
    pub fn record_submit_call(&mut self, submit_count: u32, injected: u32)
        ensures
            final(self).submits == wrapped_sum(old(self).submits, submit_count as int),
            final(self).injections == wrapped_sum(old(self).injections, injected as int),
            final(self).frames == old(self).frames,
            final(self).presents == old(self).presents,
            final(self).acquires == old(self).acquires,
    {
        self.submits = self.submits.wrapping_add(submit_count as u64);
        self.injections = self.injections.wrapping_add(injected as u64);
    }

    /// Counts one present, which ends one frame.
    pub fn inc_present(&mut self)
        ensures
            final(self).presents == wrapped_sum(old(self).presents, 1),
            final(self).frames == wrapped_sum(old(self).frames, 1),
            final(self).submits == old(self).submits,
            final(self).injections == old(self).injections,
            final(self).acquires == old(self).acquires,
    {
        self.presents = self.presents.wrapping_add(1);
        self.frames = self.frames.wrapping_add(1);
    }

    /// Counts one image acquired.
    pub fn inc_acquire(&mut self)
        ensures
            final(self).acquires == wrapped_sum(old(self).acquires, 1),
            final(self).frames == old(self).frames,
            final(self).presents == old(self).presents,
            final(self).submits == old(self).submits,
            final(self).injections == old(self).injections,
    {
        self.acquires = self.acquires.wrapping_add(1);
    }
}

/// One present. `host_ns` is the monotonic clock at the return from the
/// downstream present call.
#[derive(Clone, Copy, Debug, PartialEq, Eq, Structural)]
pub struct FrameRecord {
    pub host_ns: u64,
    pub frame_index: u64,
    pub queue_id: u64,
    pub present_id: u64,
    pub latency_us: u64,
}

/// The counters, and the presents that wait for the consumer of the socket
/// where one was asked for.
pub struct Telemetry {
    pub counters: Counters,
    pub ring: Option<VecDeque<FrameRecord>>,
}

impl Telemetry {
    /// The presents that wait, oldest first: `None` where nothing is streamed.
    pub open spec fn pending(self) -> Option<Seq<FrameRecord>> {
        match self.ring {
            Some(ring) => Some(ring@),
            None => None,
        }
    }

    /// The ring never outgrows its capacity.
    pub open spec fn wf(self) -> bool {
        self.pending() is Some ==> self.pending()->0.len() <= RING_CAPACITY
    }

    /// `streaming` says whether a socket was asked for.
    pub fn new(streaming: bool) -> (r: Self)
        ensures
            r.wf(),
            r.counters == (Counters {
                frames: 0,
                submits: 0,
                presents: 0,
                injections: 0,
                acquires: 0,
            }),
            r.pending() == (if streaming {
                Some(Seq::<FrameRecord>::empty())
            } else {
                None
            }),
    {
        let ring: Option<VecDeque<FrameRecord>> = if streaming {
            Some(VecDeque::with_capacity(RING_CAPACITY))
        } else {
            None
        };
        Telemetry { counters: Counters::default(), ring }
    }

    /// Whether presents are recorded for a socket.
    pub fn socket_enabled(&self) -> (r: bool)
        ensures
            r == self.pending() is Some,
    {
        self.ring.is_some()
    }

    /// Queues one present for the socket. Where the consumer is a full ring
    /// behind, the oldest present gives way. Without a socket nothing happens.
    pub fn push_record(&mut self, rec: FrameRecord)
        requires
            old(self).wf(),
        ensures
            final(self).wf(),
            final(self).counters == old(self).counters,
            final(self).pending() == (match old(self).pending() {
                Some(s) => Some(ring::pushed(s, rec, RING_CAPACITY as nat)),
                None => None,
            }),
    {
        if let Some(ring) = &mut self.ring {
            push_bounded(ring, rec, RING_CAPACITY);
        }
    }

    /// Hands out every present that waits, oldest first, and leaves none.
    pub fn drain(&mut self) -> (r: Vec<FrameRecord>)
        ensures
            r@ == (match old(self).pending() {
                Some(s) => s,
                None => Seq::<FrameRecord>::empty(),
            }),
            final(self).counters == old(self).counters,
            final(self).pending() == (match old(self).pending() {
                Some(s) => Some(Seq::<FrameRecord>::empty()),
                None => None,
            }),
            final(self).wf(),
    {
        let mut out: Vec<FrameRecord> = Vec::new();
        if let Some(ring) = &mut self.ring {
            let ghost all = ring@;
            let n: usize = ring.len();
            let mut i: usize = 0;
            while i < n
                invariant
                    i <= n,
                    n == all.len(),
                    ring@ == all.skip(i as int),
                    out@ == all.take(i as int),
                decreases n - i,
            {
                match ring.pop_front() {
                    Some(rec) => {
                        out.push(rec);
                    },
                    None => {},
                }
                proof {
                    assert(all.take(i + 1) =~= all.take(i as int).push(all[i as int]));
                    assert(all.skip(i as int).subrange(1, all.skip(i as int).len() as int)
                        =~= all.skip(i + 1));
                }
                i += 1;
            }
            proof {
                assert(all.skip(n as int) =~= Seq::<FrameRecord>::empty());
                assert(all.take(n as int) =~= all);
            }
        }
        out
    }
}

/// What the thread that serves a connected consumer does next.
#[derive(Clone, Copy, Debug, PartialEq, Eq, Structural)]
pub enum ClientAction {
    /// The layer shuts down: leave the consumer.
    Leave,
    /// Nothing waits: sleep until a present is queued.
    Wait,
    /// Stream everything that waits.
    Stream,
}

/// Shutdown comes before streaming, and streaming before sleep.
pub fn client_action(stop: bool, waiting: usize) -> (r: ClientAction)
    ensures
        r == (if stop {
            ClientAction::Leave
        } else if waiting == 0 {
            ClientAction::Wait
        } else {
            ClientAction::Stream
        }),
{
    if stop {
        ClientAction::Leave
    } else if waiting == 0 {
        ClientAction::Wait
    } else {
        ClientAction::Stream
    }
}

/// How an attempt to accept a consumer ended.
#[derive(Clone, Copy, Debug, PartialEq, Eq, Structural)]
pub enum AcceptOutcome {
    Connected,
    WouldBlock,
    Failed,
}

/// What the listening thread does next.
#[derive(Clone, Copy, Debug, PartialEq, Eq, Structural)]
pub enum ListenAction {
    Serve,
    /// Sleep for that many milliseconds, then try again.
    Retry(u64),
    Stop,
}

/// A consumer is served, an idle socket is polled ten times a second, and a
/// broken one ends the thread.
pub fn listen_action(outcome: AcceptOutcome) -> (r: ListenAction)
    ensures
        r == (match outcome {
            AcceptOutcome::Connected => ListenAction::Serve,
            AcceptOutcome::WouldBlock => ListenAction::Retry(100),
            AcceptOutcome::Failed => ListenAction::Stop,
        }),
{
    match outcome {
        AcceptOutcome::Connected => ListenAction::Serve,
        AcceptOutcome::WouldBlock => ListenAction::Retry(100),
        AcceptOutcome::Failed => ListenAction::Stop,
    }
}

/// The counters at one moment, and how many frames were counted since the
/// moment before.
#[derive(Clone, Copy, Debug, PartialEq, Eq, Structural)]
pub struct StatsSnapshot {
    pub frames: u64,
    pub submits: u64,
    pub injections: u64,
    pub acquires: u64,
    pub frames_delta: u64,
}

/// Takes snapshots of the counters at an interval.
pub struct StatsSampler {
    pub last_frames: u64,
}

impl StatsSampler {
    pub fn new() -> (r: Self)
        ensures
            r.last_frames == 0,
    {
        StatsSampler { last_frames: 0 }
    }

    pub fn sample(&mut self, counters: &Counters) -> (r: StatsSnapshot)
        requires
            counters.frames >= old(self).last_frames,
        ensures
            r == (StatsSnapshot {
                frames: counters.frames,
                submits: counters.submits,
                injections: counters.injections,
                acquires: counters.acquires,
                frames_delta: (counters.frames - old(self).last_frames) as u64,
            }),
            final(self).last_frames == counters.frames,
    {
        let frames_delta: u64 = counters.frames - self.last_frames;
        self.last_frames = counters.frames;
        StatsSnapshot {
            frames: counters.frames,
            submits: counters.submits,
            injections: counters.injections,
            acquires: counters.acquires,
            frames_delta,
        }
    }
}

/// Whether a snapshot is logged at all, and every how many seconds: the
/// setting reads as a number, and anything else switches it off.
pub open spec fn stats_interval_of(setting: Option<Seq<char>>) -> u64 {
    match setting {
        Some(s) => match crate::text::number_value(s, 10, u64::MAX as nat) {
            Some(v) => v as u64,
            None => 0,
        },
        None => 0,
    }
}

/// Reads the interval setting. Zero switches the snapshots off.
pub fn stats_interval(setting: Option<&str>) -> (r: u64)
    ensures
        r == stats_interval_of(match setting {
            Some(s) => Some(s@),
            None => None,
        }),
{
    match setting {
        Some(s) => {
            let chars = crate::text::chars_of(s);
            match crate::text::parse_number(chars.as_slice(), 10, u64::MAX) {
                Some(v) => v,
                None => 0,
            }
        },
        None => 0,
    }
}

/// Every present counts as one present and one frame, every acquired image as
/// one, and a submit call as its batches and those that were wrapped. Nothing
/// else changes, and a counter goes back to 0 only behind its last number.
pub proof fn law_counters_count(
    s: &mut Counters,
    submit_count: u32,
    injected: u32,
    p: &mut Counters,
    a: &mut Counters,
)
    requires
        call_ensures(Counters::record_submit_call, (s, submit_count, injected), ()),
        *old(p) == *final(s),
        call_ensures(Counters::inc_present, (p,), ()),
        *old(a) == *final(p),
        call_ensures(Counters::inc_acquire, (a,), ()),
        old(s).submits + submit_count <= u64::MAX,
        old(s).injections + injected <= u64::MAX,
        old(s).presents < u64::MAX,
        old(s).frames < u64::MAX,
        old(s).acquires < u64::MAX,
    ensures
        final(a).submits - old(s).submits == submit_count,
        final(a).injections - old(s).injections == injected,
        final(a).presents - old(s).presents == 1,
        final(a).frames - old(s).frames == 1,
        final(a).acquires - old(s).acquires == 1,
        final(s).presents == old(s).presents && final(s).frames == old(s).frames
            && final(s).acquires == old(s).acquires,
        final(p).submits == final(s).submits && final(p).acquires == final(s).acquires,
{
}

/// What is queued is handed out: behind all that waits already, once, and only
/// where something is streamed. Only behind 1024 that wait is the oldest
/// dropped.
pub proof fn law_queued_presents_are_handed_out(
    a: &mut Telemetry,
    rec: FrameRecord,
    b: &mut Telemetry,
    r: Vec<FrameRecord>,
    c: &mut Telemetry,
    again: Vec<FrameRecord>,
    enabled: bool,
)
    requires
        old(a).wf(),
        call_ensures(Telemetry::socket_enabled, (&*old(a),), enabled),
        call_ensures(Telemetry::push_record, (a, rec), ()),
        *old(b) == *final(a),
        call_ensures(Telemetry::drain, (b,), r),
        *old(c) == *final(b),
        call_ensures(Telemetry::drain, (c,), again),
    ensures
        final(c).counters == old(a).counters,
        again@.len() == 0,
        !enabled ==> r@.len() == 0,
        enabled ==> {
            let waiting = old(a).ring->0@;
            &&& old(a).ring is Some
            &&& r@.last() == rec
            &&& waiting.len() < 1024 ==> r@.drop_last() == waiting
            &&& waiting.len() == 1024 ==> seq![waiting[0]] + r@.drop_last() == waiting
        },
{
    if enabled {
        let waiting = old(a).ring->0@;
        assert(old(a).pending() == Some(waiting));
        if waiting.len() < 1024 {
            assert(r@.drop_last() =~= waiting);
        } else {
            assert(seq![waiting[0]] + r@.drop_last() =~= waiting);
        }
    }
}

/// A new telemetry has counted nothing and holds nothing, and streams only
/// where a socket was asked for.
pub proof fn law_telemetry_starts_empty(streaming: bool, t: Telemetry, enabled: bool)
    requires
        call_ensures(Telemetry::new, (streaming,), t),
        call_ensures(Telemetry::socket_enabled, (&t,), enabled),
    ensures
        enabled == streaming,
        t.counters.frames == 0 && t.counters.submits == 0 && t.counters.presents == 0
            && t.counters.injections == 0 && t.counters.acquires == 0,
        t.ring matches Some(ring) ==> ring@.len() == 0,
{
    assert(t.pending() is Some <==> t.ring is Some);
}

/// The frames between snapshots add up to all that were counted: two in a row
/// give the frames since the one before the first. A snapshot holds the
/// counters as they are.
pub proof fn law_snapshots_add_up(
    a: &mut StatsSampler,
    first: &Counters,
    of_first: StatsSnapshot,
    b: &mut StatsSampler,
    second: &Counters,
    of_second: StatsSnapshot,
)
    requires
        old(a).last_frames <= first.frames <= second.frames,
        call_ensures(StatsSampler::sample, (a, first), of_first),
        *old(b) == *final(a),
        call_ensures(StatsSampler::sample, (b, second), of_second),
    ensures
        of_first.frames_delta + of_second.frames_delta == second.frames - old(a).last_frames,
        of_second.frames_delta == second.frames - first.frames,
        of_first.frames == first.frames,
        of_first.submits == first.submits,
        of_first.injections == first.injections,
        of_first.acquires == first.acquires,
{
}

/// A consumer is left on a stop whatever waits, and gets what waits before the
/// thread sleeps.
pub proof fn law_consumer_is_served(stop: bool, waiting: usize, r: ClientAction)
    requires
        call_ensures(client_action, (stop, waiting), r),
    ensures
        r is Leave <==> stop,
        r is Stream <==> !stop && waiting > 0,
        r is Wait <==> !stop && waiting == 0,
{
}

/// Only a consumer that has connected is served, only a broken socket ends the
/// thread, and an idle one is looked at ten times a second.
pub proof fn law_listener_goes_on(outcome: AcceptOutcome, r: ListenAction)
    requires
        call_ensures(listen_action, (outcome,), r),
    ensures
        r is Serve <==> outcome is Connected,
        r is Stop <==> outcome is Failed,
        r matches ListenAction::Retry(ms) ==> outcome is WouldBlock && 10 * ms == 1_000,
{
}

/// The interval is the number that is written. Without one nothing is logged.
pub proof fn law_interval_is_as_written(setting: Option<&str>, secs: u64, r: u64)
    requires
        call_ensures(stats_interval, (setting,), r),
    ensures
        setting is None ==> r == 0,
        setting matches Some(s) ==> s@ == crate::text::digits_of(secs as nat, 10) ==> r == secs,
        setting matches Some(s) ==> s@.len() > 0 && s@[0] != '+' && crate::text::digits_value(
            s@,
            10,
        ) is None ==> r == 0,
{
    crate::text::lemma_number_round_trip(secs as nat, 10, u64::MAX as nat);
}

/// A counter at its last number goes on from 0.
pub proof fn law_counters_wrap_around(p: &mut Counters, a: &mut Counters, s: &mut Counters, n: u32)
    requires
        old(p).presents == u64::MAX,
        old(p).frames == u64::MAX,
        call_ensures(Counters::inc_present, (p,), ()),
        old(a).acquires == u64::MAX,
        call_ensures(Counters::inc_acquire, (a,), ()),
        old(s).submits == u64::MAX,
        old(s).injections == u64::MAX,
        n > 0,
        call_ensures(Counters::record_submit_call, (s, n, n), ()),
    ensures
        final(p).presents == 0,
        final(p).frames == 0,
        final(a).acquires == 0,
        final(s).submits == n - 1,
        final(s).injections == n - 1,
{
}

} // verus!
