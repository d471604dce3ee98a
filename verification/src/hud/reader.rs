//! The thread that owns the connection to the layer: what it does next.

use vstd::prelude::*;

verus! {

/// Where the layer's socket is looked for, unless a path is given.
pub const DEFAULT_SOCKET: &'static str = "/tmp/vkpace.sock";

/// Milliseconds that one read may take, so that a stop is seen soon.
pub const READ_TIMEOUT_MS: u64 = 500;

/// Milliseconds before the first attempt to reconnect.
pub const BACKOFF_MIN_MS: u64 = 100;

/// Milliseconds between attempts at most.
pub const BACKOFF_MAX_MS: u64 = 5_000;

/// Milliseconds that a sleep goes on without a look at whether to stop.
pub const SLEEP_STEP_MS: u64 = 100;

/// How long to wait between attempts: twice as long after each failure, and
/// from the start again after a successful read.
#[derive(Debug, Clone, Copy)]
pub struct Backoff {
    pub ms: u64,
}

impl Backoff {
    pub open spec fn wf(self) -> bool {
        BACKOFF_MIN_MS <= self.ms <= BACKOFF_MAX_MS
    }

    pub fn new() -> (r: Self)
        ensures
            r.wf(),
            r.ms == BACKOFF_MIN_MS,
    {
        Backoff { ms: BACKOFF_MIN_MS }
    }

    /// An attempt failed: gives how long to wait before the next.
    pub fn failed(&mut self) -> (wait_ms: u64)
        requires
            old(self).wf(),
        ensures
            final(self).wf(),
            wait_ms == old(self).ms,
            final(self).ms == (if old(self).ms * 2 < BACKOFF_MAX_MS {
                old(self).ms * 2
            } else {
                BACKOFF_MAX_MS as int
            }),
    {
        let wait_ms: u64 = self.ms;
        self.ms =
        if self.ms * 2 < BACKOFF_MAX_MS {
            self.ms * 2
        } else {
            BACKOFF_MAX_MS
        };
        wait_ms
    }

    /// A read brought something.
    pub fn succeeded(&mut self)
        ensures
            final(self).wf(),
            final(self).ms == BACKOFF_MIN_MS,
    {
        self.ms = BACKOFF_MIN_MS;
    }
}

/// What a read of a line came to.
#[derive(Debug, Clone, Copy, PartialEq, Eq, Structural)]
pub enum ReadOutcome {
    /// The layer closed the socket.
    End,
    Line,
    /// Nothing came in time.
    TimedOut,
    Failed,
}

/// What the reader does next.
#[derive(Debug, Clone, Copy, PartialEq, Eq, Structural)]
pub enum ReaderStep {
    TakeLine,
    ReadAgain,
    Reconnect,
}

/// A line is taken, and the waits start anew. A timeout only lets the reader
/// look whether to stop. Anything else means that the socket is gone.
pub fn after_read(outcome: ReadOutcome, backoff: &mut Backoff) -> (r: ReaderStep)
    requires
        old(backoff).wf(),
    ensures
        final(backoff).wf(),
        final(backoff).ms == (if outcome == ReadOutcome::Line {
            BACKOFF_MIN_MS
        } else {
            old(backoff).ms
        }),
        r == (match outcome {
            ReadOutcome::Line => ReaderStep::TakeLine,
            ReadOutcome::TimedOut => ReaderStep::ReadAgain,
            ReadOutcome::End => ReaderStep::Reconnect,
            ReadOutcome::Failed => ReaderStep::Reconnect,
        }),
{
    match outcome {
        ReadOutcome::Line => {
            backoff.succeeded();
            ReaderStep::TakeLine
        },
        ReadOutcome::TimedOut => ReaderStep::ReadAgain,
        ReadOutcome::End => ReaderStep::Reconnect,
        ReadOutcome::Failed => ReaderStep::Reconnect,
    }
}

/// How long a sleep goes on before the next look at whether to stop: `None`
/// where it is over.
pub fn sleep_interruptible(remaining_ms: u64, stop: bool) -> (r: Option<u64>)
    ensures
        r == (if remaining_ms == 0 || stop {
            None
        } else if remaining_ms < SLEEP_STEP_MS {
            Some(remaining_ms)
        } else {
            Some(SLEEP_STEP_MS)
        }),
{
    if remaining_ms == 0 || stop {
        return None;
    }
    if remaining_ms < SLEEP_STEP_MS {
        Some(remaining_ms)
    } else {
        Some(SLEEP_STEP_MS)
    }
}

/// The wait after a number of failures in a row.
pub open spec fn wait_after(failures: nat) -> int
    decreases failures,
{
    if failures == 0 {
        BACKOFF_MIN_MS as int
    } else {
        let previous = wait_after((failures - 1) as nat);
        if previous * 2 < BACKOFF_MAX_MS {
            previous * 2
        } else {
            BACKOFF_MAX_MS as int
        }
    }
}

/// The waits grow, and from the sixth failure on stay at their longest.
pub proof fn law_backoff_is_bounded(failures: nat)
    ensures
        BACKOFF_MIN_MS <= wait_after(failures) <= BACKOFF_MAX_MS,
        wait_after(failures) <= wait_after(failures + 1),
        failures >= 6 ==> wait_after(failures) == BACKOFF_MAX_MS,
    decreases failures,
{
    if failures > 0 {
        law_backoff_is_bounded((failures - 1) as nat);
    }
    reveal_with_fuel(wait_after, 8);
}

/// The wait between attempts starts at 100 milliseconds, doubles with each
/// failure up to 5 seconds, and starts over once a line has come, and only
/// then.
pub proof fn law_waits_double_until_a_line(
    fresh: Backoff,
    a: &mut Backoff,
    wait_ms: u64,
    outcome: ReadOutcome,
    b: &mut Backoff,
    step: ReaderStep,
)
    requires
        call_ensures(Backoff::new, (), fresh),
        old(a).wf(),
        call_ensures(Backoff::failed, (a,), wait_ms),
        *old(b) == *final(a),
        call_ensures(after_read, (outcome, b), step),
    ensures
        fresh.ms == 100,
        wait_ms == old(a).ms,
        final(a).ms == 2 * wait_ms || (final(a).ms == 5_000 && 2 * wait_ms > 5_000),
        outcome == ReadOutcome::Line ==> final(b).ms == fresh.ms,
        outcome != ReadOutcome::Line ==> final(b).ms == final(a).ms,
{
}

/// Only a line is taken, only a timeout lets the reader go on as it is, and
/// whatever else happens has it connect anew.
pub proof fn law_reader_goes_on_or_reconnects(
    outcome: ReadOutcome,
    b: &mut Backoff,
    step: ReaderStep,
)
    requires
        old(b).wf(),
        call_ensures(after_read, (outcome, b), step),
    ensures
        step is TakeLine <==> outcome is Line,
        step is ReadAgain <==> outcome is TimedOut,
        step is Reconnect <==> outcome is End || outcome is Failed,
{
}

/// A sleep goes on in steps of at most 100 milliseconds and never longer than
/// is left of it. It is over where nothing is left, or with a stop.
pub proof fn law_sleep_looks_for_a_stop(remaining_ms: u64, stop: bool, r: Option<u64>)
    requires
        call_ensures(sleep_interruptible, (remaining_ms, stop), r),
    ensures
        r is None <==> stop || remaining_ms == 0,
        r matches Some(ms) ==> 0 < ms <= 100 && ms <= remaining_ms && (ms == 100 || ms
            == remaining_ms),
{
}

} // verus!
