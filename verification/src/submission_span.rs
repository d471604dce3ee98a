//! A frame's worth of submissions for a queue, collapsed to just its first
//! and last handle. This keeps memory bounded regardless of how many
//! submissions a frame contains.

use vstd::prelude::*;
use crate::text;
use crate::text::{chars_of, parse_number};

verus! {

/// The handles of the first submission and, where there were more, of the
/// last.
#[derive(Debug)]
pub struct SubmissionSpan<H> {
    pub head: H,
    pub tail: Option<H>,
}

impl<H> SubmissionSpan<H> {
    /// The handle of the last submission.
    pub open spec fn last(self) -> H {
        match self.tail {
            Some(t) => t,
            None => self.head,
        }
    }

    pub fn new(handle: H) -> (r: Self)
        ensures
            r.head == handle,
            r.tail is None,
    {
        SubmissionSpan { head: handle, tail: None }
    }

    pub fn extend(&mut self, handle: H)
        ensures
            final(self).head == old(self).head,
            final(self).tail == Some(handle),
    {
        self.tail = Some(handle);
    }

    /// The handle whose end stamp tells that the whole span has completed.
    pub fn trailing(&self) -> (r: &H)
        ensures
            *r == self.last(),
    {
        match &self.tail {
            Some(t) => t,
            None => &self.head,
        }
    }
}

/// A span holds the first and the last of all handles that went into it.
pub open spec fn span_of<H>(handles: Seq<H>) -> SubmissionSpan<H>
    recommends
        handles.len() > 0,
{
    SubmissionSpan {
        head: handles[0],
        tail: if handles.len() > 1 {
            Some(handles.last())
        } else {
            None
        },
    }
}

/// Extending a span by one more handle is the span of all of them.
pub proof fn law_span_is_first_and_last<H>(handles: Seq<H>, next: H)
    requires
        handles.len() > 0,
    ensures
        span_of(handles.push(next)) == (SubmissionSpan {
            head: span_of(handles).head,
            tail: Some(next),
        }),
        span_of(handles.push(next)).last() == next,
{
}

/// Puts one more submission into a span that may not have begun.
pub fn extend_or_init<H>(slot: &mut Option<SubmissionSpan<H>>, handle: H)
    ensures
        *final(slot) == Some(extended(*old(slot), handle)),
{
    match slot.take() {
        Some(mut span) => {
            span.extend(handle);
            *slot = Some(span);
        },
        None => {
            *slot = Some(SubmissionSpan::new(handle));
        },
    }
}

/// The span with one more submission in it.
pub open spec fn extended<H>(slot: Option<SubmissionSpan<H>>, handle: H) -> SubmissionSpan<H> {
    match slot {
        Some(span) => SubmissionSpan { head: span.head, tail: Some(handle) },
        None => SubmissionSpan { head: handle, tail: None },
    }
}

/// How a wait stands after a look at the GPU and then at the clock.
#[derive(Debug, Clone, Copy, PartialEq, Eq, Structural)]
pub enum WaitPoll {
    Completed,
    TimedOut,
    Again,
}

pub open spec fn poll_of(completed: bool, now_ns: u64, deadline_ns: u64) -> WaitPoll {
    if completed {
        WaitPoll::Completed
    } else if now_ns >= deadline_ns {
        WaitPoll::TimedOut
    } else {
        WaitPoll::Again
    }
}

/// One turn of a wait with a deadline. Work that has completed counts even
/// after the deadline.
pub fn await_completed_until(completed: bool, now_ns: u64, deadline_ns: u64) -> (r: WaitPoll)
    ensures
        r == poll_of(completed, now_ns, deadline_ns),
{
    if completed {
        return WaitPoll::Completed;
    }
    if now_ns >= deadline_ns {
        return WaitPoll::TimedOut;
    }
    WaitPoll::Again
}

/// A wait for several spans that share one deadline. Every span is looked at:
/// one that runs out of time does not hide the ones behind it.
#[derive(Debug, Clone, Copy)]
pub struct AwaitAll {
    /// The span to look at.
    pub at: usize,
    /// How many spans have completed so far.
    pub done: usize,
    pub total: usize,
    pub deadline_ns: u64,
}

impl AwaitAll {
    pub open spec fn wf(self) -> bool {
        self.done <= self.at <= self.total
    }

    /// Whether nothing is left to wait for.
    pub open spec fn finished(self) -> bool {
        self.at == self.total
    }

    /// The wait after one look at the current span.
    pub open spec fn polled(self, completed: bool, now_ns: u64) -> AwaitAll {
        match poll_of(completed, now_ns, self.deadline_ns) {
            WaitPoll::Completed => AwaitAll {
                at: (self.at + 1) as usize,
                done: (self.done + 1) as usize,
                ..self
            },
            WaitPoll::TimedOut => AwaitAll { at: (self.at + 1) as usize, ..self },
            WaitPoll::Again => self,
        }
    }

    pub fn new(total: usize, now_ns: u64, budget_ns: u64) -> (r: Self)
        requires
            now_ns + budget_ns <= u64::MAX,
        ensures
            r.wf(),
            r == (AwaitAll { at: 0, done: 0, total, deadline_ns: (now_ns + budget_ns) as u64 }),
    {
        AwaitAll { at: 0, done: 0, total, deadline_ns: now_ns + budget_ns }
    }

    /// The span to look at next; `None` where the wait is over.
    pub fn current(&self) -> (r: Option<usize>)
        ensures
            r == (if self.finished() {
                None
            } else {
                Some(self.at)
            }),
    {
        if self.at == self.total {
            None
        } else {
            Some(self.at)
        }
    }

    /// Takes a look at the current span into account. A span that has
    /// completed counts; one that has run out of time is passed over.
    pub fn poll(&mut self, completed: bool, now_ns: u64)
        requires
            old(self).wf(),
            !old(self).finished(),
        ensures
            final(self).wf(),
            *final(self) == old(self).polled(completed, now_ns),
    {
        match await_completed_until(completed, now_ns, self.deadline_ns) {
            WaitPoll::Completed => {
                self.at = self.at + 1;
                self.done = self.done + 1;
            },
            WaitPoll::TimedOut => {
                self.at = self.at + 1;
            },
            WaitPoll::Again => {},
        }
    }
}

/// The wait after some looks, each at the span that was current then.
pub open spec fn after_polls(a: AwaitAll, looks: Seq<(bool, u64)>) -> AwaitAll
    decreases looks.len(),
{
    if looks.len() == 0 {
        a
    } else {
        let before = after_polls(a, looks.drop_last());
        if before.finished() {
            before
        } else {
            before.polled(looks.last().0, looks.last().1)
        }
    }
}

/// How many looks before the end of a wait found their span complete.
pub open spec fn completed_looks(a: AwaitAll, looks: Seq<(bool, u64)>) -> nat
    decreases looks.len(),
{
    if looks.len() == 0 {
        0
    } else {
        let rest = completed_looks(a, looks.drop_last());
        if looks.last().0 && !after_polls(a, looks.drop_last()).finished() {
            rest + 1
        } else {
            rest
        }
    }
}

/// A wait counts exactly the spans that were seen complete, wherever they
/// stand.
pub proof fn law_every_completed_span_counts(a: AwaitAll, looks: Seq<(bool, u64)>)
    requires
        a.wf(),
        a.done == 0,
    ensures
        after_polls(a, looks).wf(),
        after_polls(a, looks).total == a.total,
        after_polls(a, looks).done == completed_looks(a, looks),
    decreases looks.len(),
{
    if looks.len() > 0 {
        law_every_completed_span_counts(a, looks.drop_last());
    }
}

/// Microseconds to wait for work before a sleep semaphore is signalled
/// anyway: half a frame at 120 Hz.
pub const DEFAULT_WAIT_BUDGET_US: u64 = 4_000;

pub open spec fn budget_of(value: Option<Seq<char>>) -> u64 {
    match value {
        Some(s) => match text::number_value(s, 10, u64::MAX as nat) {
            Some(us) => us as u64,
            None => DEFAULT_WAIT_BUDGET_US,
        },
        None => DEFAULT_WAIT_BUDGET_US,
    }
}

/// The wait budget that the environment sets, in microseconds.
pub fn wait_budget(value: Option<&str>) -> (r: u64)
    ensures
        r == budget_of(match value {
            Some(s) => Some(s@),
            None => None,
        }),
{
    match value {
        Some(s) => {
            let chars = chars_of(s);
            match parse_number(chars.as_slice(), 10, u64::MAX) {
                Some(us) => us,
                None => DEFAULT_WAIT_BUDGET_US,
            }
        },
        None => DEFAULT_WAIT_BUDGET_US,
    }
}

/// However many submissions go into a span, it holds the first and the last
/// of them: it begins with the first alone, and each further one takes the
/// place of the last.
pub proof fn law_span_grows_by_its_end<H>(
    slot: &mut Option<SubmissionSpan<H>>,
    handles: Seq<H>,
    next: H,
)
    requires
        handles.len() == 0 ==> *old(slot) is None,
        handles.len() > 0 ==> *old(slot) == Some(span_of(handles)),
        call_ensures(extend_or_init::<H>, (slot, next), ()),
    ensures
        *final(slot) is Some,
        final(slot)->0.head == handles.push(next)[0],
        final(slot)->0.tail is Some <==> handles.len() > 0,
        final(slot)->0.last() == next,
        *final(slot) == Some(span_of(handles.push(next))),
{
}

/// A span has completed with its last submission: that is the handle to look
/// at, and the head alone where there was no other.
pub proof fn law_trailing_is_the_newest<H>(s: &SubmissionSpan<H>, r: &H)
    requires
        call_ensures(SubmissionSpan::<H>::trailing, (s,), r),
    ensures
        s.tail is None ==> *r == s.head,
        s.tail matches Some(t) ==> *r == t,
{
}

/// Work that has completed counts whatever the time is. Other work is waited
/// for until the deadline and no longer.
pub proof fn law_deadline_ends_a_wait(completed: bool, now_ns: u64, deadline_ns: u64, r: WaitPoll)
    requires
        call_ensures(await_completed_until, (completed, now_ns, deadline_ns), r),
    ensures
        r is Completed <==> completed,
        r is TimedOut <==> !completed && now_ns >= deadline_ns,
        r is Again <==> !completed && now_ns < deadline_ns,
{
}

/// A wait for several spans looks at each of them in turn. It goes on to the
/// next once one has completed or the time is up, and counts those that have
/// completed.
pub proof fn law_wait_goes_from_span_to_span(
    a: &mut AwaitAll,
    completed: bool,
    now_ns: u64,
    before: Option<usize>,
    after: Option<usize>,
)
    requires
        old(a).wf(),
        call_ensures(AwaitAll::current, (&*old(a),), before),
        before is Some,
        call_ensures(AwaitAll::poll, (a, completed, now_ns), ()),
        call_ensures(AwaitAll::current, (&*final(a),), after),
    ensures
        final(a).total == old(a).total,
        final(a).deadline_ns == old(a).deadline_ns,
        final(a).done == old(a).done + (if completed {
            1int
        } else {
            0
        }),
        !completed && now_ns < old(a).deadline_ns ==> after == before,
        completed || now_ns >= old(a).deadline_ns ==> after == (if before->0 + 1 < old(a).total {
            Some((before->0 + 1) as usize)
        } else {
            None
        }),
{
}

/// A wait begins with the first span, ends after its budget, and has counted
/// nothing.
pub proof fn law_wait_begins_with_its_budget(
    total: usize,
    now_ns: u64,
    budget_ns: u64,
    r: AwaitAll,
    first: Option<usize>,
)
    requires
        now_ns + budget_ns <= u64::MAX,
        call_ensures(AwaitAll::new, (total, now_ns, budget_ns), r),
        call_ensures(AwaitAll::current, (&r,), first),
    ensures
        r.done == 0,
        r.total == total,
        r.deadline_ns - now_ns == budget_ns,
        total > 0 ==> first == Some(0usize),
        total == 0 ==> first is None,
{
}

/// The budget is the number of microseconds that the environment gives, and
/// 4000 where it gives none or something else than a number.
pub proof fn law_budget_is_as_written(value: Option<&str>, us: u64, r: u64)
    requires
        call_ensures(wait_budget, (value,), r),
    ensures
        value is None ==> r == 4_000,
        value matches Some(s) ==> s@ == text::digits_of(us as nat, 10) ==> r == us,
        value matches Some(s) ==> text::digits_value(s@, 10) is None && (s@.len() > 0 && s@[0]
            != '+') ==> r == 4_000,
        value matches Some(s) ==> s@.len() == 0 ==> r == 4_000,
{
    text::lemma_number_round_trip(us as nat, 10, u64::MAX as nat);
}

} // verus!
