//! State shared between the reader of the telemetry socket and the display.

use std::collections::VecDeque;
use vstd::prelude::*;
use crate::hud::parse;
use crate::hud::parse::parse_line;
use crate::ring;
use crate::ring::push_bounded;

verus! {

/// One present as the layer reports it.
#[derive(Clone, Copy, Debug, PartialEq, Eq, Structural)]
pub struct Record {
    pub ts_ns: u64,
    pub frame: u64,
    pub queue: u64,
    pub pid: u64,
    pub latency_us: u64,
}

impl Record {
    /// The record of a line that names no field.
    pub open spec fn zero() -> Record {
        Record { ts_ns: 0, frame: 0, queue: 0, pid: 0, latency_us: 0 }
    }
}

impl Default for Record {
    fn default() -> (r: Self)
        ensures
            r == Record::zero(),
    {
        Record { ts_ns: 0, frame: 0, queue: 0, pid: 0, latency_us: 0 }
    }
}

/// How many records are kept: enough to keep the percentiles of the last
/// second stable.
pub const RING_CAPACITY: usize = 4096;

/// The recent records, and how the reader stands.
pub struct SharedState {
    pub ring: VecDeque<Record>,
    pub stop: bool,
    pub connected: bool,
}

/// The records from a moment on, in order.
pub open spec fn since(s: Seq<Record>, cutoff_ns: u64) -> Seq<Record>
    decreases s.len(),
{
    if s.len() == 0 {
        Seq::empty()
    } else if s.last().ts_ns >= cutoff_ns {
        since(s.drop_last(), cutoff_ns).push(s.last())
    } else {
        since(s.drop_last(), cutoff_ns)
    }
}

/// A moment some time before another, or the start of the clock.
pub open spec fn before_by(now_ns: u64, window_ns: u64) -> u64 {
    if now_ns >= window_ns {
        (now_ns - window_ns) as u64
    } else {
        0
    }
}

impl SharedState {
    pub open spec fn wf(self) -> bool {
        self.ring@.len() <= RING_CAPACITY
    }

    pub fn new() -> (r: Self)
        ensures
            r.wf(),
            r.ring@ == Seq::<Record>::empty(),
            !r.stop,
            !r.connected,
    {
        SharedState {
            ring: VecDeque::with_capacity(RING_CAPACITY),
            stop: false,
            connected: false,
        }
    }

    /// Adds a record, in place of the oldest where the ring is full.
    pub fn push(&mut self, rec: Record)
        requires
            old(self).wf(),
        ensures
            final(self).wf(),
            final(self).ring@ == ring::pushed(old(self).ring@, rec, RING_CAPACITY as nat),
            final(self).stop == old(self).stop,
            final(self).connected == old(self).connected,
    {
        push_bounded(&mut self.ring, rec, RING_CAPACITY);
    }

    /// Takes in a line of the stream. A line that does not read is passed
    /// over.
    pub fn receive(&mut self, line: &str)
        requires
            old(self).wf(),
        ensures
            final(self).wf(),
            final(self).ring@ == (match parse::line_value(line@) {
                Some(rec) => ring::pushed(old(self).ring@, rec, RING_CAPACITY as nat),
                None => old(self).ring@,
            }),
            final(self).stop == old(self).stop,
            final(self).connected == old(self).connected,
    {
        if let Some(rec) = parse_line(line) {
            self.push(rec);
        }
    }

    /// Copies the records from a moment on, so that the display holds nothing
    /// while it draws.
    pub fn snapshot_since(&self, cutoff_ns: u64) -> (r: Vec<Record>)
        ensures
            r@ == since(self.ring@, cutoff_ns),
    {
        let mut out: Vec<Record> = Vec::new();
        let mut i: usize = 0;
        while i < self.ring.len()
            invariant
                i <= self.ring@.len(),
                out@ == since(self.ring@.take(i as int), cutoff_ns),
            decreases self.ring@.len() - i,
        {
            let rec: Record = self.ring[i];
            proof {
                assert(self.ring@.take(i + 1).last() == self.ring@[i as int]);
                assert(self.ring@.take(i + 1).drop_last() =~= self.ring@.take(i as int));
            }
            if rec.ts_ns >= cutoff_ns {
                out.push(rec);
            }
            i += 1;
        }
        proof {
            assert(self.ring@.take(i as int) =~= self.ring@);
        }
        out
    }

    /// The time of the newest record. It serves as "now", because the
    /// display's own clock need not be that of the game.
    pub fn latest_ts(&self) -> (r: Option<u64>)
        ensures
            r == (if self.ring@.len() > 0 {
                Some(self.ring@.last().ts_ns)
            } else {
                None
            }),
    {
        let n: usize = self.ring.len();
        if n == 0 {
            None
        } else {
            Some(self.ring[n - 1].ts_ns)
        }
    }

    /// What the display draws: "now", and the records of a window that ends
    /// there. Without a time there is nothing.
    pub fn view_window(&self, window_ns: u64) -> (r: (u64, Vec<Record>))
        ensures
            r.0 == (if self.ring@.len() > 0 {
                self.ring@.last().ts_ns
            } else {
                0
            }),
            r.1@ == (if r.0 > 0 {
                since(self.ring@, before_by(r.0, window_ns))
            } else {
                Seq::empty()
            }),
    {
        let now_ns: u64 = match self.latest_ts() {
            Some(ts) => ts,
            None => 0,
        };
        if now_ns > 0 {
            let cutoff: u64 = if now_ns >= window_ns {
                now_ns - window_ns
            } else {
                0
            };
            (now_ns, self.snapshot_since(cutoff))
        } else {
            (now_ns, Vec::new())
        }
    }
}

impl Default for SharedState {
    fn default() -> (r: Self)
        ensures
            r.wf(),
            r.ring@ == Seq::<Record>::empty(),
            !r.stop,
            !r.connected,
    {
        SharedState::new()
    }
}

/// The records from a moment on are exactly those of the ring that are not
/// older, in order.
pub proof fn law_snapshot_is_what_is_not_older(s: &SharedState, cutoff_ns: u64, r: Vec<Record>)
    requires
        call_ensures(SharedState::snapshot_since, (s, cutoff_ns), r),
    ensures
        r@ == s.ring@.filter(|x: Record| x.ts_ns >= cutoff_ns),
{
    lemma_since_filters(s.ring@, cutoff_ns);
}

proof fn lemma_since_filters(s: Seq<Record>, cutoff_ns: u64)
    ensures
        since(s, cutoff_ns) == s.filter(|x: Record| x.ts_ns >= cutoff_ns),
    decreases s.len(),
{
    reveal(Seq::filter);
    if s.len() > 0 {
        lemma_since_filters(s.drop_last(), cutoff_ns);
    } else {
        assert(s.filter(|x: Record| x.ts_ns >= cutoff_ns) =~= Seq::empty());
    }
}

/// Now is the time of the newest record, and the display gets exactly the
/// records that are at most a window older. Without a record there is neither.
pub proof fn law_display_gets_the_window(
    s: &SharedState,
    window_ns: u64,
    latest: Option<u64>,
    r: (u64, Vec<Record>),
)
    requires
        call_ensures(SharedState::latest_ts, (s,), latest),
        call_ensures(SharedState::view_window, (s, window_ns), r),
    ensures
        latest is Some <==> s.ring@.len() > 0,
        latest matches Some(t) ==> t == s.ring@[s.ring@.len() - 1].ts_ns && r.0 == t,
        latest is None ==> r.0 == 0,
        r.0 == 0 ==> r.1@.len() == 0,
        r.0 > 0 ==> r.1@ == s.ring@.filter(|x: Record| x.ts_ns + window_ns >= r.0),
        r.0 > 0 ==> r.1@.len() > 0,
        forall|i: int| 0 <= i < r.1@.len() ==> (#[trigger] r.1@[i]).ts_ns + window_ns >= r.0,
{
    if r.0 > 0 {
        let cutoff = before_by(r.0, window_ns);
        let p = |x: Record| x.ts_ns >= before_by(r.0, window_ns);
        lemma_since_filters(s.ring@, cutoff);
        lemma_same_filter(s.ring@, r.0, window_ns);
        let n = s.ring@.len() - 1;
        s.ring@.lemma_filter_contains(p, n);
        assert(r.1@.contains(s.ring@[n]));
        assert forall|i: int| 0 <= i < r.1@.len() implies (#[trigger] r.1@[i]).ts_ns + window_ns
            >= r.0 by {
            s.ring@.lemma_filter_pred(p, i);
        }
    }
}

/// A line that reads becomes the newest record, and any other line changes
/// nothing. Only a full ring of 4096 gives up its oldest record.
pub proof fn law_line_becomes_the_newest_record(
    s: &mut SharedState,
    line: &str,
    r: Option<Record>,
)
    requires
        old(s).wf(),
        call_ensures(SharedState::receive, (s, line), ()),
        call_ensures(parse_line, (line,), r),
    ensures
        r is None ==> final(s).ring@ == old(s).ring@,
        r matches Some(rec) ==> {
            &&& final(s).ring@.last() == rec
            &&& old(s).ring@.len() < 4096 ==> final(s).ring@.drop_last() == old(s).ring@
            &&& old(s).ring@.len() == 4096 ==> seq![old(s).ring@[0]] + final(s).ring@.drop_last()
                == old(s).ring@
        },
        final(s).stop == old(s).stop,
        final(s).connected == old(s).connected,
{
    if r is Some {
        if old(s).ring@.len() < 4096 {
            assert(final(s).ring@.drop_last() =~= old(s).ring@);
        } else {
            assert(seq![old(s).ring@[0]] + final(s).ring@.drop_last() =~= old(s).ring@);
        }
    }
}

proof fn lemma_same_filter(s: Seq<Record>, now_ns: u64, window_ns: u64)
    ensures
        s.filter(|x: Record| x.ts_ns >= before_by(now_ns, window_ns)) == s.filter(
            |x: Record| x.ts_ns + window_ns >= now_ns,
        ),
    decreases s.len(),
{
    reveal(Seq::filter);
    let p = |x: Record| x.ts_ns >= before_by(now_ns, window_ns);
    let q = |x: Record| x.ts_ns + window_ns >= now_ns;
    if s.len() > 0 {
        lemma_same_filter(s.drop_last(), now_ns, window_ns);
        assert(p(s.last()) == q(s.last()));
    } else {
        assert(s.filter(p) =~= s.filter(q));
    }
}

} // verus!
