//! Presents: what is recorded of them and who learns of them.

use vstd::prelude::*;
use crate::present_wait::{GoogleTimingWorker, PresentWaitWorker};
use crate::ring;
use crate::telemetry;
use crate::telemetry::{FrameRecord, Telemetry};

verus! {

/// The first present id of a present; 0 where it carries none.
pub fn first_present_id(present_ids: Option<&[u64]>) -> (r: u64)
    ensures
        r == (match present_ids {
            Some(ids) => if ids@.len() > 0 {
                ids@[0]
            } else {
                0
            },
            None => 0,
        }),
{
    match present_ids {
        Some(ids) => {
            if ids.len() == 0 {
                0
            } else {
                ids[0]
            }
        },
        None => 0,
    }
}

/// The record of a present, counted as `frame_index`.
pub open spec fn record_of(
    now_ns: u64,
    frame_index: u64,
    queue: u64,
    present_id: u64,
    latency_us: u64,
) -> FrameRecord {
    FrameRecord { host_ns: now_ns, frame_index, queue_id: queue, present_id, latency_us }
}

/// Counts a present and, where somebody listens, records it.
pub fn record_present(
    t: &mut Telemetry,
    queue: u64,
    present_id: u64,
    latency_us: u64,
    now_ns: u64,
)
    requires
        old(t).wf(),
    ensures
        final(t).wf(),
        final(t).counters.presents == telemetry::wrapped_sum(old(t).counters.presents, 1),
        final(t).counters.frames == telemetry::wrapped_sum(old(t).counters.frames, 1),
        final(t).counters.submits == old(t).counters.submits,
        final(t).counters.injections == old(t).counters.injections,
        final(t).counters.acquires == old(t).counters.acquires,
        final(t).pending() == (match old(t).pending() {
            Some(s) => Some(
                ring::pushed(
                    s,
                    record_of(
                        now_ns,
                        final(t).counters.frames,
                        queue,
                        present_id,
                        latency_us,
                    ),
                    telemetry::RING_CAPACITY as nat,
                ),
            ),
            None => None,
        }),
{
    t.counters.inc_present();
    if t.socket_enabled() {
        let rec = FrameRecord {
            host_ns: now_ns,
            frame_index: t.counters.frames,
            queue_id: queue,
            present_id,
            latency_us,
        };
        t.push_record(rec);
    }
}

/// The pairs whose present has an id.
pub open spec fn with_id(pairs: Seq<(u64, u64)>) -> Seq<(u64, u64)>
    decreases pairs.len(),
{
    if pairs.len() == 0 {
        Seq::empty()
    } else if pairs.last().1 != 0 {
        with_id(pairs.drop_last()).push(pairs.last())
    } else {
        with_id(pairs.drop_last())
    }
}

/// Has each present that has an id waited for, in order.
pub fn enqueue_waits(worker: &mut PresentWaitWorker, pairs: &[(u64, u64)])
    ensures
        final(worker).waiting() == old(worker).waiting() + with_id(pairs@),
        final(worker).stop == old(worker).stop,
{
    let mut i: usize = 0;
    proof {
        assert(worker.waiting() =~= old(worker).waiting() + with_id(pairs@.take(0)));
    }
    while i < pairs.len()
        invariant
            i <= pairs@.len(),
            worker.waiting() == old(worker).waiting() + with_id(pairs@.take(i as int)),
            worker.stop == old(worker).stop,
        decreases pairs@.len() - i,
    {
        let (swapchain, present_id): (u64, u64) = pairs[i];
        proof {
            assert(pairs@.take(i + 1).last() == pairs@[i as int]);
            assert(pairs@.take(i + 1).drop_last() =~= pairs@.take(i as int));
        }
        if present_id != 0 {
            worker.enqueue(swapchain, present_id);
            proof {
                assert(worker.waiting() =~= old(worker).waiting() + with_id(pairs@.take(i + 1)));
            }
        }
        i += 1;
    }
    proof {
        assert(pairs@.take(i as int) =~= pairs@);
    }
}

/// What waits on a swapchain after its presents among some pairs came in.
pub open spec fn fifo_after(fifo: Seq<u64>, pairs: Seq<(u64, u64)>, swapchain: u64) -> Seq<u64>
    decreases pairs.len(),
{
    if pairs.len() == 0 {
        fifo
    } else {
        let before = fifo_after(fifo, pairs.drop_last(), swapchain);
        if pairs.last().0 == swapchain && pairs.last().1 != 0 {
            ring::pushed(before, pairs.last().1, crate::present_wait::GOOGLE_PENDING_CAP as nat)
        } else {
            before
        }
    }
}

/// Whether a swapchain is among some pairs with an id.
pub open spec fn presents(pairs: Seq<(u64, u64)>, swapchain: u64) -> bool {
    exists|i: int|
        0 <= i < pairs.len() && (#[trigger] pairs[i]).0 == swapchain && pairs[i].1 != 0
}

/// Has each present that has an id get its polled time, in order.
pub fn enqueue_polls(worker: &mut GoogleTimingWorker, pairs: &[(u64, u64)])
    ensures
        forall|s: u64| #[trigger]
            final(worker).fifo(s) == fifo_after(old(worker).fifo(s), pairs@, s),
        forall|s: u64| #[trigger]
            final(worker).pending@.contains_key(s) == (old(worker).pending@.contains_key(s)
                || presents(pairs@, s)),
        final(worker).domain == old(worker).domain,
{
    let mut i: usize = 0;
    while i < pairs.len()
        invariant
            i <= pairs@.len(),
            forall|s: u64| #[trigger]
                worker.fifo(s) == fifo_after(old(worker).fifo(s), pairs@.take(i as int), s),
            forall|s: u64| #[trigger]
                worker.pending@.contains_key(s) == (old(worker).pending@.contains_key(s)
                    || presents(pairs@.take(i as int), s)),
            worker.domain == old(worker).domain,
        decreases pairs@.len() - i,
    {
        let (swapchain, present_id): (u64, u64) = pairs[i];
        let ghost before = *worker;
        proof {
            assert(pairs@.take(i + 1).last() == pairs@[i as int]);
            assert(pairs@.take(i + 1).drop_last() =~= pairs@.take(i as int));
        }
        if present_id != 0 {
            worker.enqueue(swapchain, present_id);
        }
        proof {
            assert forall|s: u64| #[trigger] worker.fifo(s) == fifo_after(
                old(worker).fifo(s),
                pairs@.take(i + 1),
                s,
            ) by {
                assert(before.fifo(s) == fifo_after(old(worker).fifo(s), pairs@.take(i as int), s));
                if present_id != 0 && s != swapchain {
                    assert(worker.pending@.contains_key(s) == before.pending@.contains_key(s));
                }
            }
            assert forall|s: u64| #[trigger]
                worker.pending@.contains_key(s) == (old(worker).pending@.contains_key(s)
                || presents(pairs@.take(i + 1), s)) by {
                let done = pairs@.take(i as int);
                let next = pairs@.take(i + 1);
                assert(before.pending@.contains_key(s) == (old(worker).pending@.contains_key(s)
                    || presents(done, s)));
                if presents(done, s) {
                    let k = choose|k: int|
                        0 <= k < done.len() && (#[trigger] done[k]).0 == s && done[k].1 != 0;
                    assert(next[k] == done[k]);
                }
                if presents(next, s) {
                    let k = choose|k: int|
                        0 <= k < next.len() && (#[trigger] next[k]).0 == s && next[k].1 != 0;
                    if k < i {
                        assert(done[k] == next[k]);
                    }
                }
                assert(next[i as int] == (swapchain, present_id));
            }
        }
        i += 1;
    }
    proof {
        assert(pairs@.take(i as int) =~= pairs@);
    }
}

/// The id of a present is the first that it carries, and 0 without one.
pub proof fn law_first_id_counts(present_ids: Option<&[u64]>, r: u64)
    requires
        call_ensures(first_present_id, (present_ids,), r),
    ensures
        present_ids matches Some(ids) ==> ids@.len() > 0 ==> r == ids@[0],
        present_ids matches Some(ids) ==> ids@.len() == 0 ==> r == 0,
        present_ids is None ==> r == 0,
{
}

/// A present counts as one present and one frame. Where somebody listens, it
/// is the newest that waits, with its own time, queue, id and latency, and
/// under its own number; where nobody does, nothing waits.
pub proof fn law_present_is_counted_and_queued(
    t: &mut Telemetry,
    queue: u64,
    present_id: u64,
    latency_us: u64,
    now_ns: u64,
)
    requires
        old(t).wf(),
        old(t).counters.presents < u64::MAX,
        old(t).counters.frames < u64::MAX,
        call_ensures(record_present, (t, queue, present_id, latency_us, now_ns), ()),
    ensures
        final(t).counters.presents == old(t).counters.presents + 1,
        final(t).counters.frames == old(t).counters.frames + 1,
        final(t).counters.submits == old(t).counters.submits,
        final(t).counters.acquires == old(t).counters.acquires,
        final(t).counters.injections == old(t).counters.injections,
        old(t).ring is None ==> final(t).ring is None,
        old(t).ring is Some ==> {
            let last = final(t).ring->0@.last();
            let was = old(t).ring->0@;
            &&& final(t).ring is Some
            &&& last.host_ns == now_ns
            &&& last.frame_index == old(t).counters.frames + 1
            &&& last.queue_id == queue
            &&& last.present_id == present_id
            &&& last.latency_us == latency_us
            &&& was.len() < 1024 ==> final(t).ring->0@.drop_last() == was
        },
{
    assert(old(t).pending() is Some <==> old(t).ring is Some);
    assert(final(t).pending() is Some <==> final(t).ring is Some);
    if old(t).ring is Some {
        assert(old(t).pending() == Some(old(t).ring->0@));
        assert(final(t).pending() == Some(final(t).ring->0@));
        if old(t).ring->0@.len() < 1024 {
            assert(final(t).ring->0@.drop_last() =~= old(t).ring->0@);
        }
    }
}

/// Every present that has an id is waited for, in order and behind those that
/// wait already, and no other is.
pub proof fn law_presents_with_an_id_are_waited_for(
    worker: &mut PresentWaitWorker,
    pairs: &[(u64, u64)],
)
    requires
        call_ensures(enqueue_waits, (worker, pairs), ()),
    ensures
        final(worker).waiting() == old(worker).waiting() + pairs@.filter(
            |p: (u64, u64)| p.1 != 0,
        ),
        final(worker).stop == old(worker).stop,
{
    lemma_with_id(pairs@);
}

proof fn lemma_with_id(pairs: Seq<(u64, u64)>)
    ensures
        with_id(pairs) == pairs.filter(|p: (u64, u64)| p.1 != 0),
    decreases pairs.len(),
{
    reveal(Seq::filter);
    if pairs.len() > 0 {
        lemma_with_id(pairs.drop_last());
    } else {
        assert(pairs.filter(|p: (u64, u64)| p.1 != 0) =~= Seq::empty());
    }
}

/// Whether a present is of a swapchain and has an id.
pub open spec fn is_of(swapchain: u64) -> spec_fn((u64, u64)) -> bool {
    |p: (u64, u64)| p.0 == swapchain && p.1 != 0
}

/// Every present of a swapchain that has an id gets in line there, in order
/// and behind those that wait already, as long as no more than 256 wait. No
/// present gets in line anywhere else.
pub proof fn law_presents_get_in_line_at_their_swapchain(
    worker: &mut GoogleTimingWorker,
    pairs: &[(u64, u64)],
    swapchain: u64,
)
    requires
        call_ensures(enqueue_polls, (worker, pairs), ()),
        old(worker).fifo(swapchain).len() + pairs@.filter(is_of(swapchain)).len() <= 256,
    ensures
        final(worker).fifo(swapchain) == old(worker).fifo(swapchain) + pairs@.filter(
            is_of(swapchain),
        ).map_values(|p: (u64, u64)| p.1),
        pairs@.filter(is_of(swapchain)).len() == 0 ==> final(worker).pending@.contains_key(
            swapchain,
        ) == old(worker).pending@.contains_key(swapchain),
        final(worker).domain == old(worker).domain,
{
    lemma_fifo_after(old(worker).fifo(swapchain), pairs@, swapchain);
    if presents(pairs@, swapchain) {
        let i = choose|i: int|
            0 <= i < pairs@.len() && (#[trigger] pairs@[i]).0 == swapchain && pairs@[i].1 != 0;
        pairs@.lemma_filter_contains(is_of(swapchain), i);
        assert(pairs@.filter(is_of(swapchain)).contains(pairs@[i]));
    }
}

proof fn lemma_fifo_after(fifo: Seq<u64>, pairs: Seq<(u64, u64)>, swapchain: u64)
    requires
        fifo.len() + pairs.filter(is_of(swapchain)).len() <= 256,
    ensures
        fifo_after(fifo, pairs, swapchain) == fifo + pairs.filter(is_of(swapchain)).map_values(
            |p: (u64, u64)| p.1,
        ),
    decreases pairs.len(),
{
    reveal(Seq::filter);
    let f = |p: (u64, u64)| p.1;
    let kept = pairs.filter(is_of(swapchain));
    if pairs.len() > 0 {
        let rest = pairs.drop_last().filter(is_of(swapchain));
        lemma_fifo_after(fifo, pairs.drop_last(), swapchain);
        if is_of(swapchain)(pairs.last()) {
            assert(kept == rest.push(pairs.last()));
            assert(fifo + kept.map_values(f) =~= (fifo + rest.map_values(f)).push(
                pairs.last().1,
            ));
        }
    } else {
        assert(fifo + kept.map_values(f) =~= fifo);
    }
}

} // verus!
