//! The submissions of one queue, grouped by the present that they belong to.

use std::collections::{HashMap, VecDeque};
use vstd::prelude::*;
use vstd::std_specs::hash::*;
use crate::submission_span;
use crate::submission_span::{extend_or_init, SubmissionSpan};

verus! {

/// How many submissions with a present id are remembered.
pub const MAX_TRACKED_PRESENTS: usize = 50;

pub struct LowLatency2QueueStrategy<H> {
    pub submissions: HashMap<u64, SubmissionSpan<H>>,
    /// The present ids of the recent submissions, oldest first.
    pub stale_present_ids: VecDeque<u64>,
    pub is_out_of_band: bool,
}

/// The span of a present id, where there is one.
pub open spec fn span_at<H>(m: Map<u64, SubmissionSpan<H>>, id: u64) -> Option<SubmissionSpan<H>> {
    if m.contains_key(id) {
        Some(m[id])
    } else {
        None
    }
}

/// The spans with one more submission among them.
pub open spec fn with_submission<H>(m: Map<u64, SubmissionSpan<H>>, id: u64, handle: H) -> Map<
    u64,
    SubmissionSpan<H>,
> {
    m.insert(id, submission_span::extended(span_at(m, id), handle))
}

/// The spans of a queue by present id, and the ids of its recent submissions.
#[verifier::ext_equal]
pub struct QueueModel<H> {
    pub submissions: Map<u64, SubmissionSpan<H>>,
    pub recent: Seq<u64>,
}

impl<H> QueueModel<H> {
    /// With one more submission. Beyond [`MAX_TRACKED_PRESENTS`] of those with
    /// a present id, the present of the oldest one is given up.
    pub open spec fn submitted(self, present_id: u64, handle: H) -> QueueModel<H> {
        let added = with_submission(self.submissions, present_id, handle);
        let ids = self.recent.push(present_id);
        if present_id == 0 {
            QueueModel { submissions: added, recent: self.recent }
        } else if ids.len() > MAX_TRACKED_PRESENTS {
            QueueModel { submissions: added.remove(ids[0]), recent: ids.drop_first() }
        } else {
            QueueModel { submissions: added, recent: ids }
        }
    }
}

impl<H> LowLatency2QueueStrategy<H> {
    /// Every present id with a span is a recent one, and not too many are.
    pub open spec fn wf(self) -> bool {
        &&& self.stale_present_ids@.len() <= MAX_TRACKED_PRESENTS
        &&& forall|id: u64|
            #![trigger self.submissions@.contains_key(id)]
            self.submissions@.contains_key(id) && id != 0 ==> self.stale_present_ids@.contains(id)
    }

    /// What the queue tracks.
    pub open spec fn model(self) -> QueueModel<H> {
        QueueModel { submissions: self.submissions@, recent: self.stale_present_ids@ }
    }

    pub fn new() -> (r: Self)
        ensures
            r.wf(),
            r.submissions@ == Map::<u64, SubmissionSpan<H>>::empty(),
            r.stale_present_ids@ == Seq::<u64>::empty(),
            !r.is_out_of_band,
    {
        LowLatency2QueueStrategy {
            submissions: HashMap::new(),
            stale_present_ids: VecDeque::new(),
            is_out_of_band: false,
        }
    }

    /// Takes the span of a present id out.
    pub fn take_by_present_id(&mut self, present_id: u64) -> (r: Option<SubmissionSpan<H>>)
        requires
            old(self).wf(),
        ensures
            final(self).wf(),
            r == span_at(old(self).submissions@, present_id),
            final(self).submissions@ == old(self).submissions@.remove(present_id),
            final(self).stale_present_ids == old(self).stale_present_ids,
            final(self).is_out_of_band == old(self).is_out_of_band,
    {
        broadcast use group_hash_axioms;

        let r = self.submissions.remove(&present_id);
        proof {
            assert(self.submissions@ =~= old(self).submissions@.remove(present_id));
        }
        r
    }

    pub fn mark_out_of_band(&mut self)
        requires
            old(self).wf(),
        ensures
            final(self).wf(),
            final(self).is_out_of_band,
            final(self).submissions == old(self).submissions,
            final(self).stale_present_ids == old(self).stale_present_ids,
    {
        self.is_out_of_band = true;
    }

    /// Tracks a submission under its present id; 0 stands for none.
    pub fn notify_submit(&mut self, present_id: u64, handle: H)
        requires
            old(self).wf(),
        ensures
            final(self).wf(),
            final(self).model() == old(self).model().submitted(present_id, handle),
            final(self).is_out_of_band == old(self).is_out_of_band,
    {
        broadcast use group_hash_axioms;

        let ghost before = *self;
        let ghost added = with_submission(before.submissions@, present_id, handle);
        let mut slot = self.submissions.remove(&present_id);
        proof {
            assert(slot == span_at(before.submissions@, present_id));
        }
        extend_or_init(&mut slot, handle);
        if let Some(span) = slot {
            self.submissions.insert(present_id, span);
        }
        proof {
            assert(self.submissions@ =~= added);
        }
        if present_id == 0 {
            return;
        }
        let ghost ids = before.stale_present_ids@.push(present_id);
        self.stale_present_ids.push_back(present_id);
        if self.stale_present_ids.len() > MAX_TRACKED_PRESENTS {
            if let Some(oldest) = self.stale_present_ids.pop_front() {
                self.submissions.remove(&oldest);
                proof {
                    assert(oldest == ids[0]);
                    assert(self.submissions@ =~= added.remove(oldest));
                    assert(self.stale_present_ids@ =~= ids.drop_first());
                }
            }
        }
        proof {
            assert forall|id: u64| #[trigger] self.submissions@.contains_key(id) && id != 0 implies
                self.stale_present_ids@.contains(id) by {
                let i = if id == present_id {
                    ids.len() - 1
                } else {
                    assert(before.submissions@.contains_key(id));
                    choose|i: int|
                        0 <= i < before.stale_present_ids@.len() && before.stale_present_ids@[i]
                            == id
                };
                assert(ids[i] == id);
                if ids.len() > MAX_TRACKED_PRESENTS {
                    assert(i > 0);
                    assert(self.stale_present_ids@[i - 1] == id);
                } else {
                    assert(self.stale_present_ids@[i] == id);
                }
            }
        }
    }
}

impl<H> Default for LowLatency2QueueStrategy<H> {
    fn default() -> (r: Self)
        ensures
            r.wf(),
            r.submissions@ == Map::<u64, SubmissionSpan<H>>::empty(),
            r.stale_present_ids@ == Seq::<u64>::empty(),
            !r.is_out_of_band,
    {
        LowLatency2QueueStrategy::new()
    }
}

/// However many submissions come, the presents with a span stay bounded: the
/// recent ids, and the span of the submissions without one.
pub proof fn law_tracking_is_bounded<H>(q: LowLatency2QueueStrategy<H>)
    requires
        q.wf(),
    ensures
        q.submissions@.dom().subset_of(q.stale_present_ids@.to_set().insert(0)),
        q.stale_present_ids@.to_set().insert(0).len() <= MAX_TRACKED_PRESENTS + 1,
        q.submissions@.dom().len() <= MAX_TRACKED_PRESENTS + 1,
{
    let ids = q.stale_present_ids@;
    assert forall|id: u64| q.submissions@.dom().contains(id) implies ids.to_set().insert(
        0,
    ).contains(id) by {
        if id != 0 {
            assert(q.submissions@.contains_key(id));
            assert(ids.contains(id));
        }
    }
    ids.lemma_cardinality_of_set();
    vstd::seq_lib::seq_to_set_is_finite(ids);
    vstd::set_lib::lemma_len_subset(q.submissions@.dom(), ids.to_set().insert(0));
}

/// A submission is tracked under its present: its handle is the last of that
/// present's span, and the first too where the present is new. Every other
/// present keeps what it had. Only behind 50 submissions with a present id is
/// something given up, and it is the present of the oldest of them.
pub proof fn law_submission_is_tracked<H>(
    q: &mut LowLatency2QueueStrategy<H>,
    present_id: u64,
    handle: H,
    id: u64,
)
    requires
        old(q).wf(),
        call_ensures(LowLatency2QueueStrategy::<H>::notify_submit, (q, present_id, handle), ()),
    ensures
        final(q).is_out_of_band == old(q).is_out_of_band,
        ({
            let was = old(q).submissions@;
            let now = final(q).submissions@;
            let full = present_id != 0 && old(q).stale_present_ids@.len() == 50;
            let given_up = full && old(q).stale_present_ids@[0] == id;
            &&& given_up ==> !now.contains_key(id)
            &&& !given_up && id != present_id ==> {
                &&& now.contains_key(id) == was.contains_key(id)
                &&& was.contains_key(id) ==> now[id] == was[id]
            }
            &&& !given_up && id == present_id ==> {
                &&& now.contains_key(id)
                &&& now[id].last() == handle
                &&& now[id].tail is Some <==> was.contains_key(id)
                &&& now[id].head == (if was.contains_key(id) {
                    was[id].head
                } else {
                    handle
                })
            }
        }),
        present_id == 0 ==> final(q).stale_present_ids@ == old(q).stale_present_ids@,
        present_id != 0 ==> final(q).stale_present_ids@.last() == present_id,
        final(q).stale_present_ids@.len() <= 50,
{
}

/// The ids of the recent submissions are those of the newest 50, in order.
pub proof fn law_recent_ids_are_the_newest<H>(
    q: &mut LowLatency2QueueStrategy<H>,
    present_id: u64,
    handle: H,
)
    requires
        old(q).wf(),
        present_id != 0,
        call_ensures(LowLatency2QueueStrategy::<H>::notify_submit, (q, present_id, handle), ()),
    ensures
        final(q).stale_present_ids@.is_suffix_of(old(q).stale_present_ids@.push(present_id)),
        final(q).stale_present_ids@.len() == old(q).stale_present_ids@.len() + 1
            || final(q).stale_present_ids@.len() == 50,
{
}

/// What was tracked for a present is taken out once, and nothing else is.
pub proof fn law_present_is_taken_once<H>(
    a: &mut LowLatency2QueueStrategy<H>,
    b: &mut LowLatency2QueueStrategy<H>,
    present_id: u64,
    first: Option<SubmissionSpan<H>>,
    second: Option<SubmissionSpan<H>>,
    id: u64,
)
    requires
        old(a).wf(),
        call_ensures(LowLatency2QueueStrategy::<H>::take_by_present_id, (a, present_id), first),
        *old(b) == *final(a),
        call_ensures(LowLatency2QueueStrategy::<H>::take_by_present_id, (b, present_id), second),
    ensures
        first is Some <==> old(a).submissions@.contains_key(present_id),
        first matches Some(s) ==> s == old(a).submissions@[present_id],
        second is None,
        id != present_id ==> {
            &&& final(b).submissions@.contains_key(id) == old(a).submissions@.contains_key(id)
            &&& old(a).submissions@.contains_key(id)
                ==> final(b).submissions@[id] == old(a).submissions@[id]
        },
        !final(a).submissions@.contains_key(present_id),
        final(b).is_out_of_band == old(a).is_out_of_band,
{
}

} // verus!
