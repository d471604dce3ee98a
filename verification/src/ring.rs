//! Bounded first-in first-out buffers that drop their oldest item when full.

use std::collections::VecDeque;
use vstd::prelude::*;

verus! {

/// `s` with `x` behind it, where the oldest item has given way to keep the
/// length within `cap`.
pub open spec fn pushed<T>(s: Seq<T>, x: T, cap: nat) -> Seq<T> {
    if s.len() >= cap {
        s.drop_first().push(x)
    } else {
        s.push(x)
    }
}

/// Appends `x`, after dropping the oldest item of a full buffer.
pub fn push_bounded<T>(ring: &mut VecDeque<T>, x: T, cap: usize)
    requires
        cap > 0,
    ensures
        final(ring)@ == pushed(old(ring)@, x, cap as nat),
{
    let ghost before = ring@;
    if ring.len() >= cap {
        let _ = ring.pop_front();
        proof {
            assert(before.subrange(1, before.len() as int) =~= before.drop_first());
        }
    }
    ring.push_back(x);
}

/// Replaces the item at `i`.
pub fn set_at<T>(ring: &mut VecDeque<T>, i: usize, x: T)
    requires
        i < old(ring)@.len(),
    ensures
        final(ring)@ == old(ring)@.update(i as int, x),
{
    let ghost before = ring@;
    let _ = ring.remove(i);
    ring.insert(i, x);
    proof {
        assert(ring@ =~= before.update(i as int, x));
    }
}

/// What a buffer holds after all of `items` went into it, one by one.
pub open spec fn after_all<T>(items: Seq<T>, cap: nat) -> Seq<T>
    decreases items.len(),
{
    if items.len() == 0 {
        Seq::empty()
    } else {
        pushed(after_all(items.drop_last(), cap), items.last(), cap)
    }
}

/// A bounded buffer holds exactly the newest items, in the order in which
/// they came, and as many of them as fit.
pub proof fn law_keeps_the_newest<T>(items: Seq<T>, cap: nat)
    requires
        cap > 0,
    ensures
        after_all(items, cap) == (if items.len() <= cap {
            items
        } else {
            items.skip(items.len() - cap)
        }),
    decreases items.len(),
{
    if items.len() > 0 {
        law_keeps_the_newest(items.drop_last(), cap);
        let before = items.drop_last();
        if items.len() <= cap {
            assert(before.push(items.last()) =~= items);
        } else {
            let kept = after_all(before, cap);
            assert(kept.drop_first().push(items.last()) =~= items.skip(items.len() - cap));
        }
    } else {
        assert(items =~= Seq::<T>::empty());
    }
}

/// One more item goes behind the others, and only a full buffer drops one,
/// which is the oldest.
pub proof fn law_full_buffer_drops_its_oldest<T>(ring: &mut VecDeque<T>, x: T, cap: usize)
    requires
        cap > 0,
        old(ring)@.len() <= cap,
        call_ensures(push_bounded::<T>, (ring, x, cap), ()),
    ensures
        final(ring)@.last() == x,
        final(ring)@.len() <= cap,
        old(ring)@.len() < cap ==> final(ring)@.drop_last() == old(ring)@,
        old(ring)@.len() == cap ==> seq![old(ring)@[0]] + final(ring)@.drop_last() == old(ring)@,
{
    if old(ring)@.len() == cap {
        assert(seq![old(ring)@[0]] + final(ring)@.drop_last() =~= old(ring)@);
    } else {
        assert(final(ring)@.drop_last() =~= old(ring)@);
    }
}

/// A replaced item is the only one that changes.
pub proof fn law_replacing_changes_one<T>(ring: &mut VecDeque<T>, i: usize, x: T, j: int)
    requires
        i < old(ring)@.len(),
        0 <= j < old(ring)@.len(),
        call_ensures(set_at::<T>, (ring, i, x), ()),
    ensures
        final(ring)@.len() == old(ring)@.len(),
        j == i ==> final(ring)@[j] == x,
        j != i ==> final(ring)@[j] == old(ring)@[j],
{
}

} // verus!
