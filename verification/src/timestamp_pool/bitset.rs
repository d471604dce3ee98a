//! The free-pair allocator of one chunk of timestamp queries.

use vstd::prelude::*;
use vstd::std_specs::bits;

verus! {

/// Queries per chunk.
pub const CHUNK_SIZE: u32 = 512;

/// Words that track a chunk.
pub const BITSET_WORDS: usize = 8;

/// Free-pair allocator. Each pair of timestamp queries occupies the indices
/// `{2k, 2k+1}` and is represented by its even index `2k`.
pub struct Bitset {
    /// Bit `i` set means that the pair of index `2*i` is free.
    pub words: [u64; BITSET_WORDS],
    /// The word to search first.
    pub hint: usize,
}

pub open spec fn bit(w: u64, b: int) -> bool {
    (w >> b as u64) & 1u64 == 1u64
}

impl Bitset {
    /// Whether pair `p`, of the query indices `2p` and `2p + 1`, is free.
    pub open spec fn free(self, p: int) -> bool {
        0 <= p < 512 && bit(self.words@[p / 64], p % 64)
    }

    /// The free pairs.
    pub open spec fn free_set(self) -> Set<int> {
        Set::new(|p: int| self.free(p))
    }

    /// The hint is the place of a word, and no word before it has a free pair.
    pub open spec fn wf(self) -> bool {
        &&& self.hint < BITSET_WORDS
        &&& forall|w: int| 0 <= w < self.hint ==> self.words@[w] == 0
    }

    /// Only pairs that a chunk has are free.
    pub open spec fn within_chunk(self) -> bool {
        forall|p: int| self.free(p) ==> p < CHUNK_SIZE / 2
    }

    /// Whether `p` is the lowest free pair, which is handed out next.
    pub open spec fn is_next(self, p: int) -> bool {
        &&& self.free(p)
        &&& forall|q: int| #[trigger] self.free(q) ==> p <= q
    }

    /// All pairs of a chunk.
    pub fn full() -> (r: Self)
        ensures
            r.free_set() == Set::new(|p: int| 0 <= p < CHUNK_SIZE / 2),
            r.hint == 0,
            r.wf(),
            r.within_chunk(),
    {
        let all: u64 = 0xFFFF_FFFF_FFFF_FFFF;
        let r = Bitset { words: [all, all, all, all, 0, 0, 0, 0], hint: 0 };
        proof {
            assert forall|p: int| r.free(p) == (0 <= p < CHUNK_SIZE / 2) by {
                if 0 <= p < 512 {
                    let b = (p % 64) as u64;
                    assert(b < 64
                        ==> (0xFFFF_FFFF_FFFF_FFFFu64 >> b) & 1u64 == 1u64) by (bit_vector);
                    assert((0u64 >> b) & 1u64 == 0u64) by (bit_vector);
                    assert(p < 256 ==> r.words@[p / 64] == all);
                    assert(p >= 256 ==> r.words@[p / 64] == 0);
                }
            }
            assert(r.free_set() =~= Set::new(|p: int| 0 <= p < CHUNK_SIZE / 2));
        }
        r
    }

    /// Takes the lowest free pair and gives its even query index.
    pub fn acquire_pair(&mut self) -> (r: Option<u32>)
        requires
            old(self).wf(),
        ensures
            final(self).wf(),
            old(self).within_chunk() ==> final(self).within_chunk(),
            match r {
                Some(q) => {
                    let p = q as int / 2;
                    &&& q % 2 == 0
                    &&& old(self).is_next(p)
                    &&& final(self).free_set() == old(self).free_set().remove(p)
                    &&& final(self).hint == p / 64
                },
                None => {
                    &&& old(self).free_set() == Set::<int>::empty()
                    &&& *final(self) == *old(self)
                },
            },
    {
        let start: usize = if self.hint < BITSET_WORDS {
            self.hint
        } else {
            BITSET_WORDS - 1
        };
        let mut offset: usize = 0;
        while offset < BITSET_WORDS
            invariant
                offset <= BITSET_WORDS,
                start == self.hint,
                self.wf(),
                *self == *old(self),
                forall|j: int| 0 <= j < offset ==> self.words@[#[trigger] ((start + j) % 8)] == 0,
            decreases BITSET_WORDS - offset,
        {
            let idx: usize = (start + offset) % BITSET_WORDS;
            let word: u64 = self.words[idx];
            if word != 0 {
                let bit_index: u32 = word.trailing_zeros();
                let rest: u64 = word & !(1u64 << bit_index);
                let pair_index: u32 = idx as u32 * 64 + bit_index;
                proof {
                    bits::axiom_u64_trailing_zeros(word);
                    lemma_take(*self, idx as int, bit_index as int);
                    assert(start + offset < 8) by {
                        if start + offset >= 8 {
                            assert(idx == start + offset - 8);
                            assert(self.words@[idx as int] == 0);
                        }
                    }
                    assert forall|w: int| 0 <= w < idx implies self.words@[w] == 0 by {
                        if w >= start {
                            let j = w - start;
                            assert((start + j) % 8 == w);
                        }
                    }
                    lemma_lowest(*self, idx as int, bit_index as int);
                }
                self.words[idx] = rest;
                self.hint = idx;
                proof {
                    let words = old(self).words@.update(idx as int, rest);
                    assert(self.words@ =~= words);
                    assert forall|p: int| self.free(p) == (old(self).free(p) && p
                        != pair_index as int) by {
                        if 0 <= p < 512 {
                            assert(rest == word & !(1u64 << (bit_index as int) as u32));
                            assert(word == old(self).words@[idx as int]);
                            assert(pair_index as int == idx as int * 64 + bit_index as int);
                            assert(bit(words[p / 64], p % 64) == bit(self.words@[p / 64], p % 64));
                        }
                    }
                    assert(self.free_set() =~= old(self).free_set().remove(pair_index as int));
                }
                return Some(pair_index * 2);
            }
            offset += 1;
        }
        proof {
            assert forall|p: int| !self.free(p) by {
                if 0 <= p < 512 {
                    let j = (p / 64 - start + 8) % 8;
                    assert((start + j) % 8 == p / 64);
                    let b = (p % 64) as u64;
                    assert((0u64 >> b) & 1u64 == 0u64) by (bit_vector);
                }
            }
            assert(self.free_set() =~= Set::<int>::empty());
        }
        None
    }

    /// Gives a pair back.
    pub fn release_pair(&mut self, query_index: u32)
        requires
            old(self).wf(),
            query_index < 1024,
        ensures
            final(self).wf(),
            old(self).within_chunk() && query_index < CHUNK_SIZE ==> final(self).within_chunk(),
            final(self).free_set() == old(self).free_set().insert(query_index as int / 2),
            final(self).hint == (if old(self).hint < query_index / 128 {
                old(self).hint as int
            } else {
                query_index as int / 128
            }),
    {
        let pair: usize = (query_index / 2) as usize;
        let idx: usize = pair / 64;
        let bit_index: u32 = (pair % 64) as u32;
        proof {
            lemma_give(*self, idx as int, bit_index as int);
        }
        self.words[idx] = self.words[idx] | (1u64 << bit_index);
        if idx < self.hint {
            self.hint = idx;
        }
        proof {
            assert(idx * 64 + bit_index == pair);
            assert(self.free_set() =~= old(self).free_set().insert(pair as int));
            if old(self).within_chunk() && query_index < CHUNK_SIZE {
                assert forall|p: int| self.free(p) implies p < CHUNK_SIZE / 2 by {
                    assert(self.free_set().contains(p));
                }
            }
        }
    }

    /// Whether a pair can be taken.
    pub fn any_free(&self) -> (r: bool)
        ensures
            r == (self.free_set() != Set::<int>::empty()),
    {
        let mut i: usize = 0;
        while i < BITSET_WORDS
            invariant
                i <= BITSET_WORDS,
                forall|j: int| 0 <= j < i ==> self.words@[j] == 0,
            decreases BITSET_WORDS - i,
        {
            if self.words[i] != 0 {
                proof {
                    let w = self.words@[i as int];
                    bits::axiom_u64_trailing_zeros(w);
                    let p = i as int * 64 + bits::u64_trailing_zeros(w) as int;
                    assert(p / 64 == i as int && p % 64 == bits::u64_trailing_zeros(w) as int);
                    assert(self.free_set().contains(p));
                }
                return true;
            }
            i += 1;
        }
        proof {
            assert forall|p: int| !self.free(p) by {
                if 0 <= p < 512 {
                    let b = (p % 64) as u64;
                    assert((0u64 >> b) & 1u64 == 0u64) by (bit_vector);
                }
            }
            assert(self.free_set() =~= Set::<int>::empty());
        }
        false
    }
}

/// Clearing the lowest bit of a word takes exactly that pair.
proof fn lemma_take(s: Bitset, idx: int, b: int)
    requires
        0 <= idx < 8,
        0 <= b < 64,
    ensures
        ({
            let words = s.words@.update(idx, s.words@[idx] & !(1u64 << b as u32));
            forall|p: int|
                0 <= p < 512 ==> #[trigger] bit(words[p / 64], p % 64) == (bit(
                    s.words@[p / 64],
                    p % 64,
                ) && p != idx * 64 + b)
        }),
{
    let words = s.words@.update(idx, s.words@[idx] & !(1u64 << b as u32));
    let w = s.words@[idx];
    assert forall|p: int| 0 <= p < 512 implies #[trigger] bit(words[p / 64], p % 64) == (bit(
        s.words@[p / 64],
        p % 64,
    ) && p != idx * 64 + b) by {
        if p / 64 == idx {
            let c = (p % 64) as u64;
            let d = b as u32;
            assert(c < 64 && d < 64 ==> (((w & !(1u64 << d)) >> c) & 1u64 == 1u64) == ((w >> c)
                & 1u64 == 1u64 && c != d)) by (bit_vector);
        }
    }
}

/// Setting a bit gives exactly that pair back.
proof fn lemma_give(s: Bitset, idx: int, b: int)
    requires
        0 <= idx < 8,
        0 <= b < 64,
    ensures
        ({
            let words = s.words@.update(idx, s.words@[idx] | (1u64 << b as u32));
            forall|p: int|
                0 <= p < 512 ==> #[trigger] bit(words[p / 64], p % 64) == (bit(
                    s.words@[p / 64],
                    p % 64,
                ) || p == idx * 64 + b)
        }),
{
    let words = s.words@.update(idx, s.words@[idx] | (1u64 << b as u32));
    let w = s.words@[idx];
    assert forall|p: int| 0 <= p < 512 implies #[trigger] bit(words[p / 64], p % 64) == (bit(
        s.words@[p / 64],
        p % 64,
    ) || p == idx * 64 + b) by {
        if p / 64 == idx {
            let c = (p % 64) as u64;
            let d = b as u32;
            assert(c < 64 && d < 64 ==> (((w | (1u64 << d)) >> c) & 1u64 == 1u64) == ((w >> c)
                & 1u64 == 1u64 || c == d)) by (bit_vector);
        }
    }
}

/// The lowest bit of the first word that is not zero is the lowest free pair.
proof fn lemma_lowest(s: Bitset, idx: int, b: int)
    requires
        0 <= idx < 8,
        0 <= b < 64,
        bit(s.words@[idx], b),
        forall|c: int| 0 <= c < b ==> !#[trigger] bit(s.words@[idx], c),
        forall|w: int| 0 <= w < idx ==> s.words@[w] == 0,
    ensures
        s.is_next(idx * 64 + b),
{
    let p = idx * 64 + b;
    assert(p / 64 == idx && p % 64 == b);
    assert forall|q: int| #[trigger] s.free(q) implies p <= q by {
        if q < p {
            let c = (q % 64) as u64;
            assert((0u64 >> c) & 1u64 == 0u64) by (bit_vector);
            if q / 64 < idx {
                assert(s.words@[q / 64] == 0);
            } else {
                assert(!bit(s.words@[idx], q % 64));
            }
        }
    }
}

/// The pair that comes next is unique: the allocator leaves nothing to choose.
pub proof fn law_next_pair_is_unique(s: Bitset, p: int, q: int)
    requires
        s.is_next(p),
        s.is_next(q),
    ensures
        p == q,
{
}

/// A pair is handed out by its even query. It was free and is not free any
/// more, no pair below it was free, and every other pair is as it was. Nothing
/// is handed out only where nothing is free.
pub proof fn law_lowest_pair_is_taken(s: &mut Bitset, r: Option<u32>, p: int)
    requires
        old(s).wf(),
        old(s).within_chunk(),
        call_ensures(Bitset::acquire_pair, (s,), r),
    ensures
        r is None ==> !old(s).free(p) && !final(s).free(p),
        r matches Some(q) ==> {
            &&& q % 2 == 0
            &&& q + 1 < 512
            &&& old(s).free(q as int / 2)
            &&& final(s).free(p) == (old(s).free(p) && 2 * p != q)
            &&& old(s).free(p) ==> q <= 2 * p
        },
{
    assert(old(s).free(p) == old(s).free_set().contains(p));
    assert(final(s).free(p) == final(s).free_set().contains(p));
}

/// A pair that is given back is free, by either of its queries, and every
/// other pair is as it was.
pub proof fn law_pair_is_given_back(s: &mut Bitset, query_index: u32, p: int)
    requires
        old(s).wf(),
        query_index < 512,
        call_ensures(Bitset::release_pair, (s, query_index), ()),
    ensures
        final(s).free(p) == (old(s).free(p) || 2 * p == query_index || 2 * p + 1 == query_index),
{
    assert(old(s).free(p) == old(s).free_set().contains(p));
    assert(final(s).free(p) == final(s).free_set().contains(p));
}

/// A pair that has just been taken and is given back is the next to be taken
/// again.
pub proof fn law_given_back_comes_next(
    a: &mut Bitset,
    first: Option<u32>,
    b: &mut Bitset,
    c: &mut Bitset,
    second: Option<u32>,
)
    requires
        old(a).wf(),
        old(a).within_chunk(),
        call_ensures(Bitset::acquire_pair, (a,), first),
        first is Some,
        *old(b) == *final(a),
        call_ensures(Bitset::release_pair, (b, first->0), ()),
        *old(c) == *final(b),
        call_ensures(Bitset::acquire_pair, (c,), second),
    ensures
        second == first,
{
    let p = first->0 as int / 2;
    assert(final(b).free_set() =~= old(a).free_set());
    assert forall|q: int| old(c).free(q) == old(a).free(q) by {
        assert(old(c).free(q) == old(c).free_set().contains(q));
        assert(old(a).free(q) == old(a).free_set().contains(q));
    }
    assert(old(a).free(p));
    assert(old(c).free_set().contains(p));
    if let Some(q) = second {
        assert(old(c).is_next(q as int / 2));
        assert(old(a).is_next(q as int / 2));
        law_next_pair_is_unique(*old(a), p, q as int / 2);
    }
}

/// A fresh chunk has all of its 256 pairs free and no more.
pub proof fn law_fresh_chunk_is_free(r: Bitset, p: int)
    requires
        call_ensures(Bitset::full, (), r),
    ensures
        r.free(p) == (0 <= p < 256),
{
    assert(r.free(p) == r.free_set().contains(p));
}

/// The allocator says that it has a pair exactly where it hands one out.
pub proof fn law_any_free_tells_of_the_next(
    s: &mut Bitset,
    any: bool,
    r: Option<u32>,
)
    requires
        old(s).wf(),
        call_ensures(Bitset::any_free, (&*old(s),), any),
        call_ensures(Bitset::acquire_pair, (s,), r),
    ensures
        any == r is Some,
{
    if let Some(q) = r {
        assert(old(s).free_set().contains(q as int / 2));
    }
}

} // verus!
