//! Aggregates over the records of a window.

use vstd::prelude::*;
use vstd::relations;
use vstd::seq_lib;
use crate::hud::state;
use crate::hud::state::Record;

verus! {

/// Aggregates of a window.
#[derive(Debug, Clone, Copy, PartialEq, Eq, Structural)]
pub struct LiveStats {
    /// The frames in the window. Divided by its length they give the rate.
    pub frames: usize,
    /// The median, the 99th percentile and the maximum of the latencies, in
    /// microseconds.
    pub p50_us: u64,
    pub p99_us: u64,
    pub max_us: u64,
    /// How many latencies there were. Frames without one report 0 and do not
    /// count.
    pub samples: usize,
}

impl LiveStats {
    pub open spec fn zero() -> LiveStats {
        LiveStats { frames: 0, p50_us: 0, p99_us: 0, max_us: 0, samples: 0 }
    }
}

impl Default for LiveStats {
    fn default() -> (r: Self)
        ensures
            r == LiveStats::zero(),
    {
        LiveStats { frames: 0, p50_us: 0, p99_us: 0, max_us: 0, samples: 0 }
    }
}

/// The latencies of the records that have one, in order.
pub open spec fn samples_of(s: Seq<Record>) -> Seq<u64>
    decreases s.len(),
{
    if s.len() == 0 {
        Seq::empty()
    } else if s.last().latency_us > 0 {
        samples_of(s.drop_last()).push(s.last().latency_us)
    } else {
        samples_of(s.drop_last())
    }
}

/// The same numbers, in ascending order.
pub open spec fn ascending(s: Seq<u64>) -> Seq<u64> {
    s.sort_by(|a: u64, b: u64| a <= b)
}

/// A percentile: of `n` sorted values, the one nearest to the given share of
/// the way from the first to the last.
#[derive(Debug, Clone, Copy, PartialEq, Eq, Structural)]
pub enum Percentile {
    P50,
    P99,
}

/// The hundredths of a percentile.
pub open spec fn hundredths(p: Percentile) -> int {
    match p {
        Percentile::P50 => 50,
        Percentile::P99 => 99,
    }
}

/// The place of a percentile among `n` sorted values: the share of `n - 1`,
/// rounded to the nearest, and up where two are as near.
pub open spec fn rank(p: Percentile, n: nat) -> int {
    (hundredths(p) * (n - 1) + 50) / 100
}

/// The percentile of some numbers; 0 where there are none.
pub open spec fn percentile_in(v: Seq<u64>, p: Percentile) -> u64 {
    if v.len() == 0 {
        0
    } else {
        ascending(v)[rank(p, v.len())]
    }
}

/// The percentile of the latencies of some records; 0 where there are none.
pub open spec fn percentile_of(s: Seq<Record>, p: Percentile) -> u64 {
    percentile_in(samples_of(s), p)
}

/// Calls `<[u64]>::sort_unstable`: the same numbers, in ascending order.
#[verifier::external_body]
fn sort_numbers(v: &mut Vec<u64>)
    ensures
        final(v)@.to_multiset() == old(v)@.to_multiset(),
        forall|i: int, j: int| 0 <= i <= j < final(v)@.len() ==> final(v)@[i] <= final(v)@[j],
{
    v.sort_unstable();
}

fn sort_ascending(v: &mut Vec<u64>)
    ensures
        final(v)@ == ascending(old(v)@),
        final(v)@.len() == old(v)@.len(),
{
    let ghost before = v@;
    sort_numbers(v);
    proof {
        let leq = |a: u64, b: u64| a <= b;
        assert(relations::total_ordering(leq));
        before.lemma_sort_by_ensures(leq);
        assert(relations::sorted_by(v@, leq));
        seq_lib::lemma_sorted_unique(v@, before.sort_by(leq), leq);
        broadcast use vstd::seq_lib::group_to_multiset_ensures;

        assert(v@.len() == v@.to_multiset().len());
        assert(before.len() == before.to_multiset().len());
    }
}

fn rank_of(p: Percentile, n: usize) -> (r: usize)
    requires
        n > 0,
    ensures
        r == rank(p, n as nat),
        r < n,
{
    let m: usize = n - 1;
    match p {
        Percentile::P50 => {
            let r: usize = m / 2 + m % 2;
            proof {
                assert(r == (50 * m + 50) / 100);
            }
            r
        },
        Percentile::P99 => {
            let r: usize = 99 * (m / 100) + (99 * (m % 100) + 50) / 100;
            proof {
                assert(r == (99 * m + 50) / 100);
            }
            r
        },
    }
}

/// Collects the latencies of some records.
pub fn latency_samples(records: &[Record]) -> (r: Vec<u64>)
    ensures
        r@ == samples_of(records@),
{
    let mut out: Vec<u64> = Vec::new();
    let mut i: usize = 0;
    while i < records.len()
        invariant
            i <= records@.len(),
            out@ == samples_of(records@.take(i as int)),
        decreases records@.len() - i,
    {
        proof {
            assert(records@.take(i + 1).last() == records@[i as int]);
            assert(records@.take(i + 1).drop_last() =~= records@.take(i as int));
        }
        if records[i].latency_us > 0 {
            out.push(records[i].latency_us);
        }
        i += 1;
    }
    proof {
        assert(records@.take(i as int) =~= records@);
    }
    out
}

/// The percentile of some numbers; 0 where there are none.
pub fn percentile(samples: Vec<u64>, p: Percentile) -> (r: u64)
    ensures
        r == percentile_in(samples@, p),
{
    let mut v = samples;
    let n: usize = v.len();
    if n == 0 {
        return 0;
    }
    sort_ascending(&mut v);
    let i: usize = rank_of(p, n);
    v[i]
}

/// The percentile of the latencies of a bin; 0 where it has none.
pub fn bin_percentile(records: &[Record], p: Percentile) -> (r: u64)
    ensures
        r == percentile_of(records@, p),
{
    let v = latency_samples(records);
    percentile(v, p)
}

/// The largest of some latencies; 0 where there are none.
pub open spec fn largest_of(s: Seq<Record>) -> u64
    decreases s.len(),
{
    if s.len() == 0 {
        0
    } else {
        let rest = largest_of(s.drop_last());
        if s.last().latency_us > rest {
            s.last().latency_us
        } else {
            rest
        }
    }
}

/// The largest latency of a bin.
pub fn bin_max(records: &[Record]) -> (r: u64)
    ensures
        r == largest_of(records@),
{
    let mut best: u64 = 0;
    let mut i: usize = 0;
    while i < records.len()
        invariant
            i <= records@.len(),
            best == largest_of(records@.take(i as int)),
        decreases records@.len() - i,
    {
        proof {
            assert(records@.take(i + 1).last() == records@[i as int]);
            assert(records@.take(i + 1).drop_last() =~= records@.take(i as int));
        }
        if records[i].latency_us > best {
            best = records[i].latency_us;
        }
        i += 1;
    }
    proof {
        assert(records@.take(i as int) =~= records@);
    }
    best
}

fn window_of(records: &[Record], cutoff_ns: u64) -> (r: Vec<Record>)
    ensures
        r@ == state::since(records@, cutoff_ns),
{
    let mut out: Vec<Record> = Vec::new();
    let mut i: usize = 0;
    while i < records.len()
        invariant
            i <= records@.len(),
            out@ == state::since(records@.take(i as int), cutoff_ns),
        decreases records@.len() - i,
    {
        proof {
            assert(records@.take(i + 1).last() == records@[i as int]);
            assert(records@.take(i + 1).drop_last() =~= records@.take(i as int));
        }
        if records[i].ts_ns >= cutoff_ns {
            out.push(records[i]);
        }
        i += 1;
    }
    proof {
        assert(records@.take(i as int) =~= records@);
    }
    out
}

/// The aggregates of the records in a window that ends at `now_ns`.
pub open spec fn stats_of(records: Seq<Record>, now_ns: u64, window_ns: u64) -> LiveStats {
    let w = state::since(records, state::before_by(now_ns, window_ns));
    let v = samples_of(w);
    if records.len() == 0 || window_ns == 0 || w.len() == 0 {
        LiveStats::zero()
    } else if v.len() == 0 {
        LiveStats { frames: w.len() as usize, ..LiveStats::zero() }
    } else {
        LiveStats {
            frames: w.len() as usize,
            p50_us: ascending(v)[rank(Percentile::P50, v.len())],
            p99_us: ascending(v)[rank(Percentile::P99, v.len())],
            max_us: ascending(v).last(),
            samples: v.len() as usize,
        }
    }
}

/// Computes the aggregates of a window that ends at `now_ns`.
pub fn live_stats(records: &[Record], now_ns: u64, window_ns: u64) -> (r: LiveStats)
    ensures
        r == stats_of(records@, now_ns, window_ns),
{
    if records.len() == 0 || window_ns == 0 {
        return LiveStats::default();
    }
    let cutoff: u64 = if now_ns >= window_ns {
        now_ns - window_ns
    } else {
        0
    };
    let window = window_of(records, cutoff);
    let frames: usize = window.len();
    if frames == 0 {
        return LiveStats::default();
    }
    let mut v = latency_samples(window.as_slice());
    let n: usize = v.len();
    if n == 0 {
        return LiveStats { frames, p50_us: 0, p99_us: 0, max_us: 0, samples: 0 };
    }
    sort_ascending(&mut v);
    let i50: usize = rank_of(Percentile::P50, n);
    let i99: usize = rank_of(Percentile::P99, n);
    LiveStats { frames, p50_us: v[i50], p99_us: v[i99], max_us: v[n - 1], samples: n }
}

/// One bin of a plot.
#[derive(Debug)]
pub struct Bin {
    /// The number of the bin, counted from the start of the clock.
    pub key: u64,
    /// Where the bin starts.
    pub start_ns: u64,
    /// The records that fell into the bin.
    pub records: Vec<Record>,
    /// How much of the bin has passed: all of it, unless it is the current
    /// one, so that a bin that is still filling does not look like a drop.
    pub width_ns: u64,
    /// Whether the bin is still filling.
    pub is_current: bool,
}

/// The records of a bin among those up to `now_ns`, from a moment on.
pub open spec fn members(
    s: Seq<Record>,
    cutoff_ns: u64,
    now_ns: u64,
    bin_ns: u64,
    key: u64,
) -> Seq<Record>
    decreases s.len(),
{
    if s.len() == 0 {
        Seq::empty()
    } else {
        let rest = members(s.drop_last(), cutoff_ns, now_ns, bin_ns, key);
        let r = s.last();
        if cutoff_ns <= r.ts_ns <= now_ns && r.ts_ns / bin_ns == key {
            rest.push(r)
        } else {
            rest
        }
    }
}

/// Whether a bin is what it should be among some records.
pub open spec fn is_bin(
    b: Bin,
    s: Seq<Record>,
    cutoff_ns: u64,
    now_ns: u64,
    bin_ns: u64,
) -> bool {
    &&& b.records@ == members(s, cutoff_ns, now_ns, bin_ns, b.key)
    &&& b.records@.len() > 0
    &&& b.start_ns == b.key * bin_ns
    &&& b.is_current == (b.key == now_ns / bin_ns)
    &&& b.width_ns == (if b.is_current {
        if now_ns - b.start_ns >= 1 {
            now_ns - b.start_ns
        } else {
            1
        }
    } else {
        bin_ns as int
    })
}

/// Whether bins are in the order of time, each of them once.
pub open spec fn in_order(bins: Seq<Bin>) -> bool {
    forall|i: int, j: int|
        0 <= i < j < bins.len() ==> (#[trigger] bins[i]).key < (#[trigger] bins[j]).key
}

/// Whether every record of the window has its bin.
pub open spec fn all_binned(
    bins: Seq<Bin>,
    s: Seq<Record>,
    cutoff_ns: u64,
    now_ns: u64,
    bin_ns: u64,
) -> bool {
    forall|k: int|
        0 <= k < s.len() && cutoff_ns <= (#[trigger] s[k]).ts_ns <= now_ns ==> has_key(
            bins,
            s[k].ts_ns / bin_ns,
        )
}

pub open spec fn has_key(bins: Seq<Bin>, key: u64) -> bool {
    exists|i: int| 0 <= i < bins.len() && (#[trigger] bins[i]).key == key
}

/// Sorts records into bins of `bin_ns` that are snapped to absolute time. A
/// record stays in its bin for good; only the bin's place relative to now
/// moves. Empty bins are left out.
pub fn bin_records(records: &[Record], now_ns: u64, window_ns: u64, bin_ns: u64) -> (r: Vec<Bin>)
    ensures
        bin_ns == 0 || now_ns == 0 ==> r@.len() == 0,
        bin_ns != 0 && now_ns != 0 ==> {
            let cutoff = state::before_by(now_ns, window_ns);
            &&& in_order(r@)
            &&& forall|i: int|
                0 <= i < r@.len() ==> is_bin(#[trigger] r@[i], records@, cutoff, now_ns, bin_ns)
            &&& all_binned(r@, records@, cutoff, now_ns, bin_ns)
        },
{
    let mut bins: Vec<Bin> = Vec::new();
    if bin_ns == 0 || records.len() == 0 || now_ns == 0 {
        return bins;
    }
    let cutoff: u64 = if now_ns >= window_ns {
        now_ns - window_ns
    } else {
        0
    };
    let mut i: usize = 0;
    while i < records.len()
        invariant
            bin_ns != 0,
            i <= records@.len(),
            in_order(bins@),
            forall|j: int|
                0 <= j < bins@.len() ==> is_bin(
                    #[trigger] bins@[j],
                    records@.take(i as int),
                    cutoff,
                    now_ns,
                    bin_ns,
                ),
            all_binned(bins@, records@.take(i as int), cutoff, now_ns, bin_ns),
        decreases records@.len() - i,
    {
        let rec: Record = records[i];
        let ghost seen = records@.take(i as int);
        proof {
            assert(records@.take(i + 1) =~= seen.push(rec));
        }
        if cutoff <= rec.ts_ns && rec.ts_ns <= now_ns {
            add_record(&mut bins, rec, Ghost(seen), cutoff, now_ns, bin_ns);
        } else {
            proof {
                lemma_skip(bins@, seen, rec, cutoff, now_ns, bin_ns);
            }
        }
        i += 1;
    }
    proof {
        assert(records@.take(i as int) =~= records@);
    }
    bins
}

/// Puts one record into its bin.
fn add_record(
    bins: &mut Vec<Bin>,
    rec: Record,
    Ghost(seen): Ghost<Seq<Record>>,
    cutoff_ns: u64,
    now_ns: u64,
    bin_ns: u64,
)
    requires
        bin_ns != 0,
        cutoff_ns <= rec.ts_ns <= now_ns,
        in_order(old(bins)@),
        forall|j: int|
            0 <= j < old(bins)@.len() ==> is_bin(
                #[trigger] old(bins)@[j],
                seen,
                cutoff_ns,
                now_ns,
                bin_ns,
            ),
        all_binned(old(bins)@, seen, cutoff_ns, now_ns, bin_ns),
    ensures
        in_order(final(bins)@),
        forall|j: int|
            0 <= j < final(bins)@.len() ==> is_bin(
                #[trigger] final(bins)@[j],
                seen.push(rec),
                cutoff_ns,
                now_ns,
                bin_ns,
            ),
        all_binned(final(bins)@, seen.push(rec), cutoff_ns, now_ns, bin_ns),
{
    let key: u64 = rec.ts_ns / bin_ns;
    let ghost before = bins@;
    let mut at: usize = bins.len();
    while at > 0 && bins[at - 1].key > key
        invariant
            at <= bins@.len(),
            bins@ == before,
            forall|j: int| at <= j < before.len() ==> (#[trigger] before[j]).key > key,
        decreases at,
    {
        at -= 1;
    }
    proof {
        assert(seen.push(rec).drop_last() =~= seen);
        assert(seen.push(rec).last() == rec);
        assert forall|k: u64| k != key implies #[trigger] members(
            seen.push(rec),
            cutoff_ns,
            now_ns,
            bin_ns,
            k,
        ) == members(seen, cutoff_ns, now_ns, bin_ns, k) by {}
        assert(key * bin_ns <= rec.ts_ns) by (nonlinear_arith)
            requires
                bin_ns != 0,
                key == rec.ts_ns / bin_ns,
        ;
    }
    if at > 0 && bins[at - 1].key == key {
        let idx: usize = at - 1;
        bins[idx].records.push(rec);
        proof {
            assert(bins@.len() == before.len());
            assert forall|j: int| 0 <= j < bins@.len() implies is_bin(
                #[trigger] bins@[j],
                seen.push(rec),
                cutoff_ns,
                now_ns,
                bin_ns,
            ) && bins@[j].key == before[j].key by {
                assert(is_bin(before[j], seen, cutoff_ns, now_ns, bin_ns));
                if j != idx {
                    assert(bins@[j] == before[j]);
                    assert(before[j].key != key) by {
                        if j < idx {
                            assert(before[j].key < before[idx as int].key);
                        } else {
                            assert(before[j].key > key);
                        }
                    }
                }
            }
            assert forall|k: int| 0 <= k < seen.push(rec).len() && cutoff_ns <= (
            #[trigger] seen.push(rec)[k]).ts_ns <= now_ns implies has_key(
                bins@,
                seen.push(rec)[k].ts_ns / bin_ns,
            ) by {
                if k < seen.len() {
                    assert(seen[k] == seen.push(rec)[k]);
                    let i = choose|i: int|
                        0 <= i < before.len() && (#[trigger] before[i]).key == seen[k].ts_ns
                            / bin_ns;
                    assert(bins@[i].key == before[i].key);
                } else {
                    assert(bins@[idx as int].key == key);
                }
            }
            assert forall|i: int, j: int| 0 <= i < j < bins@.len() implies (
            #[trigger] bins@[i]).key < (#[trigger] bins@[j]).key by {
                assert(before[i].key < before[j].key);
                assert(bins@[i].key == before[i].key && bins@[j].key == before[j].key);
            }
        }
    } else {
        let start_ns: u64 = key * bin_ns;
        let is_current = key == now_ns / bin_ns;
        let width_ns: u64 = if is_current {
            if now_ns - start_ns >= 1 {
                now_ns - start_ns
            } else {
                1
            }
        } else {
            bin_ns
        };
        let mut list: Vec<Record> = Vec::new();
        list.push(rec);
        proof {
            assert(!has_key(before, key)) by {
                if has_key(before, key) {
                    let i = choose|i: int| 0 <= i < before.len()
                        && (#[trigger] before[i]).key == key;
                    if i < at - 1 {
                        assert(before[i].key < before[at - 1].key);
                    }
                }
            }
            lemma_no_members(before, seen, cutoff_ns, now_ns, bin_ns, key);
            assert(list@ =~= members(seen.push(rec), cutoff_ns, now_ns, bin_ns, key));
        }
        bins.insert(at, Bin { key, start_ns, records: list, width_ns, is_current });
        proof {
            let added = bins@[at as int];
            assert(bins@ =~= before.insert(at as int, added));
            assert(is_bin(added, seen.push(rec), cutoff_ns, now_ns, bin_ns));
            assert forall|j: int| 0 <= j < bins@.len() implies is_bin(
                #[trigger] bins@[j],
                seen.push(rec),
                cutoff_ns,
                now_ns,
                bin_ns,
            ) by {
                if j < at {
                    assert(bins@[j] == before[j]);
                    assert(before[j].key != key);
                } else if j > at {
                    assert(bins@[j] == before[j - 1]);
                    assert(before[j - 1].key != key);
                }
            }
            assert forall|k: int| 0 <= k < seen.push(rec).len() && cutoff_ns <= (
            #[trigger] seen.push(rec)[k]).ts_ns <= now_ns implies has_key(
                bins@,
                seen.push(rec)[k].ts_ns / bin_ns,
            ) by {
                if k < seen.len() {
                    assert(seen[k] == seen.push(rec)[k]);
                    let i = choose|i: int|
                        0 <= i < before.len() && (#[trigger] before[i]).key == seen[k].ts_ns
                            / bin_ns;
                    if i < at {
                        assert(bins@[i].key == before[i].key);
                    } else {
                        assert(bins@[i + 1].key == before[i].key);
                    }
                } else {
                    assert(bins@[at as int].key == key);
                }
            }
            assert forall|i: int, j: int| 0 <= i < j < bins@.len() implies (
            #[trigger] bins@[i]).key < (#[trigger] bins@[j]).key by {
                if j < at {
                    assert(before[i].key < before[j].key);
                } else if j == at {
                    assert(bins@[i] == before[i]);
                    if i < at - 1 {
                        assert(before[i].key < before[at - 1].key);
                    }
                    assert(before[at - 1].key < key);
                } else if i == at {
                    assert(bins@[j] == before[j - 1]);
                } else if i > at {
                    assert(before[i - 1].key < before[j - 1].key);
                } else {
                    assert(before[i].key < before[j - 1].key);
                }
            }
        }
    }
}

/// A record outside of the window is in no bin.
proof fn lemma_skip(
    bins: Seq<Bin>,
    seen: Seq<Record>,
    rec: Record,
    cutoff_ns: u64,
    now_ns: u64,
    bin_ns: u64,
)
    requires
        !(cutoff_ns <= rec.ts_ns <= now_ns),
        forall|j: int|
            0 <= j < bins.len() ==> is_bin(#[trigger] bins[j], seen, cutoff_ns, now_ns, bin_ns),
        all_binned(bins, seen, cutoff_ns, now_ns, bin_ns),
    ensures
        forall|j: int|
            0 <= j < bins.len() ==> is_bin(
                #[trigger] bins[j],
                seen.push(rec),
                cutoff_ns,
                now_ns,
                bin_ns,
            ),
        all_binned(bins, seen.push(rec), cutoff_ns, now_ns, bin_ns),
{
    assert(seen.push(rec).drop_last() =~= seen);
    assert forall|k: int| 0 <= k < seen.push(rec).len() && cutoff_ns <= (
    #[trigger] seen.push(rec)[k]).ts_ns <= now_ns implies has_key(
        bins,
        seen.push(rec)[k].ts_ns / bin_ns,
    ) by {
        assert(k < seen.len());
        assert(seen[k] == seen.push(rec)[k]);
    }
}

/// Where no bin has a key, no record has it.
proof fn lemma_no_members(
    bins: Seq<Bin>,
    seen: Seq<Record>,
    cutoff_ns: u64,
    now_ns: u64,
    bin_ns: u64,
    key: u64,
)
    requires
        all_binned(bins, seen, cutoff_ns, now_ns, bin_ns),
        !has_key(bins, key),
    ensures
        members(seen, cutoff_ns, now_ns, bin_ns, key) == Seq::<Record>::empty(),
    decreases seen.len(),
{
    if seen.len() > 0 {
        let rest = seen.drop_last();
        assert forall|k: int| 0 <= k < rest.len() && cutoff_ns <= (#[trigger] rest[k]).ts_ns
            <= now_ns implies has_key(bins, rest[k].ts_ns / bin_ns) by {
            assert(rest[k] == seen[k]);
        }
        lemma_no_members(bins, rest, cutoff_ns, now_ns, bin_ns, key);
        let last = seen[seen.len() - 1];
        assert(seen.last() == last);
    }
}

/// A bin that has passed and is wholly inside the window never changes: its
/// records are the same whatever the time is.
pub proof fn law_sealed_bins_do_not_change(
    s: Seq<Record>,
    cutoff_a: u64,
    now_a: u64,
    cutoff_b: u64,
    now_b: u64,
    bin_ns: u64,
    key: u64,
)
    requires
        bin_ns != 0,
        cutoff_a <= key * bin_ns,
        cutoff_b <= key * bin_ns,
        (key + 1) * bin_ns <= now_a,
        (key + 1) * bin_ns <= now_b,
    ensures
        members(s, cutoff_a, now_a, bin_ns, key) == members(s, cutoff_b, now_b, bin_ns, key),
    decreases s.len(),
{
    if s.len() > 0 {
        law_sealed_bins_do_not_change(
            s.drop_last(),
            cutoff_a,
            now_a,
            cutoff_b,
            now_b,
            bin_ns,
            key,
        );
        let ts = s.last().ts_ns;
        if ts / bin_ns == key {
            assert(key * bin_ns <= ts < (key + 1) * bin_ns) by (nonlinear_arith)
                requires
                    bin_ns != 0,
                    key == ts / bin_ns,
            ;
        }
    }
}

/// What a line of a plot shows of each bin.
#[derive(Debug, Clone, Copy, PartialEq, Eq, Structural)]
pub enum Series {
    /// How many frames it has.
    Frames,
    P50,
    P99,
    Max,
}

/// What a line shows of a bin.
pub open spec fn series_value(b: Bin, series: Series) -> u64 {
    match series {
        Series::Frames => b.records@.len() as u64,
        Series::P50 => percentile_of(b.records@, Percentile::P50),
        Series::P99 => percentile_of(b.records@, Percentile::P99),
        Series::Max => largest_of(b.records@),
    }
}

/// A point of a line: how long ago the bin started, how much of it has
/// passed, and its value.
#[derive(Debug, Clone, Copy, PartialEq, Eq, Structural)]
pub struct PlotPoint {
    pub ago_ns: u64,
    pub width_ns: u64,
    pub value: u64,
}

/// The points of a line, one for each bin.
pub fn plot_points(bins: &Vec<Bin>, now_ns: u64, series: Series) -> (r: Vec<PlotPoint>)
    requires
        forall|i: int| 0 <= i < bins@.len() ==> (#[trigger] bins@[i]).start_ns <= now_ns,
    ensures
        r@.len() == bins@.len(),
        forall|i: int|
            0 <= i < bins@.len() ==> #[trigger] r@[i] == (PlotPoint {
                ago_ns: (now_ns - bins@[i].start_ns) as u64,
                width_ns: bins@[i].width_ns,
                value: series_value(bins@[i], series),
            }),
{
    let mut out: Vec<PlotPoint> = Vec::new();
    let mut i: usize = 0;
    while i < bins.len()
        invariant
            i <= bins@.len(),
            forall|j: int| 0 <= j < bins@.len() ==> (#[trigger] bins@[j]).start_ns <= now_ns,
            out@.len() == i,
            forall|j: int|
                0 <= j < i ==> #[trigger] out@[j] == (PlotPoint {
                    ago_ns: (now_ns - bins@[j].start_ns) as u64,
                    width_ns: bins@[j].width_ns,
                    value: series_value(bins@[j], series),
                }),
        decreases bins@.len() - i,
    {
        let b = &bins[i];
        let value: u64 = match series {
            Series::Frames => b.records.len() as u64,
            Series::P50 => bin_percentile(b.records.as_slice(), Percentile::P50),
            Series::P99 => bin_percentile(b.records.as_slice(), Percentile::P99),
            Series::Max => bin_max(b.records.as_slice()),
        };
        out.push(PlotPoint { ago_ns: now_ns - b.start_ns, width_ns: b.width_ns, value });
        i += 1;
    }
    out
}

/// The points of a line over the records of a window.
pub fn plot_line(
    records: &[Record],
    now_ns: u64,
    window_ns: u64,
    bin_ns: u64,
    series: Series,
) -> (r: Vec<PlotPoint>)
    ensures
        exists|bins: Seq<Bin>|
            #![trigger in_order(bins)]
            {
                let cutoff = state::before_by(now_ns, window_ns);
                &&& in_order(bins)
                &&& bin_ns == 0 || now_ns == 0 ==> bins.len() == 0
                &&& bin_ns != 0 && now_ns != 0 ==> all_binned(
                    bins,
                    records@,
                    cutoff,
                    now_ns,
                    bin_ns,
                ) && forall|i: int|
                    0 <= i < bins.len() ==> is_bin(
                        #[trigger] bins[i],
                        records@,
                        cutoff,
                        now_ns,
                        bin_ns,
                    )
                &&& r@.len() == bins.len()
                &&& forall|i: int|
                    0 <= i < bins.len() ==> #[trigger] r@[i] == (PlotPoint {
                        ago_ns: (now_ns - bins[i].start_ns) as u64,
                        width_ns: bins[i].width_ns,
                        value: series_value(bins[i], series),
                    })
            },
{
    let bins = bin_records(records, now_ns, window_ns, bin_ns);
    proof {
        assert forall|i: int| 0 <= i < bins@.len() implies (#[trigger] bins@[i]).start_ns
            <= now_ns by {
            let b = bins@[i];
            let cutoff = state::before_by(now_ns, window_ns);
            assert(is_bin(b, records@, cutoff, now_ns, bin_ns));
            lemma_member_bounds(records@, cutoff, now_ns, bin_ns, b.key);
        }
        assert(in_order(bins@));
    }
    plot_points(&bins, now_ns, series)
}

/// The records of a bin are in it and not after now.
proof fn lemma_member_bounds(
    s: Seq<Record>,
    cutoff_ns: u64,
    now_ns: u64,
    bin_ns: u64,
    key: u64,
)
    requires
        bin_ns != 0,
    ensures
        members(s, cutoff_ns, now_ns, bin_ns, key).len() > 0 ==> key * bin_ns <= now_ns,
    decreases s.len(),
{
    if s.len() > 0 {
        lemma_member_bounds(s.drop_last(), cutoff_ns, now_ns, bin_ns, key);
        let ts = s.last().ts_ns;
        if ts / bin_ns == key {
            assert(key * bin_ns <= ts) by (nonlinear_arith)
                requires
                    bin_ns != 0,
                    key == ts / bin_ns,
            ;
        }
    }
}

/// The gaps among presents: the frame behind each gap, and how many frames
/// are missing before it.
pub open spec fn gaps_of(s: Seq<Record>) -> Seq<(u64, u64)>
    decreases s.len(),
{
    if s.len() < 2 {
        Seq::empty()
    } else {
        let rest = gaps_of(s.drop_last());
        let a = s[s.len() - 2].frame;
        let b = s.last().frame;
        if b > a + 1 {
            rest.push((b, (b - a - 1) as u64))
        } else {
            rest
        }
    }
}

/// Finds where the frame counter advanced by more than one.
pub fn frame_gaps(records: &[Record]) -> (r: Vec<(u64, u64)>)
    ensures
        r@ == gaps_of(records@),
{
    let mut out: Vec<(u64, u64)> = Vec::new();
    let n: usize = records.len();
    if n < 2 {
        return out;
    }
    let mut i: usize = 1;
    while i < n
        invariant
            1 <= i <= n,
            n == records@.len(),
            out@ == gaps_of(records@.take(i as int)),
        decreases n - i,
    {
        let a: u64 = records[i - 1].frame;
        let b: u64 = records[i].frame;
        proof {
            assert(records@.take(i + 1).drop_last() =~= records@.take(i as int));
            assert(records@.take(i + 1).last() == records@[i as int]);
        }
        if b > a && b - a > 1 {
            out.push((b, b - a - 1));
        }
        i += 1;
    }
    proof {
        assert(records@.take(i as int) =~= records@);
    }
    out
}

/// How many frames are missing in all.
pub open spec fn missing_in(gaps: Seq<(u64, u64)>) -> int
    decreases gaps.len(),
{
    if gaps.len() == 0 {
        0
    } else {
        missing_in(gaps.drop_last()) + gaps.last().1
    }
}

/// How many frames are missing in all, where that is a number of 64 bits.
pub fn total_drops(gaps: &[(u64, u64)]) -> (r: Option<u64>)
    ensures
        r == (if missing_in(gaps@) <= u64::MAX {
            Some(missing_in(gaps@) as u64)
        } else {
            None
        }),
{
    let mut sum: u64 = 0;
    let mut i: usize = 0;
    while i < gaps.len()
        invariant
            i <= gaps@.len(),
            sum == missing_in(gaps@.take(i as int)),
        decreases gaps@.len() - i,
    {
        proof {
            assert(gaps@.take(i + 1).last() == gaps@[i as int]);
            assert(gaps@.take(i + 1).drop_last() =~= gaps@.take(i as int));
        }
        let (_, gap): (u64, u64) = gaps[i];
        match sum.checked_add(gap) {
            Some(next) => {
                sum = next;
            },
            None => {
                proof {
                    lemma_missing_grows(gaps@, i + 1);
                }
                return None;
            },
        }
        i += 1;
    }
    proof {
        assert(gaps@.take(i as int) =~= gaps@);
    }
    Some(sum)
}

proof fn lemma_missing_grows(gaps: Seq<(u64, u64)>, k: int)
    requires
        0 <= k <= gaps.len(),
    ensures
        missing_in(gaps.take(k)) <= missing_in(gaps),
    decreases gaps.len(),
{
    if k < gaps.len() {
        lemma_missing_grows(gaps.drop_last(), k);
        assert(gaps.drop_last().take(k) =~= gaps.take(k));
    } else {
        assert(gaps.take(k) =~= gaps);
    }
}

/// Records whose frames follow one another have no gap.
pub proof fn law_no_gap_without_drops(s: Seq<Record>)
    requires
        forall|i: int, j: int|
            0 <= i < s.len() && j == i + 1 && j < s.len() ==> (#[trigger] s[j]).frame <= (
            #[trigger] s[i]).frame + 1,
    ensures
        gaps_of(s) == Seq::<(u64, u64)>::empty(),
    decreases s.len(),
{
    if s.len() >= 2 {
        let rest = s.drop_last();
        assert forall|i: int, j: int| 0 <= i < rest.len() && j == i + 1 && j < rest.len() implies (
        #[trigger] rest[j]).frame <= (#[trigger] rest[i]).frame + 1 by {
            assert(rest[i] == s[i] && rest[j] == s[j]);
        }
        law_no_gap_without_drops(rest);
        assert(s[s.len() - 1].frame <= s[s.len() - 2].frame + 1);
    }
}

/// Whether `w` has the numbers of `v` in ascending order, and `x` stands in it
/// at the place that is nearest to so many hundredths of the way from the
/// first to the last; of two that are as near, at the later.
pub open spec fn stands_at(v: Seq<u64>, x: u64, hundredths: int, w: Seq<u64>, k: int) -> bool {
    &&& w.to_multiset() == v.to_multiset()
    &&& w.len() == v.len()
    &&& forall|i: int, j: int| 0 <= i <= j < w.len() ==> w[i] <= w[j]
    &&& 0 <= k < w.len()
    &&& w[k] == x
    &&& hundredths * (v.len() - 1) - 50 < 100 * k <= hundredths * (v.len() - 1) + 50
}

/// Whether `x` is a percentile of some numbers.
pub open spec fn is_percentile(v: Seq<u64>, x: u64, hundredths: int) -> bool {
    exists|w: Seq<u64>, k: int| stands_at(v, x, hundredths, w, k)
}

/// Whether `x` is the largest of some numbers.
pub open spec fn is_largest(v: Seq<u64>, x: u64) -> bool {
    v.contains(x) && forall|i: int| 0 <= i < v.len() ==> #[trigger] v[i] <= x
}

proof fn lemma_ascending(v: Seq<u64>)
    ensures
        ascending(v).to_multiset() == v.to_multiset(),
        ascending(v).len() == v.len(),
        forall|i: int, j: int| 0 <= i <= j < v.len() ==> ascending(v)[i] <= ascending(v)[j],
        forall|i: int| 0 <= i < v.len() ==> v.contains(#[trigger] ascending(v)[i]),
        forall|i: int| 0 <= i < v.len() ==> ascending(v).contains(#[trigger] v[i]),
{
    let leq = |a: u64, b: u64| a <= b;
    let w = ascending(v);
    assert(relations::total_ordering(leq));
    v.lemma_sort_by_ensures(leq);
    assert(relations::sorted_by(w, leq));
    broadcast use vstd::seq_lib::group_to_multiset_ensures;

    assert(w.len() == w.to_multiset().len());
    assert(v.len() == v.to_multiset().len());
    assert forall|i: int, j: int| 0 <= i <= j < v.len() implies w[i] <= w[j] by {
        if i < j {
            assert(leq(w[i], w[j]));
        }
    }
    assert forall|i: int| 0 <= i < v.len() implies v.contains(#[trigger] w[i]) by {
        assert(w.contains(w[i]));
        assert(w.to_multiset().count(w[i]) > 0);
    }
    assert forall|i: int| 0 <= i < v.len() implies w.contains(#[trigger] v[i]) by {
        assert(v.contains(v[i]));
        assert(v.to_multiset().count(v[i]) > 0);
    }
}

proof fn lemma_percentile(v: Seq<u64>, p: Percentile)
    requires
        v.len() > 0,
    ensures
        is_percentile(v, percentile_in(v, p), hundredths(p)),
        v.contains(percentile_in(v, p)),
{
    lemma_ascending(v);
    let k = rank(p, v.len());
    assert(0 <= k < v.len());
    assert(stands_at(v, percentile_in(v, p), hundredths(p), ascending(v), k));
}

/// A percentile of some numbers is one of them, at its place in their
/// ascending order: the median half of the way, the other 99 hundredths of it.
/// It does not depend on the order in which the numbers come. Of no numbers it
/// is 0.
pub proof fn law_percentile_has_its_rank(
    a: Vec<u64>,
    b: Vec<u64>,
    p50: u64,
    p99: u64,
    again: u64,
)
    requires
        call_ensures(percentile, (a, Percentile::P50), p50),
        call_ensures(percentile, (a, Percentile::P99), p99),
        b@.to_multiset() == a@.to_multiset(),
        call_ensures(percentile, (b, Percentile::P99), again),
    ensures
        a@.len() == 0 ==> p50 == 0 && p99 == 0,
        a@.len() > 0 ==> {
            &&& is_percentile(a@, p50, 50)
            &&& is_percentile(a@, p99, 99)
            &&& a@.contains(p50)
            &&& a@.contains(p99)
            &&& p50 <= p99
        },
        again == p99,
{
    lemma_same_numbers(a@, b@);
    if a@.len() > 0 {
        lemma_percentile(a@, Percentile::P50);
        lemma_percentile(a@, Percentile::P99);
        lemma_ascending(a@);
    }
}

/// The same numbers are the same in ascending order.
proof fn lemma_same_numbers(a: Seq<u64>, b: Seq<u64>)
    requires
        a.to_multiset() == b.to_multiset(),
    ensures
        ascending(a) == ascending(b),
        a.len() == b.len(),
{
    let leq = |x: u64, y: u64| x <= y;
    assert(relations::total_ordering(leq));
    a.lemma_sort_by_ensures(leq);
    b.lemma_sort_by_ensures(leq);
    seq_lib::lemma_sorted_unique(a.sort_by(leq), b.sort_by(leq), leq);
    broadcast use vstd::seq_lib::group_to_multiset_ensures;

    assert(a.len() == a.to_multiset().len());
    assert(b.len() == b.to_multiset().len());
}

/// Whether a record is not older than a window.
pub open spec fn within(now_ns: u64, window_ns: u64) -> spec_fn(Record) -> bool {
    |r: Record| r.ts_ns + window_ns >= now_ns
}

/// Whether a record has a latency.
pub open spec fn measured() -> spec_fn(Record) -> bool {
    |r: Record| r.latency_us > 0
}

/// The latencies of some records.
pub open spec fn latencies_in(s: Seq<Record>) -> Seq<u64> {
    s.filter(measured()).map_values(|r: Record| r.latency_us)
}

proof fn lemma_since_filters(s: Seq<Record>, now_ns: u64, window_ns: u64)
    ensures
        state::since(s, state::before_by(now_ns, window_ns)) == s.filter(
            within(now_ns, window_ns),
        ),
    decreases s.len(),
{
    reveal(Seq::filter);
    if s.len() > 0 {
        lemma_since_filters(s.drop_last(), now_ns, window_ns);
    } else {
        assert(s.filter(within(now_ns, window_ns)) =~= Seq::empty());
    }
}

proof fn lemma_samples_filter(s: Seq<Record>)
    ensures
        samples_of(s) == latencies_in(s),
    decreases s.len(),
{
    reveal(Seq::filter);
    let f = |r: Record| r.latency_us;
    if s.len() > 0 {
        lemma_samples_filter(s.drop_last());
        let rest = s.drop_last().filter(measured());
        if measured()(s.last()) {
            assert(rest.push(s.last()).map_values(f) =~= rest.map_values(f).push(f(s.last())));
        }
    } else {
        assert(latencies_in(s) =~= Seq::empty());
    }
}

/// The aggregates of a window are those of its records: how many there are,
/// how many of them have a latency, and of these latencies the median, the
/// 99th percentile and the largest. They come in this order of size. Without
/// a latency all three are 0, and a window of no length has no records.
pub proof fn law_stats_are_of_the_window(
    records: &[Record],
    now_ns: u64,
    window_ns: u64,
    r: LiveStats,
)
    requires
        records@.len() <= usize::MAX,
        call_ensures(live_stats, (records, now_ns, window_ns), r),
    ensures
        window_ns == 0 ==> r.frames == 0 && r.samples == 0 && r.max_us == 0 && r.p50_us == 0
            && r.p99_us == 0,
        window_ns > 0 ==> {
            let w = records@.filter(within(now_ns, window_ns));
            let v = latencies_in(w);
            &&& r.frames == w.len()
            &&& r.samples == v.len()
            &&& v.len() == 0 ==> r.p50_us == 0 && r.p99_us == 0 && r.max_us == 0
            &&& v.len() > 0 ==> {
                &&& is_largest(v, r.max_us)
                &&& is_percentile(v, r.p50_us, 50)
                &&& is_percentile(v, r.p99_us, 99)
                &&& r.p50_us <= r.p99_us <= r.max_us
            }
        },
{
    let w = records@.filter(within(now_ns, window_ns));
    let v = samples_of(w);
    lemma_since_filters(records@, now_ns, window_ns);
    lemma_samples_filter(w);
    records@.lemma_filter_len(within(now_ns, window_ns));
    w.lemma_filter_len(measured());
    if window_ns > 0 && v.len() > 0 {
        lemma_ascending(v);
        lemma_percentile(v, Percentile::P50);
        lemma_percentile(v, Percentile::P99);
        let a = ascending(v);
        assert(a[v.len() - 1] == r.max_us);
        assert(v.contains(r.max_us));
        assert forall|i: int| 0 <= i < v.len() implies #[trigger] v[i] <= r.max_us by {
            assert(a.contains(v[i]));
            let j = choose|j: int| 0 <= j < a.len() && a[j] == v[i];
            assert(a[j] <= a[v.len() - 1]);
        }
    } else if records@.len() == 0 {
        reveal(Seq::filter);
    }
}

proof fn lemma_filter_multiset<A>(s: Seq<A>, p: spec_fn(A) -> bool)
    ensures
        s.filter(p).to_multiset() == s.to_multiset().filter(p),
    decreases s.len(),
{
    broadcast use {vstd::seq_lib::group_to_multiset_ensures, vstd::multiset::group_multiset_axioms};

    reveal(Seq::filter);
    if s.len() > 0 {
        let rest = s.drop_last();
        lemma_filter_multiset(rest, p);
        assert(rest.push(s.last()) =~= s);
        assert(s.to_multiset() =~= rest.to_multiset().insert(s.last()));
        if p(s.last()) {
            assert(s.filter(p) == rest.filter(p).push(s.last()));
            assert(s.to_multiset().filter(p) =~= rest.to_multiset().filter(p).insert(s.last()));
        } else {
            assert(s.to_multiset().filter(p) =~= rest.to_multiset().filter(p));
        }
    } else {
        assert(s.filter(p) =~= s);
        assert(s.to_multiset().filter(p) =~= s.to_multiset()) by {
            assert forall|a: A| s.to_multiset().count(a) == 0 by {
                assert(!s.contains(a));
            }
        }
    }
}

proof fn lemma_latency_multiset(a: Seq<Record>, b: Seq<Record>)
    requires
        a.to_multiset() == b.to_multiset(),
    ensures
        a.map_values(|r: Record| r.latency_us).to_multiset() == b.map_values(
            |r: Record| r.latency_us,
        ).to_multiset(),
    decreases a.len(),
{
    broadcast use {vstd::seq_lib::group_to_multiset_ensures, vstd::multiset::group_multiset_axioms};

    let f = |r: Record| r.latency_us;
    assert(a.len() == a.to_multiset().len());
    assert(b.len() == b.to_multiset().len());
    if a.len() > 0 {
        let x = a.last();
        let fewer = a.drop_last();
        assert(a.contains(a[a.len() - 1]));
        assert(a.to_multiset().count(x) > 0);
        assert(b.contains(x));
        let i = choose|i: int| 0 <= i < b.len() && b[i] == x;
        let rest = b.remove(i);
        assert(fewer.push(x) =~= a);
        assert(rest.to_multiset() =~= b.to_multiset().remove(x));
        assert(fewer.to_multiset() =~= a.to_multiset().remove(x));
        lemma_latency_multiset(fewer, rest);
        assert(a.map_values(f) =~= fewer.map_values(f).push(f(x)));
        assert(b.map_values(f).remove(i) =~= rest.map_values(f));
        let mb = b.map_values(f);
        assert(mb[i] == f(x));
        assert(mb.contains(f(x)));
        assert(mb.to_multiset().count(f(x)) > 0);
        assert(mb.remove(i).to_multiset() =~= mb.to_multiset().remove(f(x)));
        assert(mb.to_multiset() =~= rest.map_values(f).to_multiset().insert(f(x)));
    } else {
        assert(a.map_values(f) =~= b.map_values(f));
    }
}

/// The aggregates do not depend on the order in which the records come.
pub proof fn law_stats_ignore_the_order(
    a: &[Record],
    b: &[Record],
    now_ns: u64,
    window_ns: u64,
    of_a: LiveStats,
    of_b: LiveStats,
)
    requires
        a@.to_multiset() == b@.to_multiset(),
        call_ensures(live_stats, (a, now_ns, window_ns), of_a),
        call_ensures(live_stats, (b, now_ns, window_ns), of_b),
    ensures
        of_a == of_b,
{
    broadcast use vstd::seq_lib::group_to_multiset_ensures;

    let p = within(now_ns, window_ns);
    let wa = a@.filter(p);
    let wb = b@.filter(p);
    lemma_since_filters(a@, now_ns, window_ns);
    lemma_since_filters(b@, now_ns, window_ns);
    lemma_samples_filter(wa);
    lemma_samples_filter(wb);
    lemma_filter_multiset(a@, p);
    lemma_filter_multiset(b@, p);
    lemma_filter_multiset(wa, measured());
    lemma_filter_multiset(wb, measured());
    lemma_latency_multiset(wa.filter(measured()), wb.filter(measured()));
    lemma_same_numbers(samples_of(wa), samples_of(wb));
    assert(wa.len() == wa.to_multiset().len());
    assert(wb.len() == wb.to_multiset().len());
    assert(a@.len() == a@.to_multiset().len());
    assert(b@.len() == b@.to_multiset().len());
}

/// Whether a record is of a window and of the bin that starts at a moment.
pub open spec fn in_bin(now_ns: u64, window_ns: u64, bin_ns: u64, start_ns: u64) -> spec_fn(
    Record,
) -> bool {
    |r: Record|
        r.ts_ns <= now_ns && r.ts_ns + window_ns >= now_ns && start_ns <= r.ts_ns < start_ns
            + bin_ns
}

proof fn lemma_bin_bounds(ts: u64, bin_ns: u64, key: u64)
    requires
        bin_ns != 0,
    ensures
        ts / bin_ns == key <==> key * bin_ns <= ts < key * bin_ns + bin_ns,
{
    assert(ts / bin_ns == key <==> key * bin_ns <= ts < key * bin_ns + bin_ns) by (nonlinear_arith)
        requires
            bin_ns != 0,
    ;
}

proof fn lemma_members_filter(
    s: Seq<Record>,
    now_ns: u64,
    window_ns: u64,
    bin_ns: u64,
    key: u64,
    start_ns: u64,
)
    requires
        bin_ns != 0,
        start_ns == key * bin_ns,
    ensures
        members(s, state::before_by(now_ns, window_ns), now_ns, bin_ns, key) == s.filter(
            in_bin(now_ns, window_ns, bin_ns, start_ns),
        ),
    decreases s.len(),
{
    reveal(Seq::filter);
    if s.len() > 0 {
        lemma_members_filter(s.drop_last(), now_ns, window_ns, bin_ns, key, start_ns);
        lemma_bin_bounds(s.last().ts_ns, bin_ns, key);
    } else {
        assert(s.filter(in_bin(now_ns, window_ns, bin_ns, start_ns)) =~= Seq::empty());
    }
}

/// Whether a bin is that of its moment: it starts at a multiple of the bin's
/// length, and has exactly the records of the window from then on until the
/// next bin starts, in order, of which there is at least one. It is current
/// where now is in it, and then only as wide as has passed of it.
pub open spec fn is_bin_of(
    b: Bin,
    records: Seq<Record>,
    now_ns: u64,
    window_ns: u64,
    bin_ns: u64,
) -> bool {
    &&& exists|n: int| b.start_ns == #[trigger] (n * bin_ns)
    &&& b.records@ == records.filter(in_bin(now_ns, window_ns, bin_ns, b.start_ns))
    &&& b.records@.len() > 0
    &&& b.start_ns <= now_ns
    &&& b.is_current <==> now_ns - b.start_ns < bin_ns
    &&& !b.is_current ==> b.width_ns == bin_ns
    &&& b.is_current && now_ns > b.start_ns ==> b.start_ns + b.width_ns == now_ns
    &&& now_ns == b.start_ns ==> b.width_ns == 1 || !b.is_current
}

/// The bins are apart and in the order of time, each of them is that of its
/// moment, and every record of the window is in one.
pub proof fn law_bins_part_the_window(
    records: &[Record],
    now_ns: u64,
    window_ns: u64,
    bin_ns: u64,
    r: Vec<Bin>,
)
    requires
        call_ensures(bin_records, (records, now_ns, window_ns, bin_ns), r),
    ensures
        bin_ns == 0 || now_ns == 0 ==> r@.len() == 0,
        bin_ns != 0 && now_ns != 0 ==> {
            &&& forall|i: int|
                0 <= i < r@.len() ==> is_bin_of(
                    #[trigger] r@[i],
                    records@,
                    now_ns,
                    window_ns,
                    bin_ns,
                )
            &&& forall|i: int, j: int|
                0 <= i < j < r@.len() ==> (#[trigger] r@[i]).start_ns + bin_ns <= (
                #[trigger] r@[j]).start_ns
            &&& forall|k: int|
                0 <= k < records@.len() && (#[trigger] records@[k]).ts_ns <= now_ns
                    && records@[k].ts_ns + window_ns >= now_ns ==> exists|i: int|
                    0 <= i < r@.len() && (#[trigger] r@[i]).records@.contains(records@[k])
        },
{
    if bin_ns != 0 && now_ns != 0 {
        let cutoff = state::before_by(now_ns, window_ns);
        assert forall|i: int| 0 <= i < r@.len() implies is_bin_of(
            #[trigger] r@[i],
            records@,
            now_ns,
            window_ns,
            bin_ns,
        ) by {
            lemma_bin_is_of_its_moment(r@[i], records@, now_ns, window_ns, bin_ns);
        }
        assert forall|i: int, j: int| 0 <= i < j < r@.len() implies (#[trigger] r@[i]).start_ns
            + bin_ns <= (#[trigger] r@[j]).start_ns by {
            let a = r@[i].key as int;
            let b = r@[j].key as int;
            assert(is_bin(r@[i], records@, cutoff, now_ns, bin_ns));
            assert(is_bin(r@[j], records@, cutoff, now_ns, bin_ns));
            assert(a * bin_ns + bin_ns <= b * bin_ns) by (nonlinear_arith)
                requires
                    a + 1 <= b,
                    bin_ns > 0,
            ;
        }
        assert forall|k: int|
            0 <= k < records@.len() && (#[trigger] records@[k]).ts_ns <= now_ns && records@[k].ts_ns
                + window_ns >= now_ns implies exists|i: int|
            0 <= i < r@.len() && (#[trigger] r@[i]).records@.contains(records@[k]) by {
            let key = records@[k].ts_ns / bin_ns;
            assert(has_key(r@, key));
            let i = choose|i: int| 0 <= i < r@.len() && (#[trigger] r@[i]).key == key;
            let start = r@[i].start_ns;
            assert(is_bin(r@[i], records@, cutoff, now_ns, bin_ns));
            lemma_members_filter(records@, now_ns, window_ns, bin_ns, key, start);
            lemma_bin_bounds(records@[k].ts_ns, bin_ns, key);
            records@.lemma_filter_contains(in_bin(now_ns, window_ns, bin_ns, start), k);
            assert(r@[i].records@.contains(records@[k]));
        }
    }
}

proof fn lemma_bin_is_of_its_moment(
    b: Bin,
    records: Seq<Record>,
    now_ns: u64,
    window_ns: u64,
    bin_ns: u64,
)
    requires
        bin_ns != 0,
        is_bin(b, records, state::before_by(now_ns, window_ns), now_ns, bin_ns),
    ensures
        is_bin_of(b, records, now_ns, window_ns, bin_ns),
{
    let cutoff = state::before_by(now_ns, window_ns);
    lemma_member_bounds(records, cutoff, now_ns, bin_ns, b.key);
    assert(b.start_ns == (b.key as int) * bin_ns);
    lemma_members_filter(records, now_ns, window_ns, bin_ns, b.key, b.start_ns);
    lemma_bin_bounds(now_ns, bin_ns, b.key);
}

proof fn lemma_largest(s: Seq<Record>)
    ensures
        samples_of(s).len() == 0 ==> largest_of(s) == 0,
        samples_of(s).len() > 0 ==> is_largest(samples_of(s), largest_of(s)),
    decreases s.len(),
{
    if s.len() > 0 {
        let rest = s.drop_last();
        lemma_largest(rest);
        let v = samples_of(s);
        let before = samples_of(rest);
        let best = largest_of(s);
        if s.last().latency_us > 0 {
            assert(v == before.push(s.last().latency_us));
            assert(v[v.len() - 1] == s.last().latency_us);
            if best != s.last().latency_us {
                let i = choose|i: int| 0 <= i < before.len() && before[i] == best;
                assert(v[i] == best);
            }
            assert forall|i: int| 0 <= i < v.len() implies #[trigger] v[i] <= best by {
                if i < before.len() {
                    assert(v[i] == before[i]);
                }
            }
        }
    }
}

/// Whether a value is what a line shows of some records.
pub open spec fn is_shown(s: Seq<Record>, series: Series, value: u64) -> bool {
    let v = latencies_in(s);
    match series {
        Series::Frames => value == s.len(),
        Series::P50 => if v.len() == 0 {
            value == 0
        } else {
            is_percentile(v, value, 50)
        },
        Series::P99 => if v.len() == 0 {
            value == 0
        } else {
            is_percentile(v, value, 99)
        },
        Series::Max => if v.len() == 0 {
            value == 0
        } else {
            is_largest(v, value)
        },
    }
}

proof fn lemma_series_is_shown(b: Bin, series: Series)
    ensures
        is_shown(b.records@, series, series_value(b, series)),
{
    let s = b.records@;
    assert(b.records.len() == s.len());
    lemma_samples_filter(s);
    lemma_largest(s);
    if samples_of(s).len() > 0 {
        lemma_percentile(samples_of(s), Percentile::P50);
        lemma_percentile(samples_of(s), Percentile::P99);
    }
}

/// The percentile and the largest latency of a bin are those of its latencies,
/// and 0 where it has none.
pub proof fn law_bin_values(records: &[Record], p50: u64, p99: u64, max: u64, v: Vec<u64>)
    requires
        call_ensures(bin_percentile, (records, Percentile::P50), p50),
        call_ensures(bin_percentile, (records, Percentile::P99), p99),
        call_ensures(bin_max, (records,), max),
        call_ensures(latency_samples, (records,), v),
    ensures
        v@ == latencies_in(records@),
        is_shown(records@, Series::P50, p50),
        is_shown(records@, Series::P99, p99),
        is_shown(records@, Series::Max, max),
        p50 <= p99 <= max,
{
    let s = records@;
    lemma_samples_filter(s);
    lemma_largest(s);
    if samples_of(s).len() > 0 {
        lemma_percentile(samples_of(s), Percentile::P50);
        lemma_percentile(samples_of(s), Percentile::P99);
        lemma_ascending(samples_of(s));
    }
}

/// Every point of a line stands at the start of a bin, so long ago, and shows
/// the value of the records of the window in that bin. The points are in the
/// order of time, and every record of the window is under one.
pub proof fn law_points_show_their_bins(
    records: &[Record],
    now_ns: u64,
    window_ns: u64,
    bin_ns: u64,
    series: Series,
    r: Vec<PlotPoint>,
)
    requires
        call_ensures(plot_line, (records, now_ns, window_ns, bin_ns, series), r),
    ensures
        bin_ns == 0 || now_ns == 0 ==> r@.len() == 0,
        bin_ns != 0 && now_ns != 0 ==> {
            &&& forall|i: int|
                0 <= i < r@.len() ==> is_point_of(
                    #[trigger] r@[i],
                    records@,
                    now_ns,
                    window_ns,
                    bin_ns,
                    series,
                )
            &&& forall|i: int, j: int|
                0 <= i < j < r@.len() ==> (#[trigger] r@[i]).ago_ns >= (#[trigger] r@[j]).ago_ns
                    + bin_ns
            &&& forall|k: int|
                0 <= k < records@.len() && (#[trigger] records@[k]).ts_ns <= now_ns
                    && records@[k].ts_ns + window_ns >= now_ns ==> exists|i: int|
                    0 <= i < r@.len() && now_ns <= records@[k].ts_ns + (#[trigger] r@[i]).ago_ns
                        < now_ns + bin_ns
        },
{
    let cutoff = state::before_by(now_ns, window_ns);
    let bins = choose|bins: Seq<Bin>|
        #![trigger in_order(bins)]
        {
            &&& in_order(bins)
            &&& bin_ns == 0 || now_ns == 0 ==> bins.len() == 0
            &&& bin_ns != 0 && now_ns != 0 ==> all_binned(bins, records@, cutoff, now_ns, bin_ns)
                && forall|i: int|
                0 <= i < bins.len() ==> is_bin(
                    #[trigger] bins[i],
                    records@,
                    cutoff,
                    now_ns,
                    bin_ns,
                )
            &&& r@.len() == bins.len()
            &&& forall|i: int|
                0 <= i < bins.len() ==> #[trigger] r@[i] == (PlotPoint {
                    ago_ns: (now_ns - bins[i].start_ns) as u64,
                    width_ns: bins[i].width_ns,
                    value: series_value(bins[i], series),
                })
        };
    if bin_ns != 0 && now_ns != 0 {
        assert forall|i: int| 0 <= i < r@.len() implies is_point_of(
            #[trigger] r@[i],
            records@,
            now_ns,
            window_ns,
            bin_ns,
            series,
        ) by {
            lemma_bin_is_of_its_moment(bins[i], records@, now_ns, window_ns, bin_ns);
            lemma_series_is_shown(bins[i], series);
            assert((now_ns - r@[i].ago_ns) as u64 == bins[i].start_ns);
        }
        assert forall|i: int, j: int| 0 <= i < j < r@.len() implies (#[trigger] r@[i]).ago_ns >= (
        #[trigger] r@[j]).ago_ns + bin_ns by {
            let a = bins[i].key as int;
            let b = bins[j].key as int;
            lemma_bin_is_of_its_moment(bins[i], records@, now_ns, window_ns, bin_ns);
            lemma_bin_is_of_its_moment(bins[j], records@, now_ns, window_ns, bin_ns);
            assert(a * bin_ns + bin_ns <= b * bin_ns) by (nonlinear_arith)
                requires
                    a + 1 <= b,
                    bin_ns > 0,
            ;
        }
        assert forall|k: int|
            0 <= k < records@.len() && (#[trigger] records@[k]).ts_ns <= now_ns && records@[k].ts_ns
                + window_ns >= now_ns implies exists|i: int|
            0 <= i < r@.len() && now_ns <= records@[k].ts_ns + (#[trigger] r@[i]).ago_ns < now_ns
                + bin_ns by {
            let key = records@[k].ts_ns / bin_ns;
            assert(has_key(bins, key));
            let i = choose|i: int| 0 <= i < bins.len() && (#[trigger] bins[i]).key == key;
            lemma_bin_is_of_its_moment(bins[i], records@, now_ns, window_ns, bin_ns);
            lemma_bin_bounds(records@[k].ts_ns, bin_ns, key);
            assert(r@[i].ago_ns == now_ns - bins[i].start_ns);
        }
    }
}

/// Whether a point is that of its bin.
pub open spec fn is_point_of(
    pt: PlotPoint,
    records: Seq<Record>,
    now_ns: u64,
    window_ns: u64,
    bin_ns: u64,
    series: Series,
) -> bool {
    let start_ns = (now_ns - pt.ago_ns) as u64;
    let s = records.filter(in_bin(now_ns, window_ns, bin_ns, start_ns));
    &&& pt.ago_ns <= now_ns
    &&& s.len() > 0
    &&& is_shown(s, series, pt.value)
    &&& pt.ago_ns >= bin_ns ==> pt.width_ns == bin_ns
    &&& 0 < pt.ago_ns < bin_ns ==> pt.width_ns == pt.ago_ns
    &&& pt.ago_ns == 0 ==> pt.width_ns == 1
}

/// Whether some frames are missing right before a frame.
pub open spec fn is_gap(s: Seq<Record>, i: int, gap: (u64, u64)) -> bool {
    &&& 0 <= i < s.len() - 1
    &&& gap.1 >= 1
    &&& s[i + 1].frame == gap.0
    &&& s[i].frame + gap.1 + 1 == gap.0
}

proof fn lemma_gaps(s: Seq<Record>, gap: (u64, u64))
    ensures
        gaps_of(s).contains(gap) <==> exists|i: int| is_gap(s, i, gap),
    decreases s.len(),
{
    if s.len() >= 2 {
        let rest = s.drop_last();
        lemma_gaps(rest, gap);
        let n = s.len() - 2;
        let all = gaps_of(s);
        let before = gaps_of(rest);
        if all.contains(gap) {
            let k = choose|k: int| 0 <= k < all.len() && all[k] == gap;
            if k < before.len() {
                assert(before[k] == gap);
                assert(before.contains(gap));
                let i = choose|i: int| is_gap(rest, i, gap);
                assert(is_gap(s, i, gap));
            } else {
                assert(is_gap(s, n, gap));
            }
        }
        if exists|i: int| is_gap(s, i, gap) {
            let i = choose|i: int| is_gap(s, i, gap);
            if i < n {
                assert(is_gap(rest, i, gap));
                let k = choose|k: int| 0 <= k < before.len() && before[k] == gap;
                assert(all[k] == gap);
            } else {
                assert(all.last() == gap);
                assert(all[all.len() - 1] == gap);
            }
        }
    }
}

/// What is given as missing is missing, and nothing that is missing is left
/// out.
pub proof fn law_gaps_are_all_found(records: &[Record], r: Vec<(u64, u64)>, gap: (u64, u64))
    requires
        call_ensures(frame_gaps, (records,), r),
    ensures
        r@.contains(gap) <==> exists|i: int| is_gap(records@, i, gap),
{
    lemma_gaps(records@, gap);
}

proof fn lemma_frames_add_up(s: Seq<Record>)
    requires
        s.len() > 0,
        forall|i: int, j: int| 0 <= i < j < s.len() ==> (#[trigger] s[i]).frame < (
        #[trigger] s[j]).frame,
    ensures
        s[0].frame + s.len() - 1 + missing_in(gaps_of(s)) == s.last().frame,
        missing_in(gaps_of(s)) >= 0,
    decreases s.len(),
{
    if s.len() >= 2 {
        let rest = s.drop_last();
        lemma_frames_add_up(rest);
        let a = s[s.len() - 2].frame;
        let b = s[s.len() - 1].frame;
        assert(a < b);
        if b > a + 1 {
            let gap = (b, (b - a - 1) as u64);
            assert(gaps_of(rest).push(gap).drop_last() =~= gaps_of(rest));
        }
    }
}

/// Frames that are there and frames that are missing add up: where the counter
/// only rises, what it rose by in all is what came and what did not.
pub proof fn law_frames_add_up(
    records: &[Record],
    gaps: &[(u64, u64)],
    found: Vec<(u64, u64)>,
    total: Option<u64>,
)
    requires
        records@.len() > 0,
        forall|i: int, j: int|
            0 <= i < j < records@.len() ==> (#[trigger] records@[i]).frame < (
            #[trigger] records@[j]).frame,
        call_ensures(frame_gaps, (records,), found),
        gaps@ == found@,
        call_ensures(total_drops, (gaps,), total),
    ensures
        total matches Some(n) && records@[0].frame + (records@.len() - 1) + n
            == records@.last().frame,
{
    lemma_frames_add_up(records@);
}

/// A point is as far back as its bin started, as wide as the bin, and shows the
/// bin's own value.
pub proof fn law_points_are_those_of_the_bins(
    bins: &Vec<Bin>,
    now_ns: u64,
    series: Series,
    r: Vec<PlotPoint>,
    i: int,
)
    requires
        forall|i: int| 0 <= i < bins@.len() ==> (#[trigger] bins@[i]).start_ns <= now_ns,
        call_ensures(plot_points, (bins, now_ns, series), r),
        0 <= i < bins@.len(),
    ensures
        r@.len() == bins@.len(),
        bins@[i].start_ns + r@[i].ago_ns == now_ns,
        r@[i].width_ns == bins@[i].width_ns,
        is_shown(bins@[i].records@, series, r@[i].value),
{
    lemma_series_is_shown(bins@[i], series);
}

} // verus!
