//! How long frames take, over the last few seconds.
use std::collections::VecDeque;

use vstd::prelude::*;

use crate::sorting::{is_sorted_order, key_views, places, sorted_order, KeyView, SortKey};
use crate::text::{concat3, decimal, decimal_of};

verus! {

/// How many frames are remembered: a few seconds at the rate of a phone.
pub const DEFAULT_CAPACITY: usize = 256;

/// The figures of the remembered frames, in nanoseconds.
#[derive(Clone, Copy, Debug, PartialEq, Eq, Structural)]
pub struct StatsSnapshot {
    /// The time of all the frames together.
    pub total: u128,
    /// The frame in the middle, by its length.
    pub p50: u64,
    /// The frame that only one in a hundred exceeds.
    pub p99: u64,
    /// How many frames took longer than they may.
    pub dropped: usize,
    pub samples: usize,
}

/// The lengths of the last frames, in nanoseconds.
#[derive(Debug)]
pub struct FrameStats {
    pub budget: u64,
    pub cap: usize,
    pub samples: VecDeque<u64>,
}

/// The time of all the frames together.
pub open spec fn total_of(samples: Seq<u64>) -> int
    decreases samples.len(),
{
    if samples.len() == 0 {
        0
    } else {
        total_of(samples.drop_last()) + samples.last()
    }
}

/// How many of the frames took longer than `budget`.
pub open spec fn over_budget(samples: Seq<u64>, budget: u64) -> int
    decreases samples.len(),
{
    if samples.len() == 0 {
        0
    } else {
        over_budget(samples.drop_last(), budget) + if samples.last() > budget {
            1int
        } else {
            0
        }
    }
}

/// What frames are sorted by.
pub open spec fn length_key(dt: u64) -> KeyView {
    KeyView { number: dt, first: Seq::empty(), second: Seq::empty() }
}

pub open spec fn length_keys(samples: Seq<u64>) -> Seq<KeyView> {
    samples.map_values(|dt: u64| length_key(dt))
}

/// Whether `v` stands at place `k` of the frames sorted by their lengths.
pub open spec fn is_ranked(samples: Seq<u64>, k: int, v: u64) -> bool {
    exists|order: Seq<int>| #[trigger]
        is_sorted_order(length_keys(samples), order) && 0 <= k < order.len() && v
            == samples[order[k]]
}

/// The place of a percentage among `n` sorted frames: the nearest place, the
/// later one of two that are equally near.
pub open spec fn rank_of(percent: int, n: int) -> int {
    (percent * (n - 1) + 50) / 100
}

/// The frames after another one: the oldest makes room.
pub open spec fn recorded(samples: Seq<u64>, cap: usize, dt: u64) -> Seq<u64> {
    if samples.len() == cap && samples.len() > 0 {
        samples.skip(1).push(dt)
    } else {
        samples.push(dt)
    }
}

impl FrameStats {
    pub fn new(budget: u64) -> (r: Self)
        ensures
            r.budget == budget,
            r.cap == DEFAULT_CAPACITY,
            r.samples@ == Seq::<u64>::empty(),
    {
        Self::with_capacity(budget, DEFAULT_CAPACITY)
    }

    pub fn with_capacity(budget: u64, cap: usize) -> (r: Self)
        ensures
            r.budget == budget,
            r.cap == cap,
            r.samples@ == Seq::<u64>::empty(),
    {
        FrameStats { budget, cap, samples: VecDeque::new() }
    }

    /// A frame took `dt`.
    pub fn record_frame(&mut self, dt: u64)
        ensures
            final(self).budget == old(self).budget,
            final(self).cap == old(self).cap,
            final(self).samples@ == recorded(old(self).samples@, old(self).cap, dt),
    {
        let ghost was = self.samples@;
        if self.samples.len() == self.cap {
            let _ = self.samples.pop_front();
        }
        self.samples.push_back(dt);
        proof {
            if was.len() == self.cap && was.len() > 0 {
                assert(was.subrange(1, was.len() as int) =~= was.skip(1));
            }
        }
    }

    pub fn len(&self) -> (r: usize)
        ensures
            r == self.samples@.len(),
    {
        self.samples.len()
    }

    pub fn is_empty(&self) -> (r: bool)
        ensures
            r == (self.samples@.len() == 0),
    {
        self.samples.len() == 0
    }

    /// Whether `s` holds the figures of the remembered frames.
    pub open spec fn has_figures(self, s: StatsSnapshot) -> bool {
        let n = self.samples@.len() as int;
        if n == 0 {
            s == (StatsSnapshot { total: 0, p50: 0, p99: 0, dropped: 0, samples: 0 })
        } else {
            &&& s.total == total_of(self.samples@)
            &&& is_ranked(self.samples@, rank_of(50, n), s.p50)
            &&& is_ranked(self.samples@, rank_of(99, n), s.p99)
            &&& s.dropped == over_budget(self.samples@, self.budget)
            &&& s.samples == n
        }
    }

    /// The figures of the remembered frames; all zero when there are none.
    pub fn snapshot(&self) -> (s: StatsSnapshot)
        ensures
            self.has_figures(s),
    {
        let n: usize = self.samples.len();
        if n == 0 {
            return StatsSnapshot { total: 0, p50: 0, p99: 0, dropped: 0, samples: 0 };
        }
        let mut keys: Vec<SortKey> = Vec::new();
        let mut total: u128 = 0;
        let mut dropped: usize = 0;
        let mut i: usize = 0;
        while i < n
            invariant
                i <= n,
                n == self.samples@.len(),
                keys.len() == i,
                forall|k: int| 0 <= k < i ==> (#[trigger] keys@[k])@ == length_key(self.samples@[k]),
                total == total_of(self.samples@.take(i as int)),
                total <= i * 0xffff_ffff_ffff_ffff,
                dropped == over_budget(self.samples@.take(i as int), self.budget),
                dropped <= i,
            decreases n - i,
        {
            let dt: u64 = self.samples[i];
            proof {
                assert(self.samples@.take(i + 1).drop_last() =~= self.samples@.take(i as int));
                assert(self.samples@.take(i + 1).last() == dt);
                assert(i * 0xffff_ffff_ffff_ffff + 0xffff_ffff_ffff_ffff
                    <= 0xffff_ffff_ffff_ffff_ffff_ffff_ffff_ffff) by (nonlinear_arith)
                    requires
                        i < 0x1_0000_0000_0000_0000,
                        i + 1 <= 0xffff_ffff_ffff_ffff,
                ;
            }
            keys.push(SortKey { number: dt, first: String::new(), second: String::new() });
            total = total + dt as u128;
            if dt > self.budget {
                dropped = dropped + 1;
            }
            i = i + 1;
        }
        proof {
            assert(self.samples@.take(n as int) =~= self.samples@);
            assert(key_views(keys@) =~= length_keys(self.samples@));
        }
        let order: Vec<usize> = sorted_order(&keys);
        let mid: usize = ((50 * (n as u128 - 1) + 50) / 100) as usize;
        let high: usize = ((99 * (n as u128 - 1) + 50) / 100) as usize;
        proof {
            let ranks = places(order@);
            assert(is_sorted_order(length_keys(self.samples@), ranks));
            assert(0 <= ranks[mid as int] < length_keys(self.samples@).len());
            assert(0 <= ranks[high as int] < length_keys(self.samples@).len());
            assert(ranks[mid as int] == order@[mid as int]);
            assert(ranks[high as int] == order@[high as int]);
        }
        let mid_at: usize = order[mid];
        let high_at: usize = order[high];
        let p50: u64 = self.samples[mid_at];
        let p99: u64 = self.samples[high_at];
        proof {
            assert(is_ranked(self.samples@, rank_of(50, n as int), p50));
            assert(is_ranked(self.samples@, rank_of(99, n as int), p99));
        }
        StatsSnapshot { total, p50, p99, dropped, samples: n }
    }

    /// One line of figures for the log. `fps`, `p50_ms` and `p99_ms` are the
    /// rates as the caller wrote them.
    pub fn format_line(&self, fps: &str, p50_ms: &str, p99_ms: &str) -> (out: String)
        ensures
            out@ == line_of(
                fps@,
                p50_ms@,
                p99_ms@,
                over_budget(self.samples@, self.budget) as nat,
                self.samples@.len(),
            ),
    {
        let s: StatsSnapshot = self.snapshot();
        let mut out: String = concat3("fps=", fps, " p50=");
        out.append(p50_ms);
        out.append("ms p99=");
        out.append(p99_ms);
        out.append("ms dropped=");
        out.append(decimal_of(s.dropped as u64).as_str());
        out.append(" n=");
        out.append(decimal_of(s.samples as u64).as_str());
        out
    }
}

/// One line of figures. The three rates come written.
pub open spec fn line_of(
    fps: Seq<char>,
    p50_ms: Seq<char>,
    p99_ms: Seq<char>,
    dropped: nat,
    samples: nat,
) -> Seq<char> {
    "fps="@ + fps + " p50="@ + p50_ms + "ms p99="@ + p99_ms + "ms dropped="@ + decimal(dropped)
        + " n="@ + decimal(samples)
}

/// The memory is bounded: it never holds more frames than it was made for.
pub proof fn law_memory_is_bounded(samples: Seq<u64>, cap: usize, dt: u64)
    requires
        cap > 0,
        samples.len() <= cap,
    ensures
        recorded(samples, cap, dt).len() <= cap,
        recorded(samples, cap, dt).last() == dt,
{
}

/// The figures are decided: two frames of the same rank have the same length.
pub proof fn law_rank_is_decided(samples: Seq<u64>, k: int, a: u64, b: u64)
    requires
        is_ranked(samples, k, a),
        is_ranked(samples, k, b),
    ensures
        a == b,
{
    let keys = length_keys(samples);
    let x = choose|order: Seq<int>| #[trigger]
        is_sorted_order(keys, order) && 0 <= k < order.len() && a == samples[order[k]];
    let y = choose|order: Seq<int>| #[trigger]
        is_sorted_order(keys, order) && 0 <= k < order.len() && b == samples[order[k]];
    crate::sorting::law_sorted_keys_are_decided(keys, x, y, k);
    assert(keys[x[k]] == length_key(samples[x[k]]));
    assert(keys[y[k]] == length_key(samples[y[k]]));
}

/// The newest frame is remembered, and a full memory forgets the oldest: the
/// frames keep their order.
pub proof fn law_oldest_frame_makes_room(stats: &mut FrameStats, dt: u64)
    requires
        call_ensures(FrameStats::record_frame, (stats, dt), ()),
        old(stats).samples@.len() <= old(stats).cap,
        old(stats).cap > 0,
    ensures
        final(stats).samples@.last() == dt,
        old(stats).samples@.len() < old(stats).cap ==> final(stats).samples@.drop_last()
            == old(stats).samples@,
        old(stats).samples@.len() == old(stats).cap ==> final(stats).samples@.drop_last()
            == old(stats).samples@.drop_first() && final(stats).samples@.len() == old(stats).cap,
{
    let was = old(stats).samples@;
    if was.len() == old(stats).cap {
        assert(final(stats).samples@.drop_last() =~= was.drop_first());
    } else {
        assert(final(stats).samples@.drop_last() =~= was);
    }
}

/// The frames that took too long are those longer than they may be.
proof fn lemma_over_budget(samples: Seq<u64>, budget: u64)
    ensures
        over_budget(samples, budget) == samples.filter(|dt: u64| dt > budget).len(),
    decreases samples.len(),
{
    reveal(Seq::filter);
    if samples.len() > 0 {
        lemma_over_budget(samples.drop_last(), budget);
    }
}

/// The sum of the frames is that of any two parts of them.
proof fn lemma_total_of_parts(a: Seq<u64>, b: Seq<u64>)
    ensures
        total_of(a + b) == total_of(a) + total_of(b),
    decreases b.len(),
{
    if b.len() > 0 {
        assert((a + b).drop_last() =~= a + b.drop_last());
        assert((a + b).last() == b.last());
        lemma_total_of_parts(a, b.drop_last());
    } else {
        assert(a + b =~= a);
    }
}

/// The figures count every frame and those over the budget, and name the frame in
/// the middle and the one that a hundredth exceeds, by rank.
pub proof fn law_figures_rank_the_frames(stats: FrameStats, s: StatsSnapshot, half: int, high: int)
    requires
        call_ensures(FrameStats::snapshot, (&stats,), s),
        stats.samples@.len() > 0,
        stats.samples@.len() - 1 <= 2 * half <= stats.samples@.len(),
        -50 < 100 * high - 99 * (stats.samples@.len() - 1) <= 50,
    ensures
        s.samples == stats.samples@.len(),
        s.dropped == stats.samples@.filter(|dt: u64| dt > stats.budget).len(),
        is_ranked(stats.samples@, half, s.p50),
        is_ranked(stats.samples@, high, s.p99),
        s.p50 <= s.p99,
{
    let n = stats.samples@.len() as int;
    lemma_over_budget(stats.samples@, stats.budget);
    assert(rank_of(50, n) == half);
    assert(rank_of(99, n) == high);
    law_rank_grows(stats.samples@, half, high, s.p50, s.p99);
}

/// A frame of a higher rank is not shorter.
pub proof fn law_rank_grows(samples: Seq<u64>, j: int, k: int, a: u64, b: u64)
    requires
        is_ranked(samples, j, a),
        is_ranked(samples, k, b),
        j <= k,
    ensures
        a <= b,
{
    let keys = length_keys(samples);
    let x = choose|order: Seq<int>| #[trigger]
        is_sorted_order(keys, order) && 0 <= j < order.len() && a == samples[order[j]];
    let y = choose|order: Seq<int>| #[trigger]
        is_sorted_order(keys, order) && 0 <= k < order.len() && b == samples[order[k]];
    crate::sorting::law_sorted_keys_are_decided(keys, x, y, k);
    assert(keys[x[k]] == length_key(samples[x[k]]));
    assert(keys[y[k]] == length_key(samples[y[k]]));
    assert(keys[x[j]] == length_key(samples[x[j]]));
    if j < k {
        assert(!crate::sorting::goes_before(keys[x[k]], keys[x[j]]));
    }
}

/// The time of all frames together is that of the parts.
pub proof fn law_total_is_the_sum(stats: FrameStats, s: StatsSnapshot, a: Seq<u64>, dt: u64, b: Seq<u64>)
    requires
        call_ensures(FrameStats::snapshot, (&stats,), s),
        stats.samples@ == a + seq![dt] + b,
    ensures
        s.total == total_of(a) + dt + total_of(b),
{
    lemma_total_of_parts(a + seq![dt], b);
    lemma_total_of_parts(a, seq![dt]);
    assert(seq![dt].drop_last() =~= Seq::<u64>::empty());
    assert(total_of(seq![dt]) == total_of(Seq::<u64>::empty()) + dt);
}

/// Without frames all figures are nought.
pub proof fn law_no_frames_no_figures(stats: FrameStats, s: StatsSnapshot)
    requires
        call_ensures(FrameStats::snapshot, (&stats,), s),
        stats.samples@.len() == 0,
    ensures
        s.total == 0 && s.p50 == 0 && s.p99 == 0 && s.dropped == 0 && s.samples == 0,
{
}

/// The line names each figure before it gives it.
pub proof fn law_line_names_the_figures(stats: FrameStats, fps: &str, p50_ms: &str, p99_ms: &str, out: String)
    requires
        call_ensures(FrameStats::format_line, (&stats, fps, p50_ms, p99_ms), out),
    ensures
        out@ == "fps="@ + fps@ + " p50="@ + p50_ms@ + "ms p99="@ + p99_ms@ + "ms dropped="@ + decimal(
            stats.samples@.filter(|dt: u64| dt > stats.budget).len(),
        ) + " n="@ + decimal(stats.samples@.len()),
{
    lemma_over_budget(stats.samples@, stats.budget);
}

/// Frames are counted one by one up to the most that are remembered; what a frame
/// may take, and how many are remembered, stay as they were made.
pub proof fn law_frames_are_counted(
    budget: u64,
    cap: usize,
    fresh: FrameStats,
    stats: &mut FrameStats,
    dt: u64,
    before: usize,
    after: usize,
    none: bool,
)
    requires
        call_ensures(FrameStats::with_capacity, (budget, cap), fresh),
        call_ensures(FrameStats::len, (old(stats),), before),
        call_ensures(FrameStats::record_frame, (stats, dt), ()),
        call_ensures(FrameStats::len, (final(stats),), after),
        call_ensures(FrameStats::is_empty, (final(stats),), none),
        old(stats).samples@.len() <= old(stats).cap,
        old(stats).cap > 0,
    ensures
        fresh.budget == budget && fresh.cap == cap && fresh.samples@.len() == 0,
        final(stats).budget == old(stats).budget,
        final(stats).cap == old(stats).cap,
        before < old(stats).cap ==> after == before + 1,
        before == old(stats).cap ==> after == before,
        none <==> after == 0,
        !none,
{
    law_oldest_frame_makes_room(stats, dt);
}

} // verus!
