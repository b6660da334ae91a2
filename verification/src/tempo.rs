//! The tempo map: an ordered table of tempo changes that translates tick
//! positions into absolute microsecond timestamps.
//!
//! A map is built once per file from its tempo-change meta events and is
//! immutable afterwards.  `duration_at` is the core numeric operation: it
//! finds the governing tempo segment by binary search, adds the elapsed time
//! of all complete segments before it, and converts the partial segment with
//! wide-enough integer arithmetic so the result is exact.

use vstd::prelude::*;

use vstd::arithmetic::div_mod::lemma_div_basics;
use vstd::arithmetic::div_mod::lemma_div_is_ordered;
use vstd::arithmetic::div_mod::lemma_div_is_ordered_by_denominator;
use vstd::arithmetic::div_mod::lemma_div_pos_is_pos;
use vstd::arithmetic::mul::lemma_mul_inequality;

verus! {

/// Largest tick position the map accepts.  Cumulative tick counts of real
/// files stay far below this; the bound keeps every intermediate product of
/// `duration_at` inside `u64`.
pub const TICK_LIMIT: u64 = 0x100_0000_0000;

/// Largest representable tempo value: the tempo field of a MIDI file is a
/// 24-bit quantity of microseconds per quarter note.
pub const MAX_TEMPO: u32 = 0xFF_FFFF;

/// 120 beats per minute, the tempo assumed before the first tempo change.
pub const DEFAULT_TEMPO: u32 = 500_000;

/// One tempo change: from `tick` on, a quarter note lasts
/// `microseconds_per_quarter` microseconds.
#[derive(Clone, Copy, PartialEq, Eq, Structural, Debug)]
pub struct TempoPoint {
    pub tick: u64,
    pub microseconds_per_quarter: u32,
}

/// Microseconds spanned by `ticks` ticks at a fixed tempo.
pub open spec fn seg_micros(ticks: int, tempo: int, ppqn: int) -> int {
    ticks * tempo / ppqn
}

/// The points are strictly increasing in tick, and every field is inside the
/// range the arithmetic of `duration_at` relies on.
pub open spec fn points_ordered(points: Seq<TempoPoint>) -> bool {
    &&& forall|i: int, j: int| 0 <= i < j < points.len() ==> points[i].tick < points[j].tick
    &&& forall|i: int|
        0 <= i < points.len() ==> 1 <= #[trigger] points[i].microseconds_per_quarter <= MAX_TEMPO
    &&& forall|i: int| 0 <= i < points.len() ==> #[trigger] points[i].tick <= TICK_LIMIT
}

/// Absolute time of `tick`, in microseconds: the elapsed time of every
/// complete tempo segment before it, plus the partial segment it falls in.
/// Meaningful when `points_ordered` holds and `points[0].tick <= tick`.
pub open spec fn spec_duration_at(points: Seq<TempoPoint>, ppqn: int, tick: int) -> int
    decreases points.len(),
{
    if points.len() == 0 {
        0
    } else if points.len() == 1 || tick < points[1].tick {
        seg_micros(tick - points[0].tick, points[0].microseconds_per_quarter as int, ppqn)
    } else {
        seg_micros(
            points[1].tick - points[0].tick,
            points[0].microseconds_per_quarter as int,
            ppqn,
        ) + spec_duration_at(points.drop_first(), ppqn, tick)
    }
}

/// Dropping the first point keeps the sequence ordered.
proof fn lemma_ordered_drop_first(points: Seq<TempoPoint>)
    requires
        points.len() >= 1,
        points_ordered(points),
    ensures
        points_ordered(points.drop_first()),
{
    assert forall|i: int, j: int|
        0 <= i < j < points.drop_first().len() implies points.drop_first()[i].tick
        < points.drop_first()[j].tick by {
        assert(points[i + 1].tick < points[j + 1].tick);
    }
}

/// A segment of zero ticks spans zero time.
proof fn lemma_seg_zero(tempo: int, ppqn: int)
    requires
        ppqn >= 1,
    ensures
        seg_micros(0, tempo, ppqn) == 0,
{
    assert(0 * tempo == 0);
    lemma_div_basics(ppqn);
}

/// More ticks at the same tempo never span less time.
proof fn lemma_seg_monotone(t1: int, t2: int, tempo: int, ppqn: int)
    requires
        t1 <= t2,
        tempo >= 0,
        ppqn >= 1,
    ensures
        seg_micros(t1, tempo, ppqn) <= seg_micros(t2, tempo, ppqn),
{
    lemma_mul_inequality(t1, t2, tempo);
    lemma_div_is_ordered(t1 * tempo, t2 * tempo, ppqn);
}

/// A segment spans at most `ticks * tempo` microseconds.
proof fn lemma_seg_upper(ticks: int, tempo: int, ppqn: int)
    requires
        0 <= ticks,
        0 <= tempo,
        ppqn >= 1,
    ensures
        0 <= seg_micros(ticks, tempo, ppqn) <= ticks * tempo,
{
    vstd::arithmetic::mul::lemma_mul_nonnegative(ticks, tempo);
    lemma_div_pos_is_pos(ticks * tempo, ppqn);
    lemma_div_is_ordered_by_denominator(ticks * tempo, 1, ppqn);
    lemma_div_basics(1);
}

/// `spec_duration_at` never goes below zero.
pub proof fn lemma_duration_at_nonneg(points: Seq<TempoPoint>, ppqn: int, tick: int)
    requires
        points_ordered(points),
        ppqn >= 1,
        points.len() >= 1,
        points[0].tick <= tick,
    ensures
        spec_duration_at(points, ppqn, tick) >= 0,
    decreases points.len(),
{
    if points.len() == 1 || tick < points[1].tick {
        lemma_seg_upper(tick - points[0].tick, points[0].microseconds_per_quarter as int, ppqn);
    } else {
        lemma_seg_upper(
            points[1].tick - points[0].tick,
            points[0].microseconds_per_quarter as int,
            ppqn,
        );
        lemma_ordered_drop_first(points);
        lemma_duration_at_nonneg(points.drop_first(), ppqn, tick);
    }
}

/// `spec_duration_at` is bounded by the span of ticks at the largest tempo.
pub proof fn lemma_duration_at_upper(points: Seq<TempoPoint>, ppqn: int, tick: int)
    requires
        points_ordered(points),
        ppqn >= 1,
        points.len() >= 1,
        points[0].tick <= tick,
    ensures
        spec_duration_at(points, ppqn, tick) <= (tick - points[0].tick) * (MAX_TEMPO as int),
    decreases points.len(),
{
    let t0 = points[0].microseconds_per_quarter as int;
    let m = MAX_TEMPO as int;
    if points.len() == 1 || tick < points[1].tick {
        let d = tick - points[0].tick;
        lemma_seg_upper(d, t0, ppqn);
        lemma_mul_inequality(t0, m, d);
        vstd::arithmetic::mul::lemma_mul_is_commutative(d, t0);
        vstd::arithmetic::mul::lemma_mul_is_commutative(d, m);
    } else {
        let d1 = points[1].tick - points[0].tick;
        let d2 = tick - points[1].tick;
        lemma_seg_upper(d1, t0, ppqn);
        lemma_mul_inequality(t0, m, d1);
        vstd::arithmetic::mul::lemma_mul_is_commutative(d1, t0);
        vstd::arithmetic::mul::lemma_mul_is_commutative(d1, m);
        lemma_ordered_drop_first(points);
        lemma_duration_at_upper(points.drop_first(), ppqn, tick);
        vstd::arithmetic::mul::lemma_mul_is_distributive_add_other_way(m, d1, d2);
    }
}

/// For a tick inside segment `i`, the absolute time is the time at the
/// segment's start plus the partial segment.
proof fn lemma_duration_at_segment(points: Seq<TempoPoint>, ppqn: int, i: int, tick: int)
    requires
        points_ordered(points),
        ppqn >= 1,
        0 <= i < points.len(),
        points[i].tick <= tick,
        i + 1 < points.len() ==> tick < points[i + 1].tick,
    ensures
        spec_duration_at(points, ppqn, tick) == spec_duration_at(points, ppqn, points[i].tick as int)
            + seg_micros(
            tick - points[i].tick,
            points[i].microseconds_per_quarter as int,
            ppqn,
        ),
    decreases i,
{
    let t0 = points[0].microseconds_per_quarter as int;
    if i == 0 {
        lemma_seg_zero(t0, ppqn);
    } else {
        lemma_ordered_drop_first(points);
        lemma_duration_at_segment(points.drop_first(), ppqn, i - 1, tick);
        assert(points[1].tick <= points[i].tick);
        lemma_seg_zero(t0, ppqn);
    }
}

/// The absolute time of a segment boundary is the time at the previous
/// boundary plus the complete segment between them.
proof fn lemma_base_step(points: Seq<TempoPoint>, ppqn: int, i: int)
    requires
        points_ordered(points),
        ppqn >= 1,
        0 <= i,
        i + 1 < points.len(),
    ensures
        spec_duration_at(points, ppqn, points[i + 1].tick as int) == spec_duration_at(
            points,
            ppqn,
            points[i].tick as int,
        ) + seg_micros(
            points[i + 1].tick - points[i].tick,
            points[i].microseconds_per_quarter as int,
            ppqn,
        ),
    decreases i,
{
    let t0 = points[0].microseconds_per_quarter as int;
    let rest = points.drop_first();
    if i == 0 {
        lemma_seg_zero(t0, ppqn);
        lemma_seg_zero(points[1].microseconds_per_quarter as int, ppqn);
        if points.len() > 2 {
            assert(points[1].tick < points[2].tick);
        }
        assert(spec_duration_at(points, ppqn, points[1].tick as int) == seg_micros(
            points[1].tick - points[0].tick,
            t0,
            ppqn,
        ) + spec_duration_at(rest, ppqn, points[1].tick as int));
        assert(rest[0] == points[1]);
        assert(spec_duration_at(rest, ppqn, points[1].tick as int) == 0);
        assert(spec_duration_at(points, ppqn, points[0].tick as int) == 0);
    } else {
        lemma_ordered_drop_first(points);
        lemma_base_step(rest, ppqn, i - 1);
        assert(points[1].tick <= points[i].tick);
        assert(rest[i - 1] == points[i]);
        assert(rest[i] == points[i + 1]);
        assert(spec_duration_at(points, ppqn, points[i + 1].tick as int) == seg_micros(
            points[1].tick - points[0].tick,
            t0,
            ppqn,
        ) + spec_duration_at(rest, ppqn, points[i + 1].tick as int));
        assert(spec_duration_at(points, ppqn, points[i].tick as int) == seg_micros(
            points[1].tick - points[0].tick,
            t0,
            ppqn,
        ) + spec_duration_at(rest, ppqn, points[i].tick as int));
    }
}

/// Why a file's timing data cannot be loaded.
#[derive(Clone, Copy, PartialEq, Eq, Structural, Debug)]
pub enum LoadError {
    /// The file's pulses-per-quarter-note constant was zero.
    ZeroPulsesPerQuarter,
    /// A tempo change had a zero tempo or one beyond the 24-bit range.
    TempoOutOfRange,
    /// A tick position beyond `TICK_LIMIT`.
    TickOutOfRange,
}

/// The tempo point's fields are inside the accepted ranges.
pub open spec fn point_in_range(p: TempoPoint) -> bool {
    &&& 1 <= p.microseconds_per_quarter <= MAX_TEMPO
    &&& p.tick <= TICK_LIMIT
}

/// The error reported for the first out-of-range tempo point, if any:
/// an out-of-range tempo is reported before an out-of-range tick.
pub open spec fn spec_points_error(input: Seq<TempoPoint>) -> Option<LoadError>
    decreases input.len(),
{
    if input.len() == 0 {
        None
    } else if input[0].microseconds_per_quarter == 0 || input[0].microseconds_per_quarter
        > MAX_TEMPO {
        Some(LoadError::TempoOutOfRange)
    } else if input[0].tick > TICK_LIMIT {
        Some(LoadError::TickOutOfRange)
    } else {
        spec_points_error(input.drop_first())
    }
}

/// Some point of the sequence sits at tick `t`.
pub open spec fn has_tick(s: Seq<TempoPoint>, t: u64) -> bool {
    exists|i: int| 0 <= i < s.len() && #[trigger] s[i].tick == t
}

/// The tempo of the last point of the sequence that sits at tick `t`
/// (meaningful when `has_tick(s, t)`).
pub open spec fn spec_last_tempo(s: Seq<TempoPoint>, t: u64) -> u32
    decreases s.len(),
{
    if s.len() == 0 {
        DEFAULT_TEMPO
    } else if s.last().tick == t {
        s.last().microseconds_per_quarter
    } else {
        spec_last_tempo(s.drop_last(), t)
    }
}

/// A clean sequence has every point in range.
proof fn lemma_points_clean(input: Seq<TempoPoint>)
    requires
        spec_points_error(input) is None,
    ensures
        forall|i: int| 0 <= i < input.len() ==> point_in_range(#[trigger] input[i]),
    decreases input.len(),
{
    if input.len() > 0 {
        lemma_points_clean(input.drop_first());
        assert forall|i: int| 0 <= i < input.len() implies point_in_range(#[trigger] input[i]) by {
            if i > 0 {
                assert(input.drop_first()[i - 1] == input[i]);
            }
        }
    }
}

/// The tempo table of one file: tempo points ordered by tick, the
/// precomputed absolute time of each point, and the file's pulses per
/// quarter note.
pub struct TempoMap {
    pub points: Vec<TempoPoint>,
    pub bases: Vec<u64>,
    pub ppqn: u16,
}

impl TempoMap {
    /// Well-formedness: the table is ordered, starts at tick 0, and each
    /// cached base time is the exact absolute time of its point.
    pub open spec fn wf(self) -> bool {
        &&& points_ordered(self.points@)
        &&& self.points@.len() >= 1
        &&& self.points@[0].tick == 0
        &&& self.ppqn >= 1
        &&& self.bases@.len() == self.points@.len()
        &&& forall|i: int|
            0 <= i < self.points@.len() ==> #[trigger] self.bases@[i] as int == spec_duration_at(
                self.points@,
                self.ppqn as int,
                self.points@[i].tick as int,
            )
    }

    /// The absolute time this map assigns to a tick.
    pub open spec fn spec_duration(self, tick: int) -> int {
        spec_duration_at(self.points@, self.ppqn as int, tick)
    }

    /// The file's pulses per quarter note.
    pub fn ppqn(&self) -> (r: u16)
        ensures
            r == self.ppqn,
    {
        self.ppqn
    }

    /// Absolute time of `tick` in microseconds: binary search for the last
    /// tempo point at or before `tick`, then its cached base time plus the
    /// partial segment, computed exactly in 64-bit integers.
    pub fn duration_at(&self, tick: u64) -> (r: u64)
        requires
            self.wf(),
            tick <= TICK_LIMIT,
        ensures
            r as int == self.spec_duration(tick as int),
    {
        let mut lo: usize = 0;
        let mut hi: usize = self.points.len();
        while lo + 1 < hi
            invariant
                self.wf(),
                tick <= TICK_LIMIT,
                lo < hi <= self.points@.len(),
                self.points@[lo as int].tick <= tick,
                hi < self.points@.len() ==> self.points@[hi as int].tick > tick,
            decreases hi - lo,
        {
            let mid = lo + (hi - lo) / 2;
            if self.points[mid].tick <= tick {
                lo = mid;
            } else {
                hi = mid;
            }
        }
        let p = self.points[lo];
        let base = self.bases[lo];
        let delta = tick - p.tick;
        proof {
            let pts = self.points@;
            let pp = self.ppqn as int;
            let m = MAX_TEMPO as int;
            lemma_duration_at_segment(pts, pp, lo as int, tick as int);
            lemma_duration_at_nonneg(pts, pp, p.tick as int);
            lemma_duration_at_upper(pts, pp, p.tick as int);
            lemma_seg_upper(delta as int, p.microseconds_per_quarter as int, pp);
            vstd::arithmetic::mul::lemma_mul_upper_bound(
                delta as int,
                TICK_LIMIT as int,
                p.microseconds_per_quarter as int,
                m,
            );
            lemma_mul_inequality(
                p.microseconds_per_quarter as int,
                m,
                delta as int,
            );
            vstd::arithmetic::mul::lemma_mul_is_commutative(delta as int, m);
            vstd::arithmetic::mul::lemma_mul_is_commutative(
                delta as int,
                p.microseconds_per_quarter as int,
            );
            vstd::arithmetic::mul::lemma_mul_is_distributive_add_other_way(
                m,
                p.tick as int,
                delta as int,
            );
            lemma_mul_inequality(tick as int, TICK_LIMIT as int, m);
        }
        let num = delta * (p.microseconds_per_quarter as u64);
        let add = num / (self.ppqn as u64);
        base + add
    }
}

/// Finds the first out-of-range point, in input order.
fn check_points(input: &Vec<TempoPoint>) -> (r: Option<LoadError>)
    ensures
        r == spec_points_error(input@),
{
    proof {
        assert(input@.skip(0) =~= input@);
    }
    let mut k: usize = 0;
    while k < input.len()
        invariant
            k <= input@.len(),
            spec_points_error(input@) == spec_points_error(input@.skip(k as int)),
            forall|i: int| 0 <= i < k ==> point_in_range(#[trigger] input@[i]),
        decreases input@.len() - k,
    {
        let p = input[k];
        proof {
            assert(input@.skip(k as int)[0] == p);
            assert(input@.skip(k as int).drop_first() =~= input@.skip(k as int + 1));
        }
        if p.microseconds_per_quarter == 0 || p.microseconds_per_quarter > MAX_TEMPO {
            return Some(LoadError::TempoOutOfRange);
        }
        if p.tick > TICK_LIMIT {
            return Some(LoadError::TickOutOfRange);
        }
        k = k + 1;
    }
    None
}

/// Inserts a tempo point into a table ordered strictly by tick; a point
/// already sitting at the same tick is replaced, so a later change at a
/// repeated tick wins.
#[verifier::rlimit(50)]
fn insert_point(points: &mut Vec<TempoPoint>, p: TempoPoint)
    requires
        points_ordered(old(points)@),
        point_in_range(p),
    ensures
        points_ordered(final(points)@),
        has_tick(final(points)@, p.tick),
        forall|i: int|
            0 <= i < final(points)@.len() && #[trigger] final(points)@[i].tick == p.tick
                ==> final(points)@[i] == p,
        forall|i: int|
            0 <= i < final(points)@.len() ==> #[trigger] final(points)@[i] == p
                || (exists|j: int|
                    0 <= j < old(points)@.len() && old(points)@[j] == final(points)@[i]
                        && old(points)@[j].tick != p.tick),
        forall|j: int|
            0 <= j < old(points)@.len() && #[trigger] old(points)@[j].tick != p.tick
                ==> (exists|i: int|
                    0 <= i < final(points)@.len() && final(points)@[i] == old(points)@[j]),
{
    let mut idx: usize = 0;
    while idx < points.len() && points[idx].tick < p.tick
        invariant
            idx <= points@.len(),
            points_ordered(points@),
            points@ == old(points)@,
            forall|k: int| 0 <= k < idx ==> #[trigger] points@[k].tick < p.tick,
        decreases points@.len() - idx,
    {
        idx = idx + 1;
    }
    if idx < points.len() && points[idx].tick == p.tick {
        points[idx] = p;
        proof {
            assert(final(points)@ == old(points)@.update(idx as int, p));
            assert(final(points)@[idx as int].tick == p.tick);
            assert forall|j: int|
                0 <= j < old(points)@.len() && #[trigger] old(points)@[j].tick
                    != p.tick implies exists|i: int|
                0 <= i < final(points)@.len() && final(points)@[i] == old(points)@[j] by {
                assert(final(points)@[j] == old(points)@[j]);
            }
        }
    } else {
        points.insert(idx, p);
        proof {
            let new = final(points)@;
            let oldv = old(points)@;
            assert forall|i: int, j: int| 0 <= i < j < new.len() implies new[i].tick
                < new[j].tick by {
                if j < idx {
                } else if i < idx && j == idx {
                } else if i == idx && j > idx {
                    assert(new[j] == oldv[j - 1]);
                    assert(oldv[j - 1].tick >= oldv[idx as int].tick);
                } else if i > idx {
                    assert(new[i] == oldv[i - 1]);
                    assert(new[j] == oldv[j - 1]);
                } else if i < idx && j > idx {
                    assert(new[i] == oldv[i]);
                    assert(new[j] == oldv[j - 1]);
                    assert(oldv[j - 1].tick >= oldv[idx as int].tick);
                }
            }
            assert(new[idx as int].tick == p.tick);
            assert forall|j: int|
                0 <= j < oldv.len() && #[trigger] oldv[j].tick != p.tick implies exists|i: int|
                0 <= i < new.len() && new[i] == oldv[j] by {
                if j < idx {
                    assert(new[j] == oldv[j]);
                } else {
                    assert(new[j + 1] == oldv[j]);
                }
            }
            assert forall|i: int| 0 <= i < new.len() implies #[trigger] new[i] == p || (exists|
                j: int,
            | 0 <= j < oldv.len() && oldv[j] == new[i] && oldv[j].tick != p.tick) by {
                if i < idx {
                    assert(oldv[i] == new[i]);
                    assert(oldv[i].tick < p.tick);
                } else if i > idx {
                    assert(oldv[i - 1] == new[i]);
                    assert(oldv[i - 1].tick >= oldv[idx as int].tick);
                    if oldv[i - 1].tick == p.tick {
                        assert(oldv[idx as int].tick <= p.tick);
                        assert(false);
                    }
                }
            }
        }
    }
}

/// Precomputes the absolute time of every tempo point.
fn compute_bases(points: &Vec<TempoPoint>, ppqn: u16) -> (r: Vec<u64>)
    requires
        points_ordered(points@),
        points@.len() >= 1,
        points@[0].tick == 0,
        ppqn >= 1,
    ensures
        r@.len() == points@.len(),
        forall|i: int|
            0 <= i < points@.len() ==> #[trigger] r@[i] as int == spec_duration_at(
                points@,
                ppqn as int,
                points@[i].tick as int,
            ),
{
    let mut bases: Vec<u64> = Vec::new();
    proof {
        lemma_seg_zero(points@[0].microseconds_per_quarter as int, ppqn as int);
    }
    bases.push(0u64);
    let mut i: usize = 1;
    while i < points.len()
        invariant
            points_ordered(points@),
            points@.len() >= 1,
            points@[0].tick == 0,
            ppqn >= 1,
            1 <= i <= points@.len(),
            bases@.len() == i,
            forall|k: int|
                0 <= k < i ==> #[trigger] bases@[k] as int == spec_duration_at(
                    points@,
                    ppqn as int,
                    points@[k].tick as int,
                ),
        decreases points@.len() - i,
    {
        let p = points[i - 1];
        let q = points[i];
        let delta = q.tick - p.tick;
        proof {
            let pts = points@;
            let pp = ppqn as int;
            let m = MAX_TEMPO as int;
            lemma_base_step(pts, pp, i as int - 1);
            lemma_duration_at_nonneg(pts, pp, p.tick as int);
            lemma_duration_at_upper(pts, pp, p.tick as int);
            lemma_seg_upper(delta as int, p.microseconds_per_quarter as int, pp);
            vstd::arithmetic::mul::lemma_mul_upper_bound(
                delta as int,
                TICK_LIMIT as int,
                p.microseconds_per_quarter as int,
                m,
            );
            lemma_mul_inequality(p.microseconds_per_quarter as int, m, delta as int);
            vstd::arithmetic::mul::lemma_mul_is_commutative(delta as int, m);
            vstd::arithmetic::mul::lemma_mul_is_commutative(
                delta as int,
                p.microseconds_per_quarter as int,
            );
            vstd::arithmetic::mul::lemma_mul_is_distributive_add_other_way(
                m,
                p.tick as int,
                delta as int,
            );
            lemma_mul_inequality(q.tick as int, TICK_LIMIT as int, m);
        }
        let seg = delta * (p.microseconds_per_quarter as u64) / (ppqn as u64);
        let b = bases[i - 1] + seg;
        bases.push(b);
        i = i + 1;
    }
    bases
}

/// Orders and deduplicates in-range tempo points — the last change at a
/// repeated tick wins — and supplies the implicit 120 BPM point at tick 0
/// when none is given.
#[verifier::rlimit(100)]
#[verifier::spinoff_prover]
fn normalized_points(changes: &Vec<TempoPoint>) -> (pts: Vec<TempoPoint>)
    requires
        forall|i: int| 0 <= i < changes@.len() ==> point_in_range(#[trigger] changes@[i]),
    ensures
        points_ordered(pts@),
        pts@.len() >= 1,
        pts@[0].tick == 0,
        forall|i: int| 0 <= i < pts@.len() ==> point_in_range(#[trigger] pts@[i]),
        forall|j: int|
            0 <= j < changes@.len() ==> has_tick(pts@, #[trigger] changes@[j].tick),
        forall|i: int|
            0 <= i < pts@.len() && has_tick(changes@, #[trigger] pts@[i].tick) ==> pts@[
                i
            ].microseconds_per_quarter == spec_last_tempo(changes@, pts@[i].tick),
        forall|i: int|
            0 <= i < pts@.len() && !has_tick(changes@, #[trigger] pts@[i].tick) ==> pts@[i].tick
                == 0 && pts@[i].microseconds_per_quarter == DEFAULT_TEMPO,
{
        let input = changes;
        let mut pts: Vec<TempoPoint> = Vec::new();
        let mut k: usize = 0;
        while k < input.len()
            invariant
                k <= input@.len(),
                points_ordered(pts@),
                forall|i: int| 0 <= i < input@.len() ==> point_in_range(#[trigger] input@[i]),
                forall|i: int| 0 <= i < pts@.len() ==> point_in_range(#[trigger] pts@[i]),
                forall|i: int|
                    0 <= i < pts@.len() ==> has_tick(
                        input@.take(k as int),
                        #[trigger] pts@[i].tick,
                    ),
                forall|j: int|
                    0 <= j < k ==> has_tick(pts@, #[trigger] input@[j].tick),
                forall|i: int|
                    0 <= i < pts@.len() ==> #[trigger] pts@[i].microseconds_per_quarter
                        == spec_last_tempo(input@.take(k as int), pts@[i].tick),
            decreases input@.len() - k,
        {
            let p = input[k];
            let ghost prev = pts@;
            insert_point(&mut pts, p);
            proof {
                let taken = input@.take(k as int);
                let taken1 = input@.take(k as int + 1);
                assert(taken1.drop_last() =~= taken);
                assert(taken1.last() == p);
                assert(spec_last_tempo(taken1, p.tick) == p.microseconds_per_quarter);
                assert forall|t: u64| spec_last_tempo(taken1, t) == spec_last_tempo(taken, t)
                    || t == p.tick by {}
                assert forall|i: int| 0 <= i < pts@.len() implies has_tick(
                    taken1,
                    #[trigger] pts@[i].tick,
                ) by {
                    if pts@[i] == p {
                        assert(taken1[k as int].tick == p.tick);
                    } else {
                        let j = choose|j: int|
                            0 <= j < prev.len() && prev[j] == pts@[i] && prev[j].tick != p.tick;
                        let w = choose|w: int|
                            0 <= w < taken.len() && #[trigger] taken[w].tick == prev[j].tick;
                        assert(taken1[w].tick == pts@[i].tick);
                    }
                }
                assert forall|j: int| 0 <= j < k + 1 implies has_tick(
                    pts@,
                    #[trigger] input@[j].tick,
                ) by {
                    if j == k {
                        assert(has_tick(pts@, p.tick));
                    } else if input@[j].tick == p.tick {
                        assert(has_tick(pts@, p.tick));
                    } else {
                        let w = choose|w: int|
                            0 <= w < prev.len() && #[trigger] prev[w].tick == input@[j].tick;
                        let i = choose|i: int|
                            0 <= i < pts@.len() && pts@[i] == prev[w];
                        assert(pts@[i].tick == input@[j].tick);
                    }
                }
                assert forall|i: int|
                    0 <= i < pts@.len() implies #[trigger] pts@[i].microseconds_per_quarter
                    == spec_last_tempo(taken1, pts@[i].tick) by {
                    if pts@[i].tick == p.tick {
                        assert(pts@[i] == p);
                    } else {
                        let j = choose|j: int|
                            0 <= j < prev.len() && prev[j] == pts@[i] && prev[j].tick != p.tick;
                        assert(prev[j].microseconds_per_quarter == spec_last_tempo(
                            taken,
                            prev[j].tick,
                        ));
                    }
                }
                assert forall|i: int| 0 <= i < pts@.len() implies point_in_range(
                    #[trigger] pts@[i],
                ) by {
                    if pts@[i] != p {
                        let j = choose|j: int|
                            0 <= j < prev.len() && prev[j] == pts@[i] && prev[j].tick != p.tick;
                    }
                }
            }
            k = k + 1;
        }
        proof {
            assert(input@.take(input@.len() as int) =~= input@);
        }
        if pts.len() == 0 || pts[0].tick != 0 {
            let ghost prev = pts@;
            proof {
                // If the file had a point at tick 0 it would sit at the
                // front of the ordered table.
                if has_tick(input@, 0) {
                    let j = choose|j: int|
                        0 <= j < input@.len() && #[trigger] input@[j].tick == 0;
                    let w = choose|w: int|
                        0 <= w < prev.len() && #[trigger] prev[w].tick == 0;
                    assert(prev[0].tick <= prev[w].tick);
                    assert(false);
                }
            }
            let p0 = TempoPoint { tick: 0, microseconds_per_quarter: DEFAULT_TEMPO };
            insert_point(&mut pts, p0);
            proof {
                assert forall|i: int| 0 <= i < pts@.len() && has_tick(
                    input@,
                    #[trigger] pts@[i].tick,
                ) implies pts@[i].microseconds_per_quarter == spec_last_tempo(
                    input@,
                    pts@[i].tick,
                ) by {
                    assert(pts@[i].tick != 0);
                    let j = choose|j: int|
                        0 <= j < prev.len() && prev[j] == pts@[i] && prev[j].tick != 0;
                }
                assert forall|i: int| 0 <= i < pts@.len() && !has_tick(
                    input@,
                    #[trigger] pts@[i].tick,
                ) implies pts@[i].tick == 0 && pts@[i].microseconds_per_quarter
                    == DEFAULT_TEMPO by {
                    if pts@[i] != p0 {
                        let j = choose|j: int|
                            0 <= j < prev.len() && prev[j] == pts@[i] && prev[j].tick != 0;
                        let w = choose|w: int|
                            0 <= w < input@.len() && #[trigger] input@[w].tick == prev[j].tick;
                        assert(false);
                    }
                }
                assert forall|j: int| 0 <= j < input@.len() implies has_tick(
                    pts@,
                    #[trigger] input@[j].tick,
                ) by {
                    let w = choose|w: int|
                        0 <= w < prev.len() && #[trigger] prev[w].tick == input@[j].tick;
                    let i = choose|i: int|
                        0 <= i < pts@.len() && pts@[i] == prev[w];
                    assert(pts@[i].tick == input@[j].tick);
                }
                assert forall|i: int| 0 <= i < pts@.len() implies point_in_range(
                    #[trigger] pts@[i],
                ) by {
                    if pts@[i] != p0 {
                        let j = choose|j: int|
                            0 <= j < prev.len() && prev[j] == pts@[i] && prev[j].tick != 0;
                    }
                }
                // Tick 0 is present, and the least tick sits first.
                let w = choose|w: int| 0 <= w < pts@.len() && #[trigger] pts@[w].tick == 0;
                assert(pts@[0].tick <= pts@[w].tick);
            }
        }
    // Tick 0 is present, and the least tick sits first.
    proof {
        let w = choose|w: int| 0 <= w < pts@.len() && #[trigger] pts@[w].tick == 0;
        if pts@[0].tick != 0 {
            assert(pts@[0].tick < pts@[w].tick);
            assert(false);
        }
    }
    pts
}

impl TempoMap {
    /// Builds the tempo map of a file from its tempo-change events.
    ///
    /// Out-of-range input is rejected with the error of the first offending
    /// value.  Accepted points are ordered and deduplicated by tick — the
    /// last change at a repeated tick wins — and the implicit 120 BPM point
    /// at tick 0 is supplied when the file defines none, so every map has
    /// a governing tempo from tick 0 on.
    pub fn build(tempo_changes: &Vec<TempoPoint>, pulses_per_quarter_note: u16) -> (r: Result<
        TempoMap,
        LoadError,
    >)
        ensures
            r is Err <==> (pulses_per_quarter_note == 0 || spec_points_error(tempo_changes@)
                is Some),
            pulses_per_quarter_note == 0 ==> r == Result::<TempoMap, LoadError>::Err(
                LoadError::ZeroPulsesPerQuarter,
            ),
            pulses_per_quarter_note != 0 && spec_points_error(tempo_changes@) is Some ==> r
                == Result::<TempoMap, LoadError>::Err(spec_points_error(tempo_changes@)->Some_0),
            r matches Ok(map) ==> map.wf() && map.ppqn == pulses_per_quarter_note,
            r matches Ok(map) ==> forall|j: int|
                0 <= j < tempo_changes@.len() ==> has_tick(
                    map.points@,
                    #[trigger] tempo_changes@[j].tick,
                ),
            r matches Ok(map) ==> forall|i: int|
                0 <= i < map.points@.len() && has_tick(
                    tempo_changes@,
                    #[trigger] map.points@[i].tick,
                ) ==> map.points@[i].microseconds_per_quarter == spec_last_tempo(
                    tempo_changes@,
                    map.points@[i].tick,
                ),
            r matches Ok(map) ==> forall|i: int|
                0 <= i < map.points@.len() && !has_tick(
                    tempo_changes@,
                    #[trigger] map.points@[i].tick,
                ) ==> map.points@[i].tick == 0 && map.points@[i].microseconds_per_quarter
                    == DEFAULT_TEMPO,
    {
        if pulses_per_quarter_note == 0 {
            return Err(LoadError::ZeroPulsesPerQuarter);
        }
        if let Some(e) = check_points(tempo_changes) {
            return Err(e);
        }
        proof {
            lemma_points_clean(tempo_changes@);
        }
        let pts = normalized_points(tempo_changes);
        let bases = compute_bases(&pts, pulses_per_quarter_note);
        Ok(TempoMap { points: pts, bases, ppqn: pulses_per_quarter_note })
    }
}

/// Later ticks never map to earlier times.
pub proof fn lemma_duration_at_monotone(points: Seq<TempoPoint>, ppqn: int, a: int, b: int)
    requires
        points_ordered(points),
        ppqn >= 1,
        points.len() >= 1,
        points[0].tick <= a <= b,
    ensures
        spec_duration_at(points, ppqn, a) <= spec_duration_at(points, ppqn, b),
    decreases points.len(),
{
    let t0 = points[0].microseconds_per_quarter as int;
    if points.len() == 1 || b < points[1].tick {
        lemma_seg_monotone(a - points[0].tick, b - points[0].tick, t0, ppqn);
    } else if a >= points[1].tick {
        lemma_ordered_drop_first(points);
        lemma_duration_at_monotone(points.drop_first(), ppqn, a, b);
    } else {
        // `a` lies in the first segment while `b` lies beyond it.
        let d1 = points[1].tick - points[0].tick;
        lemma_seg_monotone(a - points[0].tick, d1, t0, ppqn);
        lemma_ordered_drop_first(points);
        lemma_duration_at_nonneg(points.drop_first(), ppqn, b);
    }
}

} // verus!
