//! The track merger: a stable merge of all time-stamped tracks into one
//! chronologically ordered stream.
//!
//! Events are merged by timestamp; at equal timestamps an earlier track's
//! events come first, and events of one track keep their order.  The note
//! lists of the tracks are combined and ordered by start time.

use vstd::prelude::*;

use vstd::multiset::Multiset;

use crate::events::MidiEvent;
use crate::events::MidiNote;
use crate::events::MidiTrack;
use crate::events::all_of_track;
use crate::events::events_sorted;
use crate::events::notes_sorted;
use crate::events::of_track;
use crate::events::ties_by_track;

verus! {

/// The stable two-way merge by timestamp: when both heads are ready, the
/// left one goes first if its timestamp is not larger.
pub open spec fn spec_merge(a: Seq<MidiEvent>, b: Seq<MidiEvent>) -> Seq<MidiEvent>
    decreases a.len() + b.len(),
{
    if a.len() == 0 {
        b
    } else if b.len() == 0 {
        a
    } else if a[0].timestamp <= b[0].timestamp {
        seq![a[0]] + spec_merge(a.drop_first(), b)
    } else {
        seq![b[0]] + spec_merge(a, b.drop_first())
    }
}

/// The merge of two sequences has the length of both together.
pub proof fn lemma_merge_len(a: Seq<MidiEvent>, b: Seq<MidiEvent>)
    ensures
        spec_merge(a, b).len() == a.len() + b.len(),
    decreases a.len() + b.len(),
{
    if a.len() == 0 || b.len() == 0 {
    } else if a[0].timestamp <= b[0].timestamp {
        lemma_merge_len(a.drop_first(), b);
    } else {
        lemma_merge_len(a, b.drop_first());
    }
}

/// Every element of the merge is an element of one input.
pub proof fn lemma_merge_elem(a: Seq<MidiEvent>, b: Seq<MidiEvent>, k: int)
    requires
        0 <= k < spec_merge(a, b).len(),
    ensures
        (exists|i: int| 0 <= i < a.len() && spec_merge(a, b)[k] == a[i]) || (exists|j: int|
            0 <= j < b.len() && spec_merge(a, b)[k] == b[j]),
    decreases a.len() + b.len(),
{
    if a.len() == 0 || b.len() == 0 {
    } else if a[0].timestamp <= b[0].timestamp {
        if k == 0 {
            assert(spec_merge(a, b)[0] == a[0]);
        } else {
            lemma_merge_elem(a.drop_first(), b, k - 1);
            assert forall|i: int|
                0 <= i < a.drop_first().len() && spec_merge(a.drop_first(), b)[k - 1]
                    == a.drop_first()[i] implies exists|i2: int|
                0 <= i2 < a.len() && spec_merge(a, b)[k] == a[i2] by {
                assert(a.drop_first()[i] == a[i + 1]);
            }
        }
    } else {
        if k == 0 {
            assert(spec_merge(a, b)[0] == b[0]);
        } else {
            lemma_merge_elem(a, b.drop_first(), k - 1);
            assert forall|j: int|
                0 <= j < b.drop_first().len() && spec_merge(a, b.drop_first())[k - 1]
                    == b.drop_first()[j] implies exists|j2: int|
                0 <= j2 < b.len() && spec_merge(a, b)[k] == b[j2] by {
                assert(b.drop_first()[j] == b[j + 1]);
            }
        }
    }
}

/// The merge holds exactly the elements of both inputs.
pub proof fn lemma_merge_multiset(a: Seq<MidiEvent>, b: Seq<MidiEvent>)
    ensures
        spec_merge(a, b).to_multiset() == a.to_multiset().add(b.to_multiset()),
    decreases a.len() + b.len(),
{
    broadcast use vstd::seq_lib::group_to_multiset_ensures;

    if a.len() == 0 {
        assert(a.to_multiset() =~= Multiset::<MidiEvent>::empty());
        assert(spec_merge(a, b).to_multiset() =~= a.to_multiset().add(b.to_multiset()));
    } else if b.len() == 0 {
        assert(b.to_multiset() =~= Multiset::<MidiEvent>::empty());
        assert(spec_merge(a, b).to_multiset() =~= a.to_multiset().add(b.to_multiset()));
    } else if a[0].timestamp <= b[0].timestamp {
        lemma_merge_multiset(a.drop_first(), b);
        vstd::seq_lib::lemma_multiset_commutative(seq![a[0]], spec_merge(a.drop_first(), b));
        assert(seq![a[0]] =~= Seq::<MidiEvent>::empty().push(a[0]));
        vstd::seq_lib::to_multiset_build(Seq::<MidiEvent>::empty(), a[0]);
        assert(Seq::<MidiEvent>::empty().to_multiset() =~= Multiset::<MidiEvent>::empty());
        assert(a =~= Seq::<MidiEvent>::empty().push(a[0]) + a.drop_first());
        vstd::seq_lib::lemma_multiset_commutative(
            Seq::<MidiEvent>::empty().push(a[0]),
            a.drop_first(),
        );
        assert(spec_merge(a, b).to_multiset() =~= a.to_multiset().add(b.to_multiset()));
    } else {
        lemma_merge_multiset(a, b.drop_first());
        vstd::seq_lib::lemma_multiset_commutative(seq![b[0]], spec_merge(a, b.drop_first()));
        assert(seq![b[0]] =~= Seq::<MidiEvent>::empty().push(b[0]));
        vstd::seq_lib::to_multiset_build(Seq::<MidiEvent>::empty(), b[0]);
        assert(Seq::<MidiEvent>::empty().to_multiset() =~= Multiset::<MidiEvent>::empty());
        assert(b =~= Seq::<MidiEvent>::empty().push(b[0]) + b.drop_first());
        vstd::seq_lib::lemma_multiset_commutative(
            Seq::<MidiEvent>::empty().push(b[0]),
            b.drop_first(),
        );
        assert(spec_merge(a, b).to_multiset() =~= a.to_multiset().add(b.to_multiset()));
    }
}

/// A lower bound on both inputs is a lower bound on the merge.
proof fn lemma_merge_bound(a: Seq<MidiEvent>, b: Seq<MidiEvent>, t: u64)
    requires
        forall|i: int| 0 <= i < a.len() ==> t <= #[trigger] a[i].timestamp,
        forall|j: int| 0 <= j < b.len() ==> t <= #[trigger] b[j].timestamp,
    ensures
        forall|k: int| 0 <= k < spec_merge(a, b).len() ==> t <= #[trigger] spec_merge(
            a,
            b,
        )[k].timestamp,
{
    assert forall|k: int| 0 <= k < spec_merge(a, b).len() implies t <= #[trigger] spec_merge(
        a,
        b,
    )[k].timestamp by {
        lemma_merge_elem(a, b, k);
    }
}

/// Merging sorted inputs gives a sorted result.
pub proof fn lemma_merge_sorted(a: Seq<MidiEvent>, b: Seq<MidiEvent>)
    requires
        events_sorted(a),
        events_sorted(b),
    ensures
        events_sorted(spec_merge(a, b)),
    decreases a.len() + b.len(),
{
    if a.len() == 0 || b.len() == 0 {
    } else if a[0].timestamp <= b[0].timestamp {
        let rest = spec_merge(a.drop_first(), b);
        lemma_merge_sorted(a.drop_first(), b);
        lemma_merge_bound(a.drop_first(), b, a[0].timestamp);
        assert forall|i: int, j: int|
            0 <= i <= j < spec_merge(a, b).len() implies spec_merge(a, b)[i].timestamp
            <= spec_merge(a, b)[j].timestamp by {
            if i > 0 {
                assert(spec_merge(a, b)[i] == rest[i - 1]);
                assert(spec_merge(a, b)[j] == rest[j - 1]);
            } else if j > 0 {
                assert(spec_merge(a, b)[j] == rest[j - 1]);
            }
        }
    } else {
        let rest = spec_merge(a, b.drop_first());
        lemma_merge_sorted(a, b.drop_first());
        lemma_merge_bound(a, b.drop_first(), b[0].timestamp);
        assert forall|i: int, j: int|
            0 <= i <= j < spec_merge(a, b).len() implies spec_merge(a, b)[i].timestamp
            <= spec_merge(a, b)[j].timestamp by {
            if i > 0 {
                assert(spec_merge(a, b)[i] == rest[i - 1]);
                assert(spec_merge(a, b)[j] == rest[j - 1]);
            } else if j > 0 {
                assert(spec_merge(a, b)[j] == rest[j - 1]);
            }
        }
    }
}

/// The deterministic tie-break: when every left event ranks at or before
/// every right event of the same timestamp, and each input already keeps its
/// own ties in track order, so does the merge.
pub proof fn lemma_merge_ties(a: Seq<MidiEvent>, b: Seq<MidiEvent>)
    requires
        events_sorted(a),
        events_sorted(b),
        ties_by_track(a),
        ties_by_track(b),
        forall|i: int, j: int|
            0 <= i < a.len() && 0 <= j < b.len() && #[trigger] a[i].timestamp == #[trigger] b[j].timestamp
                ==> a[i].track_id <= b[j].track_id,
    ensures
        ties_by_track(spec_merge(a, b)),
    decreases a.len() + b.len(),
{
    if a.len() == 0 || b.len() == 0 {
    } else if a[0].timestamp <= b[0].timestamp {
        let rest = spec_merge(a.drop_first(), b);
        lemma_merge_ties(a.drop_first(), b);
        assert forall|i: int, j: int|
            0 <= i <= j < spec_merge(a, b).len() && spec_merge(a, b)[i].timestamp == spec_merge(
                a,
                b,
            )[j].timestamp implies spec_merge(a, b)[i].track_id <= spec_merge(
            a,
            b,
        )[j].track_id by {
            if i > 0 {
                assert(spec_merge(a, b)[i] == rest[i - 1]);
                assert(spec_merge(a, b)[j] == rest[j - 1]);
            } else if j > 0 {
                assert(spec_merge(a, b)[j] == rest[j - 1]);
                lemma_merge_elem(a.drop_first(), b, j - 1);
                if exists|w: int|
                    0 <= w < a.drop_first().len() && rest[j - 1] == a.drop_first()[w] {
                    let w = choose|w: int|
                        0 <= w < a.drop_first().len() && rest[j - 1] == a.drop_first()[w];
                    assert(a.drop_first()[w] == a[w + 1]);
                } else {
                    let w = choose|w: int| 0 <= w < b.len() && rest[j - 1] == b[w];
                }
            }
        }
    } else {
        let rest = spec_merge(a, b.drop_first());
        lemma_merge_ties(a, b.drop_first());
        assert forall|i: int, j: int|
            0 <= i <= j < spec_merge(a, b).len() && spec_merge(a, b)[i].timestamp == spec_merge(
                a,
                b,
            )[j].timestamp implies spec_merge(a, b)[i].track_id <= spec_merge(
            a,
            b,
        )[j].track_id by {
            if i > 0 {
                assert(spec_merge(a, b)[i] == rest[i - 1]);
                assert(spec_merge(a, b)[j] == rest[j - 1]);
            } else if j > 0 {
                assert(spec_merge(a, b)[j] == rest[j - 1]);
                lemma_merge_elem(a, b.drop_first(), j - 1);
                if exists|w: int| 0 <= w < a.len() && rest[j - 1] == a[w] {
                    let w = choose|w: int| 0 <= w < a.len() && rest[j - 1] == a[w];
                    // The left head was strictly later than the right head,
                    // so a left event at the same timestamp as `b[0]` cannot
                    // exist at or before it.
                    assert(a[w].timestamp >= a[0].timestamp);
                    assert(false);
                } else {
                    let w = choose|w: int|
                        0 <= w < b.drop_first().len() && rest[j - 1] == b.drop_first()[w];
                    assert(b.drop_first()[w] == b[w + 1]);
                }
            }
        }
    }
}

/// A track absent from the right input keeps exactly its left occurrences.
pub proof fn lemma_merge_of_track_left(a: Seq<MidiEvent>, b: Seq<MidiEvent>, t: int)
    requires
        forall|j: int| 0 <= j < b.len() ==> #[trigger] b[j].track_id != t,
    ensures
        of_track(spec_merge(a, b), t) == of_track(a, t),
    decreases a.len() + b.len(),
{
    if a.len() == 0 {
        lemma_of_track_none(b, t);
    } else if b.len() == 0 {
    } else if a[0].timestamp <= b[0].timestamp {
        lemma_merge_of_track_left(a.drop_first(), b, t);
        let m = spec_merge(a, b);
        assert(m.drop_first() =~= spec_merge(a.drop_first(), b));
        assert(m[0] == a[0]);
    } else {
        lemma_merge_of_track_left(a, b.drop_first(), t);
        let m = spec_merge(a, b);
        assert(m.drop_first() =~= spec_merge(a, b.drop_first()));
        assert(m[0] == b[0]);
    }
}

/// A track absent from the left input keeps exactly its right occurrences.
pub proof fn lemma_merge_of_track_right(a: Seq<MidiEvent>, b: Seq<MidiEvent>, t: int)
    requires
        forall|i: int| 0 <= i < a.len() ==> #[trigger] a[i].track_id != t,
    ensures
        of_track(spec_merge(a, b), t) == of_track(b, t),
    decreases a.len() + b.len(),
{
    if a.len() == 0 {
    } else if b.len() == 0 {
        lemma_of_track_none(a, t);
    } else if a[0].timestamp <= b[0].timestamp {
        lemma_merge_of_track_right(a.drop_first(), b, t);
        let m = spec_merge(a, b);
        assert(m.drop_first() =~= spec_merge(a.drop_first(), b));
        assert(m[0] == a[0]);
    } else {
        lemma_merge_of_track_right(a, b.drop_first(), t);
        let m = spec_merge(a, b);
        assert(m.drop_first() =~= spec_merge(a, b.drop_first()));
        assert(m[0] == b[0]);
    }
}

/// A sequence that lacks a track contributes nothing to its restriction.
pub proof fn lemma_of_track_none(s: Seq<MidiEvent>, t: int)
    requires
        forall|i: int| 0 <= i < s.len() ==> #[trigger] s[i].track_id != t,
    ensures
        of_track(s, t) == Seq::<MidiEvent>::empty(),
    decreases s.len(),
{
    if s.len() > 0 {
        assert forall|i: int| 0 <= i < s.drop_first().len() implies #[trigger] s.drop_first()[i].track_id
            != t by {
            assert(s.drop_first()[i] == s[i + 1]);
        }
        lemma_of_track_none(s.drop_first(), t);
    }
}

/// A sequence wholly of one track is its own restriction to that track.
pub proof fn lemma_of_track_all(s: Seq<MidiEvent>, t: int)
    requires
        all_of_track(s, t),
    ensures
        of_track(s, t) == s,
    decreases s.len(),
{
    if s.len() > 0 {
        assert forall|i: int| 0 <= i < s.drop_first().len() implies #[trigger] s.drop_first()[i].track_id
            == t by {
            assert(s.drop_first()[i] == s[i + 1]);
        }
        lemma_of_track_all(s.drop_first(), t);
        assert(of_track(s, t) =~= s);
    }
}

/// Merges two timestamp-ordered event lists into one.
pub fn merge_pair(a: &Vec<MidiEvent>, b: &Vec<MidiEvent>) -> (r: Vec<MidiEvent>)
    ensures
        r@ == spec_merge(a@, b@),
{
    let mut r: Vec<MidiEvent> = Vec::new();
    let mut i: usize = 0;
    let mut j: usize = 0;
    proof {
        assert(a@.skip(0) =~= a@);
        assert(b@.skip(0) =~= b@);
        assert(r@ + spec_merge(a@, b@) =~= spec_merge(a@, b@));
    }
    while i < a.len() || j < b.len()
        invariant
            i <= a@.len(),
            j <= b@.len(),
            spec_merge(a@, b@) == r@ + spec_merge(a@.skip(i as int), b@.skip(j as int)),
        decreases a@.len() - i + b@.len() - j,
    {
        let ghost ra = a@.skip(i as int);
        let ghost rb = b@.skip(j as int);
        if j == b.len() || (i < a.len() && a[i].timestamp <= b[j].timestamp) {
            let e = a[i];
            proof {
                assert(ra[0] == e);
                assert(ra.drop_first() =~= a@.skip(i as int + 1));
                if rb.len() == 0 {
                    assert(spec_merge(ra, rb) =~= seq![e] + spec_merge(ra.drop_first(), rb));
                }
                assert((r@ + seq![e]) + spec_merge(a@.skip(i as int + 1), rb) =~= r@ + (seq![e]
                    + spec_merge(a@.skip(i as int + 1), rb)));
            }
            r.push(e);
            i = i + 1;
        } else {
            let e = b[j];
            proof {
                assert(rb[0] == e);
                assert(rb.drop_first() =~= b@.skip(j as int + 1));
                if ra.len() == 0 {
                    assert(spec_merge(ra, rb) == rb);
                    assert(rb =~= seq![e] + b@.skip(j as int + 1));
                    assert(spec_merge(ra, b@.skip(j as int + 1)) == b@.skip(j as int + 1));
                }
                assert((r@ + seq![e]) + spec_merge(ra, b@.skip(j as int + 1)) =~= r@ + (seq![e]
                    + spec_merge(ra, b@.skip(j as int + 1))));
            }
            r.push(e);
            j = j + 1;
        }
    }
    proof {
        assert(a@.skip(i as int).len() == 0);
        assert(b@.skip(j as int).len() == 0);
        assert(r@ =~= r@ + spec_merge(a@.skip(i as int), b@.skip(j as int)));
    }
    r
}

/// Orders notes by start time; the result holds exactly the input notes.
pub fn sort_notes(notes: &Vec<MidiNote>) -> (r: Vec<MidiNote>)
    ensures
        notes_sorted(r@),
        r@.to_multiset() == notes@.to_multiset(),
{
    let mut out: Vec<MidiNote> = Vec::new();
    proof {
        assert(notes@.take(0) =~= Seq::<MidiNote>::empty());
        assert(out@.to_multiset() =~= notes@.take(0).to_multiset());
    }
    let mut k: usize = 0;
    while k < notes.len()
        invariant
            k <= notes@.len(),
            notes_sorted(out@),
            out@.to_multiset() == notes@.take(k as int).to_multiset(),
        decreases notes@.len() - k,
    {
        let x = notes[k];
        let ghost prev = out@;
        let mut pos: usize = 0;
        while pos < out.len() && out[pos].start <= x.start
            invariant
                pos <= out@.len(),
                out@ == prev,
                forall|w: int| 0 <= w < pos ==> #[trigger] out@[w].start <= x.start,
            decreases out@.len() - pos,
        {
            pos = pos + 1;
        }
        out.insert(pos, x);
        proof {
            assert forall|i: int, j: int| 0 <= i <= j < out@.len() implies out@[i].start
                <= out@[j].start by {
                if i < pos && j >= pos {
                    if j > pos {
                        assert(out@[j] == prev[j - 1]);
                        assert(prev[pos as int].start > x.start);
                        assert(prev[j - 1].start >= prev[pos as int].start);
                    }
                } else if i == pos {
                    if j > pos {
                        assert(out@[j] == prev[j - 1]);
                        assert(prev[pos as int].start > x.start);
                        assert(prev[j - 1].start >= prev[pos as int].start);
                    }
                } else if i > pos {
                    assert(out@[i] == prev[i - 1]);
                    assert(out@[j] == prev[j - 1]);
                }
            }
            vstd::seq_lib::to_multiset_insert(prev, pos as int, x);
            vstd::seq_lib::to_multiset_build(notes@.take(k as int), x);
            assert(notes@.take(k as int).push(x) =~= notes@.take(k as int + 1));
        }
        k = k + 1;
    }
    proof {
        assert(notes@.take(notes@.len() as int) =~= notes@);
    }
    out
}

/// Orders events by timestamp, keeping the given order at equal timestamps;
/// the result holds exactly the input events.
pub fn sort_events(events: &Vec<MidiEvent>) -> (r: Vec<MidiEvent>)
    ensures
        events_sorted(r@),
        r@.to_multiset() == events@.to_multiset(),
{
    let mut out: Vec<MidiEvent> = Vec::new();
    proof {
        assert(events@.take(0) =~= Seq::<MidiEvent>::empty());
        assert(out@.to_multiset() =~= events@.take(0).to_multiset());
    }
    let mut k: usize = 0;
    while k < events.len()
        invariant
            k <= events@.len(),
            events_sorted(out@),
            out@.to_multiset() == events@.take(k as int).to_multiset(),
        decreases events@.len() - k,
    {
        let x = events[k];
        let ghost prev = out@;
        let mut pos: usize = 0;
        while pos < out.len() && out[pos].timestamp <= x.timestamp
            invariant
                pos <= out@.len(),
                out@ == prev,
                forall|w: int| 0 <= w < pos ==> #[trigger] out@[w].timestamp <= x.timestamp,
            decreases out@.len() - pos,
        {
            pos = pos + 1;
        }
        out.insert(pos, x);
        proof {
            assert forall|i: int, j: int| 0 <= i <= j < out@.len() implies out@[i].timestamp
                <= out@[j].timestamp by {
                if i < pos && j >= pos {
                    if j > pos {
                        assert(out@[j] == prev[j - 1]);
                        assert(prev[pos as int].timestamp > x.timestamp);
                        assert(prev[j - 1].timestamp >= prev[pos as int].timestamp);
                    }
                } else if i == pos {
                    if j > pos {
                        assert(out@[j] == prev[j - 1]);
                        assert(prev[pos as int].timestamp > x.timestamp);
                        assert(prev[j - 1].timestamp >= prev[pos as int].timestamp);
                    }
                } else if i > pos {
                    assert(out@[i] == prev[i - 1]);
                    assert(out@[j] == prev[j - 1]);
                }
            }
            vstd::seq_lib::to_multiset_insert(prev, pos as int, x);
            vstd::seq_lib::to_multiset_build(events@.take(k as int), x);
            assert(events@.take(k as int).push(x) =~= events@.take(k as int + 1));
        }
        k = k + 1;
    }
    proof {
        assert(events@.take(events@.len() as int) =~= events@);
    }
    out
}

/// The note lists of the first `k` tracks, in track order.
pub open spec fn spec_concat_notes(tracks: Seq<MidiTrack>, k: int) -> Seq<MidiNote>
    decreases k,
{
    if k <= 0 {
        Seq::empty()
    } else {
        spec_concat_notes(tracks, k - 1) + tracks[k - 1].notes@
    }
}

/// Merges the time-stamped tracks into the one timeline the playback cursor
/// consumes: events in timestamp order with ties broken by source track and
/// original in-track order kept, and all notes ordered by start time.
pub fn merge(tracks: &Vec<MidiTrack>) -> (r: MidiTrack)
    requires
        forall|t: int|
            0 <= t < tracks@.len() ==> events_sorted(#[trigger] tracks@[t].events@),
        forall|t: int|
            0 <= t < tracks@.len() ==> all_of_track(#[trigger] tracks@[t].events@, t),
    ensures
        events_sorted(r.events@),
        ties_by_track(r.events@),
        forall|t: int|
            0 <= t < tracks@.len() ==> of_track(r.events@, t) == #[trigger] tracks@[t].events@,
        forall|i: int|
            0 <= i < r.events@.len() ==> 0 <= #[trigger] r.events@[i].track_id < tracks@.len(),
        notes_sorted(r.notes@),
        r.notes@.to_multiset() == spec_concat_notes(tracks@, tracks@.len() as int).to_multiset(),
        r.track_id == 0,
{
    let mut events: Vec<MidiEvent> = Vec::new();
    let mut notes: Vec<MidiNote> = Vec::new();
    proof {
        assert(spec_concat_notes(tracks@, 0) =~= Seq::<MidiNote>::empty());
        assert(notes@.to_multiset() =~= spec_concat_notes(tracks@, 0).to_multiset());
    }
    let mut k: usize = 0;
    while k < tracks.len()
        invariant
            k <= tracks@.len(),
            forall|t: int|
                0 <= t < tracks@.len() ==> events_sorted(#[trigger] tracks@[t].events@),
            forall|t: int|
                0 <= t < tracks@.len() ==> all_of_track(#[trigger] tracks@[t].events@, t),
            events_sorted(events@),
            ties_by_track(events@),
            forall|i: int|
                0 <= i < events@.len() ==> 0 <= #[trigger] events@[i].track_id < k,
            forall|t: int|
                0 <= t < k ==> of_track(events@, t) == #[trigger] tracks@[t].events@,
            notes@.to_multiset() == spec_concat_notes(tracks@, k as int).to_multiset(),
        decreases tracks@.len() - k,
    {
        let ghost prev = events@;
        let track = &tracks[k];
        let merged = merge_pair(&events, &track.events);
        proof {
            lemma_merge_sorted(prev, track.events@);
            lemma_merge_ties(prev, track.events@);
            lemma_merge_len(prev, track.events@);
            assert forall|i: int| 0 <= i < merged@.len() implies 0 <= #[trigger] merged@[
                i
            ].track_id < k + 1 by {
                lemma_merge_elem(prev, track.events@, i);
            }
            assert forall|t: int| 0 <= t < k + 1 implies of_track(merged@, t)
                == #[trigger] tracks@[t].events@ by {
                if t < k {
                    lemma_merge_of_track_left(prev, track.events@, t);
                } else {
                    lemma_merge_of_track_right(prev, track.events@, t);
                    lemma_of_track_all(track.events@, t);
                }
            }
        }
        events = merged;
        let ghost prev_notes = notes@;
        let mut j: usize = 0;
        while j < track.notes.len()
            invariant
                j <= track.notes@.len(),
                notes@ == prev_notes + track.notes@.take(j as int),
            decreases track.notes@.len() - j,
        {
            notes.push(track.notes[j]);
            proof {
                assert(prev_notes + track.notes@.take(j as int + 1) =~= (prev_notes
                    + track.notes@.take(j as int)).push(track.notes@[j as int]));
            }
            j = j + 1;
        }
        proof {
            assert(track.notes@.take(track.notes@.len() as int) =~= track.notes@);
            assert(notes@ == prev_notes + track.notes@);
            vstd::seq_lib::lemma_multiset_commutative(prev_notes, track.notes@);
            vstd::seq_lib::lemma_multiset_commutative(
                spec_concat_notes(tracks@, k as int),
                track.notes@,
            );
        }
        k = k + 1;
    }
    let sorted_notes = sort_notes(&notes);
    MidiTrack { notes: sorted_notes, events, track_id: 0 }
}

} // verus!
