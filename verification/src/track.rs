//! Per-track processing: stamping each event with its absolute time through
//! the tempo map, and deriving the note list by pairing each NoteOn with the
//! earliest pending NoteOff partner of the same channel and key.

use vstd::prelude::*;

use crate::events::MidiEvent;
use crate::events::MidiMessage;
use crate::events::MidiNote;
use crate::events::MidiTrack;
use crate::events::TrackEvent;
use crate::events::all_of_track;
use crate::events::events_sorted;
use crate::tempo::LoadError;
use crate::tempo::TICK_LIMIT;
use crate::tempo::TempoMap;
use crate::tempo::lemma_duration_at_monotone;

verus! {

/// Cumulative tick position of event `i`: the sum of all deltas up to and
/// including it.
pub open spec fn spec_tick_at(raw: Seq<TrackEvent>, i: int) -> int
    decreases i + 1,
{
    if i < 0 {
        0
    } else {
        spec_tick_at(raw, i - 1) + raw[i].delta
    }
}

/// Cumulative ticks never decrease along the track.
pub proof fn lemma_tick_at_monotone(raw: Seq<TrackEvent>, i: int, j: int)
    requires
        -1 <= i <= j < raw.len(),
    ensures
        spec_tick_at(raw, i) <= spec_tick_at(raw, j),
    decreases j - i,
{
    if i < j {
        lemma_tick_at_monotone(raw, i, j - 1);
    }
}

/// Cumulative ticks start at or above zero.
pub proof fn lemma_tick_at_nonneg(raw: Seq<TrackEvent>, i: int)
    requires
        i < raw.len(),
    ensures
        spec_tick_at(raw, i) >= 0,
    decreases i + 1,
{
    if i >= 0 {
        lemma_tick_at_nonneg(raw, i - 1);
    }
}

/// The time-stamped events of one track, as a function of its raw events
/// and the tempo map.
pub open spec fn spec_timestamped(raw: Seq<TrackEvent>, map: TempoMap, track_id: usize) -> Seq<
    MidiEvent,
> {
    Seq::new(
        raw.len(),
        |i: int|
            MidiEvent {
                channel: raw[i].channel,
                delta: raw[i].delta,
                timestamp: map.spec_duration(spec_tick_at(raw, i)) as u64,
                message: raw[i].message,
                track_id: track_id,
            },
    )
}

/// A NoteOn waiting for its NoteOff.
#[derive(Clone, Copy, PartialEq, Eq, Structural, Debug)]
pub struct PendingNote {
    pub channel: u8,
    pub key: u8,
    pub start: u64,
    pub velocity: u8,
}

/// Index of the earliest pending NoteOn for the channel and key, if any:
/// first-in-first-out pairing for overlapping same-key notes.
pub open spec fn spec_first_pending(pending: Seq<PendingNote>, channel: u8, key: u8) -> Option<
    int,
>
    decreases pending.len(),
{
    if pending.len() == 0 {
        None
    } else if pending[0].channel == channel && pending[0].key == key {
        Some(0)
    } else {
        match spec_first_pending(pending.drop_first(), channel, key) {
            None => None,
            Some(i) => Some(i + 1),
        }
    }
}

/// The note completed by a NoteOff at `end` for the pending NoteOn `p`.
pub open spec fn spec_completed_note(p: PendingNote, end: u64, track_id: usize) -> MidiNote {
    MidiNote {
        channel: p.channel,
        key: p.key,
        start: p.start,
        duration: (end - p.start) as u64,
        velocity: p.velocity,
        track_id: track_id,
    }
}

/// The notes derived from the events, given the NoteOns already pending:
/// each NoteOn pushes a pending entry, each NoteOff completes the earliest
/// matching one, and a NoteOn left pending at the end of the track is
/// discarded.
pub open spec fn spec_pair(
    events: Seq<MidiEvent>,
    pending: Seq<PendingNote>,
    track_id: usize,
) -> Seq<MidiNote>
    decreases events.len(),
{
    if events.len() == 0 {
        Seq::empty()
    } else {
        let e = events[0];
        match e.message {
            MidiMessage::NoteOn { key, vel } => spec_pair(
                events.drop_first(),
                pending.push(
                    PendingNote { channel: e.channel, key: key, start: e.timestamp, velocity: vel },
                ),
                track_id,
            ),
            MidiMessage::NoteOff { key, vel } => match spec_first_pending(
                pending,
                e.channel,
                key,
            ) {
                None => spec_pair(events.drop_first(), pending, track_id),
                Some(i) => seq![spec_completed_note(pending[i], e.timestamp, track_id)]
                    + spec_pair(events.drop_first(), pending.remove(i), track_id),
            },
            _ => spec_pair(events.drop_first(), pending, track_id),
        }
    }
}

/// Finding the first match behind an unmatched prefix.
proof fn lemma_first_pending_skip(pending: Seq<PendingNote>, channel: u8, key: u8, i: int)
    requires
        0 <= i <= pending.len(),
        forall|w: int|
            0 <= w < i ==> !(#[trigger] pending[w].channel == channel && pending[w].key == key),
    ensures
        spec_first_pending(pending, channel, key) == match spec_first_pending(
            pending.skip(i),
            channel,
            key,
        ) {
            None => None::<int>,
            Some(j) => Some(j + i),
        },
    decreases i,
{
    if i == 0 {
        assert(pending.skip(0) =~= pending);
    } else {
        assert(pending.len() > 0);
        lemma_first_pending_skip(pending.drop_first(), channel, key, i - 1);
        assert forall|w: int|
            0 <= w < i - 1 implies !(#[trigger] pending.drop_first()[w].channel == channel
            && pending.drop_first()[w].key == key) by {
            assert(pending.drop_first()[w] == pending[w + 1]);
        }
        assert(pending.drop_first().skip(i - 1) =~= pending.skip(i));
    }
}

/// Finds the earliest pending NoteOn of the channel and key.
fn find_pending(pending: &Vec<PendingNote>, channel: u8, key: u8) -> (r: Option<usize>)
    ensures
        match r {
            Some(i) => spec_first_pending(pending@, channel, key) == Some(i as int) && i
                < pending@.len(),
            None => spec_first_pending(pending@, channel, key) is None,
        },
{
    let mut i: usize = 0;
    while i < pending.len()
        invariant
            i <= pending@.len(),
            forall|w: int|
                0 <= w < i ==> !(#[trigger] pending@[w].channel == channel && pending@[w].key
                    == key),
        decreases pending@.len() - i,
    {
        let p = pending[i];
        if p.channel == channel && p.key == key {
            proof {
                lemma_first_pending_skip(pending@, channel, key, i as int);
                assert(pending@.skip(i as int)[0] == p);
            }
            return Some(i);
        }
        i = i + 1;
    }
    proof {
        lemma_first_pending_skip(pending@, channel, key, i as int);
        assert(pending@.skip(i as int).len() == 0);
    }
    None
}

/// Timestamp of the event before position `k`, or zero at the start.
pub open spec fn spec_ts_before(events: Seq<MidiEvent>, k: int) -> int {
    if k <= 0 {
        0
    } else {
        events[k - 1].timestamp as int
    }
}

/// Derives the note list of one track from its time-stamped events.
pub fn pair_notes(events: &Vec<MidiEvent>, track_id: usize) -> (r: Vec<MidiNote>)
    requires
        events_sorted(events@),
    ensures
        r@ == spec_pair(events@, Seq::<PendingNote>::empty(), track_id),
{
    let mut out: Vec<MidiNote> = Vec::new();
    let mut pending: Vec<PendingNote> = Vec::new();
    proof {
        assert(events@.skip(0) =~= events@);
        assert(out@ + spec_pair(events@, pending@, track_id) =~= spec_pair(
            events@,
            pending@,
            track_id,
        ));
    }
    let mut k: usize = 0;
    while k < events.len()
        invariant
            k <= events@.len(),
            events_sorted(events@),
            spec_pair(events@, Seq::<PendingNote>::empty(), track_id) == out@ + spec_pair(
                events@.skip(k as int),
                pending@,
                track_id,
            ),
            forall|i: int|
                0 <= i < pending@.len() ==> #[trigger] pending@[i].start as int <= spec_ts_before(
                    events@,
                    k as int,
                ),
        decreases events@.len() - k,
    {
        let e = events[k];
        let ghost rest = events@.skip(k as int);
        proof {
            assert(rest[0] == e);
            assert(rest.drop_first() =~= events@.skip(k as int + 1));
            if k > 0 {
                assert(events@[k as int - 1].timestamp <= events@[k as int].timestamp);
            }
        }
        match e.message {
            MidiMessage::NoteOn { key, vel } => {
                let p = PendingNote {
                    channel: e.channel,
                    key: key,
                    start: e.timestamp,
                    velocity: vel,
                };
                pending.push(p);
            },
            MidiMessage::NoteOff { key, vel: _ } => {
                let found = find_pending(&pending, e.channel, key);
                match found {
                    Some(i) => {
                        let p = pending[i];
                        let note = MidiNote {
                            channel: p.channel,
                            key: p.key,
                            start: p.start,
                            duration: e.timestamp - p.start,
                            velocity: p.velocity,
                            track_id: track_id,
                        };
                        proof {
                            assert(note == spec_completed_note(p, e.timestamp, track_id));
                            assert((out@ + seq![note]) + spec_pair(
                                rest.drop_first(),
                                pending@.remove(i as int),
                                track_id,
                            ) =~= out@ + (seq![note] + spec_pair(
                                rest.drop_first(),
                                pending@.remove(i as int),
                                track_id,
                            )));
                        }
                        out.push(note);
                        pending.remove(i);
                    },
                    None => {},
                }
            },
            _ => {},
        }
        k = k + 1;
    }
    proof {
        assert(events@.skip(k as int).len() == 0);
        assert(out@ =~= out@ + spec_pair(events@.skip(k as int), pending@, track_id));
    }
    out
}

impl MidiTrack {
    /// Builds one time-stamped track from its raw events: each event's
    /// cumulative tick position is translated into microseconds through the
    /// tempo map, and the note list is derived by pairing.  A track whose
    /// tick positions run past `TICK_LIMIT` is rejected.
    pub fn build(track_id: usize, raw: &Vec<TrackEvent>, tempo: &TempoMap) -> (r: Result<
        MidiTrack,
        LoadError,
    >)
        requires
            tempo.wf(),
        ensures
            r is Err <==> spec_tick_at(raw@, raw@.len() - 1) > TICK_LIMIT,
            r is Err ==> r == Result::<MidiTrack, LoadError>::Err(LoadError::TickOutOfRange),
            r matches Ok(t) ==> {
                &&& t.track_id == track_id
                &&& t.events@.len() == raw@.len()
                &&& events_sorted(t.events@)
                &&& all_of_track(t.events@, track_id as int)
                &&& forall|i: int|
                    0 <= i < raw@.len() ==> {
                        &&& (#[trigger] t.events@[i]).channel == raw@[i].channel
                        &&& t.events@[i].delta == raw@[i].delta
                        &&& t.events@[i].message == raw@[i].message
                        &&& t.events@[i].track_id == track_id
                        &&& t.events@[i].timestamp as int == tempo.spec_duration(
                            spec_tick_at(raw@, i),
                        )
                    }
                &&& t.events@ == spec_timestamped(raw@, *tempo, track_id)
                &&& t.notes@ == spec_pair(t.events@, Seq::<PendingNote>::empty(), track_id)
            },
    {
        let mut events: Vec<MidiEvent> = Vec::new();
        let mut tick: u64 = 0;
        let mut k: usize = 0;
        while k < raw.len()
            invariant
                k <= raw@.len(),
                tempo.wf(),
                tick as int == spec_tick_at(raw@, k as int - 1),
                tick <= TICK_LIMIT,
                events@.len() == k,
                forall|i: int|
                    0 <= i < k ==> {
                        &&& (#[trigger] events@[i]).channel == raw@[i].channel
                        &&& events@[i].delta == raw@[i].delta
                        &&& events@[i].message == raw@[i].message
                        &&& events@[i].track_id == track_id
                        &&& events@[i].timestamp as int == tempo.spec_duration(
                            spec_tick_at(raw@, i),
                        )
                    },
            decreases raw@.len() - k,
        {
            let e = raw[k];
            proof {
                lemma_tick_at_nonneg(raw@, k as int);
            }
            if e.delta > TICK_LIMIT - tick {
                proof {
                    lemma_tick_at_monotone(raw@, k as int, raw@.len() - 1);
                }
                return Err(LoadError::TickOutOfRange);
            }
            tick = tick + e.delta;
            let ts = tempo.duration_at(tick);
            events.push(
                MidiEvent {
                    channel: e.channel,
                    delta: e.delta,
                    timestamp: ts,
                    message: e.message,
                    track_id: track_id,
                },
            );
            k = k + 1;
        }
        proof {
            assert forall|i: int, j: int| 0 <= i <= j < events@.len() implies events@[i].timestamp
                <= events@[j].timestamp by {
                lemma_tick_at_nonneg(raw@, i);
                lemma_tick_at_monotone(raw@, i, j);
                lemma_tick_at_monotone(raw@, j, raw@.len() - 1);
                lemma_duration_at_monotone(
                    tempo.points@,
                    tempo.ppqn as int,
                    spec_tick_at(raw@, i),
                    spec_tick_at(raw@, j),
                );
            }
        }
        proof {
            assert forall|i: int| 0 <= i < events@.len() implies events@[i] == spec_timestamped(
                raw@,
                *tempo,
                track_id,
            )[i] by {
                lemma_tick_at_nonneg(raw@, i);
                crate::tempo::lemma_duration_at_nonneg(
                    tempo.points@,
                    tempo.ppqn as int,
                    spec_tick_at(raw@, i),
                );
            }
            assert(events@ =~= spec_timestamped(raw@, *tempo, track_id));
        }
        let notes = pair_notes(&events, track_id);
        Ok(MidiTrack { notes, events, track_id })
    }
}

} // verus!
