//! The playback scheduler: a clock cursor over the merged timeline that
//! emits each event exactly once as its timestamp is passed, supports
//! arbitrary seeks by binary search, and tracks the currently sounding
//! notes so that a pause or seek can silence them all.

use vstd::prelude::*;

use crate::events::MidiEvent;
use crate::events::MidiMessage;
use crate::events::MidiTrack;
use crate::events::events_sorted;

verus! {

/// The set of currently sounding (channel, key) pairs.  A set, not a
/// multiset: a duplicate NoteOn is idempotent, so downstream hears one note.
pub struct ActiveNoteSet {
    pub entries: Vec<(u8, u8)>,
}

/// The entries that remain when the first occurrence of `e` is removed.
pub open spec fn spec_remove_entry(s: Seq<(u8, u8)>, e: (u8, u8)) -> Seq<(u8, u8)>
    decreases s.len(),
{
    if s.len() == 0 {
        s
    } else if s[0] == e {
        s.drop_first()
    } else {
        seq![s[0]] + spec_remove_entry(s.drop_first(), e)
    }
}

impl ActiveNoteSet {
    /// No pair occurs twice.
    pub open spec fn wf(self) -> bool {
        forall|i: int, j: int|
            0 <= i < j < self.entries@.len() ==> self.entries@[i] != self.entries@[j]
    }

    /// Creates an empty set.
    pub fn new() -> (r: ActiveNoteSet)
        ensures
            r.entries@ == Seq::<(u8, u8)>::empty(),
            r.wf(),
    {
        ActiveNoteSet { entries: Vec::new() }
    }

    /// How many notes are sounding.
    pub fn len(&self) -> (r: usize)
        ensures
            r == self.entries@.len(),
    {
        self.entries.len()
    }

    /// Whether the pair is sounding.
    pub fn contains(&self, channel: u8, key: u8) -> (r: bool)
        ensures
            r == self.entries@.contains((channel, key)),
    {
        let mut i: usize = 0;
        while i < self.entries.len()
            invariant
                i <= self.entries@.len(),
                forall|w: int| 0 <= w < i ==> self.entries@[w] != (channel, key),
            decreases self.entries@.len() - i,
        {
            let e = self.entries[i];
            if e.0 == channel && e.1 == key {
                assert(self.entries@[i as int] == (channel, key));
                return true;
            }
            i = i + 1;
        }
        assert(forall|w: int| 0 <= w < self.entries@.len() ==> self.entries@[w] != (channel, key));
        false
    }

    /// Starts a note sounding; a pair already present is left alone.
    pub fn insert(&mut self, channel: u8, key: u8)
        requires
            old(self).wf(),
        ensures
            final(self).wf(),
            final(self).entries@ == (if old(self).entries@.contains((channel, key)) {
                old(self).entries@
            } else {
                old(self).entries@.push((channel, key))
            }),
    {
        if !self.contains(channel, key) {
            let ghost prev = self.entries@;
            self.entries.push((channel, key));
            proof {
                assert forall|i: int, j: int|
                    0 <= i < j < self.entries@.len() implies self.entries@[i]
                    != self.entries@[j] by {
                    if j == prev.len() {
                        assert(self.entries@[i] == prev[i]);
                        assert(!prev.contains((channel, key)));
                    }
                }
            }
        }
    }

    /// Stops a note sounding; a pair not present is left alone.
    pub fn remove(&mut self, channel: u8, key: u8)
        requires
            old(self).wf(),
        ensures
            final(self).wf(),
            final(self).entries@ == spec_remove_entry(old(self).entries@, (channel, key)),
    {
        let ghost prev = self.entries@;
        let mut i: usize = 0;
        while i < self.entries.len()
            invariant
                i <= self.entries@.len(),
                self.entries@ == prev,
                prev == old(self).entries@,
                forall|a: int, b: int| 0 <= a < b < prev.len() ==> prev[a] != prev[b],
                forall|w: int| 0 <= w < i ==> self.entries@[w] != (channel, key),
            decreases self.entries@.len() - i,
        {
            let e = self.entries[i];
            if e.0 == channel && e.1 == key {
                self.entries.remove(i);
                proof {
                    lemma_remove_entry_at(prev, (channel, key), i as int);
                    assert forall|a: int, b: int|
                        0 <= a < b < self.entries@.len() implies self.entries@[a]
                        != self.entries@[b] by {
                        if b < i {
                        } else if a < i {
                            assert(self.entries@[b] == prev[b + 1]);
                        } else {
                            assert(self.entries@[a] == prev[a + 1]);
                            assert(self.entries@[b] == prev[b + 1]);
                        }
                    }
                }
                return ;
            }
            i = i + 1;
        }
        proof {
            lemma_remove_entry_absent(prev, (channel, key));
        }
    }

    /// The sounding pairs, in insertion order.
    pub fn iter(&self) -> (r: Vec<(u8, u8)>)
        ensures
            r@ == self.entries@,
    {
        let mut r: Vec<(u8, u8)> = Vec::new();
        let mut i: usize = 0;
        while i < self.entries.len()
            invariant
                i <= self.entries@.len(),
                r@ == self.entries@.take(i as int),
            decreases self.entries@.len() - i,
        {
            r.push(self.entries[i]);
            proof {
                assert(self.entries@.take(i as int).push(self.entries@[i as int])
                    =~= self.entries@.take(i as int + 1));
            }
            i = i + 1;
        }
        proof {
            assert(self.entries@.take(self.entries@.len() as int) =~= self.entries@);
        }
        r
    }
}

/// Removing a pair that sits at position `i`, with none before it, drops
/// exactly that position.
proof fn lemma_remove_entry_at(s: Seq<(u8, u8)>, e: (u8, u8), i: int)
    requires
        0 <= i < s.len(),
        s[i] == e,
        forall|w: int| 0 <= w < i ==> s[w] != e,
    ensures
        spec_remove_entry(s, e) == s.remove(i),
    decreases i,
{
    if i == 0 {
        assert(s.remove(0) =~= s.drop_first());
    } else {
        assert forall|w: int| 0 <= w < i - 1 implies s.drop_first()[w] != e by {
            assert(s.drop_first()[w] == s[w + 1]);
        }
        lemma_remove_entry_at(s.drop_first(), e, i - 1);
        assert(spec_remove_entry(s, e) == seq![s[0]] + s.drop_first().remove(i - 1));
        assert(seq![s[0]] + s.drop_first().remove(i - 1) =~= s.remove(i));
    }
}

/// Removing a pair that is not present changes nothing.
proof fn lemma_remove_entry_absent(s: Seq<(u8, u8)>, e: (u8, u8))
    requires
        forall|w: int| 0 <= w < s.len() ==> s[w] != e,
    ensures
        spec_remove_entry(s, e) == s,
    decreases s.len(),
{
    if s.len() > 0 {
        assert forall|w: int| 0 <= w < s.drop_first().len() implies s.drop_first()[w] != e by {
            assert(s.drop_first()[w] == s[w + 1]);
        }
        lemma_remove_entry_absent(s.drop_first(), e);
        assert(seq![s[0]] + s.drop_first() =~= s);
    }
}

/// An event is reached once the cursor time covers its timestamp plus the
/// lead-in offset.
pub open spec fn event_fires(e: MidiEvent, lead_in: int, t: int) -> bool {
    e.timestamp + lead_in <= t
}

/// How many leading events of a timestamp-ordered stream have been reached
/// at time `t`: the cursor position that belongs to that time.
pub open spec fn spec_fired_count(events: Seq<MidiEvent>, lead_in: int, t: int) -> int
    decreases events.len(),
{
    if events.len() == 0 {
        0
    } else if event_fires(events[0], lead_in, t) {
        1 + spec_fired_count(events.drop_first(), lead_in, t)
    } else {
        0
    }
}

/// The count never exceeds the stream length.
pub proof fn lemma_fired_count_le_len(events: Seq<MidiEvent>, lead_in: int, t: int)
    ensures
        0 <= spec_fired_count(events, lead_in, t) <= events.len(),
    decreases events.len(),
{
    if events.len() > 0 && event_fires(events[0], lead_in, t) {
        lemma_fired_count_le_len(events.drop_first(), lead_in, t);
    }
}

/// On a sorted stream, a position with every earlier event reached and the
/// event at the position (if any) not reached is exactly the count.
pub proof fn lemma_fired_count_is(events: Seq<MidiEvent>, lead_in: int, t: int, k: int)
    requires
        events_sorted(events),
        0 <= k <= events.len(),
        forall|w: int| 0 <= w < k ==> event_fires(#[trigger] events[w], lead_in, t),
        k < events.len() ==> !event_fires(events[k], lead_in, t),
    ensures
        spec_fired_count(events, lead_in, t) == k,
    decreases events.len(),
{
    if events.len() == 0 {
    } else if k == 0 {
        if event_fires(events[0], lead_in, t) {
            assert(false);
        }
    } else {
        assert(event_fires(events[0], lead_in, t));
        assert forall|w: int| 0 <= w < k - 1 implies event_fires(
            #[trigger] events.drop_first()[w],
            lead_in,
            t,
        ) by {
            assert(events.drop_first()[w] == events[w + 1]);
        }
        if k - 1 < events.drop_first().len() {
            assert(events.drop_first()[k - 1] == events[k]);
        }
        lemma_fired_count_is(events.drop_first(), lead_in, t, k - 1);
    }
}

/// On a sorted stream, every position below the count is reached and every
/// position at or above it is not: the cursor splits the stream exactly.
pub proof fn lemma_emission_window(events: Seq<MidiEvent>, lead_in: int, t: int)
    requires
        events_sorted(events),
    ensures
        forall|k: int|
            0 <= k < events.len() ==> (k < spec_fired_count(events, lead_in, t) <==> event_fires(
                #[trigger] events[k],
                lead_in,
                t,
            )),
    decreases events.len(),
{
    lemma_fired_count_le_len(events, lead_in, t);
    if events.len() > 0 {
        assert forall|i: int, j: int|
            0 <= i <= j < events.drop_first().len() implies events.drop_first()[i].timestamp
            <= events.drop_first()[j].timestamp by {
            assert(events.drop_first()[i] == events[i + 1]);
            assert(events.drop_first()[j] == events[j + 1]);
        }
        lemma_emission_window(events.drop_first(), lead_in, t);
        lemma_fired_count_le_len(events.drop_first(), lead_in, t);
        assert forall|k: int|
            0 <= k < events.len() implies (k < spec_fired_count(events, lead_in, t)
            <==> event_fires(#[trigger] events[k], lead_in, t)) by {
            if k > 0 {
                assert(events.drop_first()[k - 1] == events[k]);
                if !event_fires(events[0], lead_in, t) {
                    assert(events[0].timestamp <= events[k].timestamp);
                }
            }
        }
    }
}

/// Later times never move the cursor backwards.
pub proof fn lemma_fired_count_monotone(events: Seq<MidiEvent>, lead_in: int, t1: int, t2: int)
    requires
        t1 <= t2,
    ensures
        spec_fired_count(events, lead_in, t1) <= spec_fired_count(events, lead_in, t2),
    decreases events.len(),
{
    if events.len() > 0 {
        lemma_fired_count_monotone(events.drop_first(), lead_in, t1, t2);
        lemma_fired_count_le_len(events.drop_first(), lead_in, t1);
        lemma_fired_count_le_len(events.drop_first(), lead_in, t2);
    }
}

/// The active-note bookkeeping of one emitted event: a NoteOn starts a note
/// sounding, a NoteOff ends the earliest matching one, all else is ignored.
pub open spec fn spec_apply_one(active: Seq<(u8, u8)>, e: MidiEvent) -> Seq<(u8, u8)> {
    match e.message {
        MidiMessage::NoteOn { key, .. } => if active.contains((e.channel, key)) {
            active
        } else {
            active.push((e.channel, key))
        },
        MidiMessage::NoteOff { key, .. } => spec_remove_entry(active, (e.channel, key)),
        _ => active,
    }
}

/// The active-note bookkeeping of a whole emitted batch, in order.
pub open spec fn spec_apply_events(active: Seq<(u8, u8)>, batch: Seq<MidiEvent>) -> Seq<(u8, u8)>
    decreases batch.len(),
{
    if batch.len() == 0 {
        active
    } else {
        spec_apply_events(spec_apply_one(active, batch[0]), batch.drop_first())
    }
}

/// The total duration of a playback session: the last event's timestamp
/// plus the lead-in, or the lead-in alone for an empty timeline.
pub open spec fn spec_length(track: MidiTrack, lead_in: int) -> int {
    if track.events@.len() == 0 {
        lead_in
    } else {
        lead_in + track.events@[track.events@.len() - 1].timestamp
    }
}

/// The playback cursor over one merged track: current time (counted from
/// the start of the lead-in), the constant lead-in offset, the session
/// length, the paused flag, the index of the next unemitted event, and the
/// currently sounding notes.
pub struct PlaybackState {
    pub time: u64,
    pub lead_in: u64,
    pub length: u64,
    pub is_paused: bool,
    pub seen_events: usize,
    pub active: ActiveNoteSet,
}

impl PlaybackState {
    /// The cursor is consistent with the track it plays: the track is
    /// ordered, the stored length is the track's span, every event behind
    /// the cursor has been reached, and the active set holds no duplicates.
    pub open spec fn wf_for(self, track: MidiTrack) -> bool {
        &&& events_sorted(track.events@)
        &&& self.length == spec_length(track, self.lead_in as int)
        &&& self.seen_events <= track.events@.len()
        &&& forall|k: int|
            0 <= k < self.seen_events ==> event_fires(
                #[trigger] track.events@[k],
                self.lead_in as int,
                self.time as int,
            )
        &&& self.active.wf()
    }

    /// Creates a cursor at the start of the lead-in, paused, with nothing
    /// emitted and nothing sounding.
    pub fn new(lead_in: u64, track: &MidiTrack) -> (r: PlaybackState)
        requires
            events_sorted(track.events@),
            spec_length(*track, lead_in as int) <= u64::MAX,
        ensures
            r.wf_for(*track),
            r.time == 0,
            r.lead_in == lead_in,
            r.is_paused,
            r.seen_events == 0,
            r.active.entries@ == Seq::<(u8, u8)>::empty(),
            r.length as int == spec_length(*track, lead_in as int),
    {
        let length = if track.events.len() == 0 {
            lead_in
        } else {
            lead_in + track.events[track.events.len() - 1].timestamp
        };
        PlaybackState {
            time: 0,
            lead_in,
            length,
            is_paused: true,
            seen_events: 0,
            active: ActiveNoteSet::new(),
        }
    }

    /// Moves the cursor forward by the elapsed time and returns the batch
    /// of newly reached events, in order; the active set follows the batch.
    /// While paused the cursor stands still and the batch is empty.
    pub fn update(&mut self, track: &MidiTrack, elapsed: u64) -> (batch: Vec<MidiEvent>)
        requires
            old(self).wf_for(*track),
            old(self).time + elapsed <= u64::MAX,
        ensures
            final(self).wf_for(*track),
            final(self).lead_in == old(self).lead_in,
            final(self).length == old(self).length,
            final(self).is_paused == old(self).is_paused,
            old(self).is_paused ==> *final(self) == *old(self) && batch@ == Seq::<
                MidiEvent,
            >::empty(),
            !old(self).is_paused ==> {
                &&& final(self).time == old(self).time + elapsed
                &&& old(self).seen_events <= final(self).seen_events
                &&& final(self).seen_events as int == spec_fired_count(
                    track.events@,
                    final(self).lead_in as int,
                    final(self).time as int,
                )
                &&& batch@ == track.events@.subrange(
                    old(self).seen_events as int,
                    final(self).seen_events as int,
                )
                &&& final(self).active.entries@ == spec_apply_events(
                    old(self).active.entries@,
                    batch@,
                )
            },
    {
        if self.is_paused {
            return Vec::new();
        }
        self.time = self.time + elapsed;
        let mut batch: Vec<MidiEvent> = Vec::new();
        proof {
            assert(batch@ =~= track.events@.subrange(
                old(self).seen_events as int,
                self.seen_events as int,
            ));
        }
        while self.seen_events < track.events.len() && self.time >= self.lead_in
            && track.events[self.seen_events].timestamp <= self.time - self.lead_in
            invariant
                events_sorted(track.events@),
                self.time == old(self).time + elapsed,
                self.lead_in == old(self).lead_in,
                self.length == old(self).length,
                self.is_paused == old(self).is_paused,
                old(self).seen_events <= self.seen_events <= track.events@.len(),
                self.active.wf(),
                self.length == spec_length(*track, self.lead_in as int),
                forall|k: int|
                    0 <= k < self.seen_events ==> event_fires(
                        #[trigger] track.events@[k],
                        self.lead_in as int,
                        self.time as int,
                    ),
                batch@ == track.events@.subrange(
                    old(self).seen_events as int,
                    self.seen_events as int,
                ),
                self.active.entries@ == spec_apply_events(old(self).active.entries@, batch@),
            decreases track.events@.len() - self.seen_events,
        {
            let e = track.events[self.seen_events];
            let ghost batch0 = batch@;
            batch.push(e);
            match e.message {
                MidiMessage::NoteOn { key, .. } => {
                    self.active.insert(e.channel, key);
                },
                MidiMessage::NoteOff { key, .. } => {
                    self.active.remove(e.channel, key);
                },
                _ => {},
            }
            self.seen_events = self.seen_events + 1;
            proof {
                lemma_apply_events_snoc(old(self).active.entries@, batch0, e);
                assert(batch@ =~= track.events@.subrange(
                    old(self).seen_events as int,
                    self.seen_events as int,
                ));
            }
        }
        proof {
            lemma_fired_count_is(
                track.events@,
                self.lead_in as int,
                self.time as int,
                self.seen_events as int,
            );
        }
        batch
    }

    /// Silences every sounding note: returns one zero-velocity NoteOff per
    /// active pair, in order, and leaves the set empty.
    fn force_note_offs(&mut self) -> (offs: Vec<(u8, MidiMessage)>)
        ensures
            final(self).active.entries@ == Seq::<(u8, u8)>::empty(),
            final(self).active.wf(),
            offs@.len() == old(self).active.entries@.len(),
            forall|i: int|
                0 <= i < offs@.len() ==> #[trigger] offs@[i] == (
                    old(self).active.entries@[i].0,
                    MidiMessage::NoteOff { key: old(self).active.entries@[i].1, vel: 0 },
                ),
            final(self).time == old(self).time,
            final(self).lead_in == old(self).lead_in,
            final(self).length == old(self).length,
            final(self).is_paused == old(self).is_paused,
            final(self).seen_events == old(self).seen_events,
    {
        let mut offs: Vec<(u8, MidiMessage)> = Vec::new();
        let mut i: usize = 0;
        while i < self.active.entries.len()
            invariant
                i <= self.active.entries@.len(),
                self.active.entries@ == old(self).active.entries@,
                *self == *old(self),
                offs@.len() == i,
                forall|w: int|
                    0 <= w < i ==> #[trigger] offs@[w] == (
                        old(self).active.entries@[w].0,
                        MidiMessage::NoteOff { key: old(self).active.entries@[w].1, vel: 0 },
                    ),
            decreases self.active.entries@.len() - i,
        {
            let e = self.active.entries[i];
            offs.push((e.0, MidiMessage::NoteOff { key: e.1, vel: 0 }));
            i = i + 1;
        }
        self.active.entries.clear();
        offs
    }

    /// Pauses playback, silencing every sounding note: the returned batch
    /// holds exactly one NoteOff per note of the pre-call active set.
    pub fn pause(&mut self) -> (offs: Vec<(u8, MidiMessage)>)
        ensures
            final(self).is_paused,
            final(self).time == old(self).time,
            final(self).lead_in == old(self).lead_in,
            final(self).length == old(self).length,
            final(self).seen_events == old(self).seen_events,
            final(self).active.entries@ == Seq::<(u8, u8)>::empty(),
            final(self).active.wf(),
            offs@.len() == old(self).active.entries@.len(),
            forall|i: int|
                0 <= i < offs@.len() ==> #[trigger] offs@[i] == (
                    old(self).active.entries@[i].0,
                    MidiMessage::NoteOff { key: old(self).active.entries@[i].1, vel: 0 },
                ),
    {
        let offs = self.force_note_offs();
        self.is_paused = true;
        offs
    }

    /// Resumes playback from the current cursor position.
    pub fn resume(&mut self)
        ensures
            *final(self) == (PlaybackState { is_paused: false, ..*old(self) }),
    {
        self.is_paused = false;
    }

    /// Seeks to an absolute time: the target is clamped to the session
    /// length, every sounding note is silenced exactly as in `pause`, and
    /// the cursor index is recomputed by binary search so that skipped
    /// NoteOns are never re-raised.  The paused flag is left as it is.
    pub fn set_time(&mut self, track: &MidiTrack, target: u64) -> (offs: Vec<(u8, MidiMessage)>)
        requires
            old(self).wf_for(*track),
        ensures
            final(self).wf_for(*track),
            final(self).lead_in == old(self).lead_in,
            final(self).length == old(self).length,
            final(self).is_paused == old(self).is_paused,
            final(self).time == (if target > old(self).length {
                old(self).length
            } else {
                target
            }),
            final(self).seen_events as int == spec_fired_count(
                track.events@,
                final(self).lead_in as int,
                final(self).time as int,
            ),
            final(self).active.entries@ == Seq::<(u8, u8)>::empty(),
            offs@.len() == old(self).active.entries@.len(),
            forall|i: int|
                0 <= i < offs@.len() ==> #[trigger] offs@[i] == (
                    old(self).active.entries@[i].0,
                    MidiMessage::NoteOff { key: old(self).active.entries@[i].1, vel: 0 },
                ),
    {
        let clamped = if target > self.length {
            self.length
        } else {
            target
        };
        let offs = self.force_note_offs();
        self.time = clamped;
        if clamped < self.lead_in {
            self.seen_events = 0;
            proof {
                lemma_fired_count_is(track.events@, self.lead_in as int, self.time as int, 0);
            }
        } else {
            let limit = clamped - self.lead_in;
            let mut lo: usize = 0;
            let mut hi: usize = track.events.len();
            while lo < hi
                invariant
                    lo <= hi <= track.events@.len(),
                    events_sorted(track.events@),
                    forall|w: int| 0 <= w < lo ==> #[trigger] track.events@[w].timestamp <= limit,
                    forall|w: int|
                        hi <= w < track.events@.len() ==> #[trigger] track.events@[w].timestamp
                            > limit,
                decreases hi - lo,
            {
                let mid = lo + (hi - lo) / 2;
                if track.events[mid].timestamp <= limit {
                    proof {
                        assert forall|w: int| 0 <= w < mid + 1 implies #[trigger] track.events@[
                        w].timestamp <= limit by {
                            assert(track.events@[w].timestamp <= track.events@[mid as int].timestamp);
                        }
                    }
                    lo = mid + 1;
                } else {
                    proof {
                        assert forall|w: int|
                            mid <= w < track.events@.len() implies #[trigger] track.events@[
                        w].timestamp > limit by {
                            assert(track.events@[mid as int].timestamp <= track.events@[w].timestamp);
                        }
                    }
                    hi = mid;
                }
            }
            self.seen_events = lo;
            proof {
                lemma_fired_count_is(
                    track.events@,
                    self.lead_in as int,
                    self.time as int,
                    lo as int,
                );
            }
        }
        offs
    }

    /// The cursor time, counted from the start of the lead-in.
    pub fn time(&self) -> (r: u64)
        ensures
            r == self.time,
    {
        self.time
    }

    /// The constant lead-in offset.
    pub fn lead_in(&self) -> (r: u64)
        ensures
            r == self.lead_in,
    {
        self.lead_in
    }

    /// The total session duration, lead-in included.
    pub fn length(&self) -> (r: u64)
        ensures
            r == self.length,
    {
        self.length
    }

    /// Whether playback is paused.
    pub fn is_paused(&self) -> (r: bool)
        ensures
            r == self.is_paused,
    {
        self.is_paused
    }

    /// The currently sounding notes.
    pub fn active_notes(&self) -> (r: &ActiveNoteSet)
        ensures
            r == &self.active,
    {
        &self.active
    }

    /// How far playback has come, in thousandths of the musical span
    /// (the session length minus the lead-in), clamped to 0..=1000.  An
    /// empty timeline counts as already complete.
    pub fn percentage_permille(&self) -> (r: u64)
        ensures
            r as int == (if self.length <= self.lead_in {
                1000int
            } else if self.time <= self.lead_in {
                0int
            } else if 1000 * (self.time - self.lead_in) / (self.length - self.lead_in) > 1000 {
                1000int
            } else {
                1000 * (self.time - self.lead_in) / (self.length - self.lead_in)
            }),
            r <= 1000,
    {
        if self.length <= self.lead_in {
            return 1000;
        }
        if self.time <= self.lead_in {
            return 0;
        }
        let num: u128 = 1000u128 * ((self.time - self.lead_in) as u128);
        let den: u128 = (self.length - self.lead_in) as u128;
        let q: u128 = num / den;
        proof {
            vstd::arithmetic::div_mod::lemma_div_pos_is_pos(num as int, den as int);
        }
        if q > 1000 {
            1000
        } else {
            q as u64
        }
    }
}

/// The sum of a sequence of advance deltas.
pub open spec fn spec_sum(deltas: Seq<int>) -> int
    decreases deltas.len(),
{
    if deltas.len() == 0 {
        0
    } else {
        deltas[0] + spec_sum(deltas.drop_first())
    }
}

/// A sum of non-negative deltas is non-negative.
pub proof fn lemma_sum_nonneg(deltas: Seq<int>)
    requires
        forall|i: int| 0 <= i < deltas.len() ==> #[trigger] deltas[i] >= 0,
    ensures
        spec_sum(deltas) >= 0,
    decreases deltas.len(),
{
    if deltas.len() > 0 {
        assert forall|i: int|
            0 <= i < deltas.drop_first().len() implies #[trigger] deltas.drop_first()[i] >= 0 by {
            assert(deltas.drop_first()[i] == deltas[i + 1]);
        }
        lemma_sum_nonneg(deltas.drop_first());
    }
}

/// The batches a cursor emits over a run of advances: starting at time `t`
/// with `s` events already emitted, each advance moves time by one delta
/// and emits the stream up to the new cursor position.
pub open spec fn spec_batches(
    events: Seq<MidiEvent>,
    lead_in: int,
    t: int,
    s: int,
    deltas: Seq<int>,
) -> Seq<MidiEvent>
    decreases deltas.len(),
{
    if deltas.len() == 0 {
        Seq::empty()
    } else {
        let t2 = t + deltas[0];
        let s2 = spec_fired_count(events, lead_in, t2);
        events.subrange(s, s2) + spec_batches(events, lead_in, t2, s2, deltas.drop_first())
    }
}

/// No double emission: however the advanced time is split across calls,
/// the concatenation of the emitted batches is exactly the events between
/// the starting cursor position and the position of the final time — each
/// event once, in stream order.  Together with `lemma_emission_window`,
/// a run from the initial cursor emits exactly the events whose timestamp
/// plus lead-in lies within the total advanced time.
pub proof fn lemma_no_double_emission(
    events: Seq<MidiEvent>,
    lead_in: int,
    t: int,
    s: int,
    deltas: Seq<int>,
)
    requires
        events_sorted(events),
        forall|i: int| 0 <= i < deltas.len() ==> #[trigger] deltas[i] >= 0,
        0 <= s <= spec_fired_count(events, lead_in, t),
        deltas.len() == 0 ==> s == spec_fired_count(events, lead_in, t),
    ensures
        spec_batches(events, lead_in, t, s, deltas) == events.subrange(
            s,
            spec_fired_count(events, lead_in, t + spec_sum(deltas)),
        ),
    decreases deltas.len(),
{
    lemma_fired_count_le_len(events, lead_in, t);
    if deltas.len() == 0 {
        lemma_fired_count_monotone(events, lead_in, t, t + spec_sum(deltas));
        assert(spec_sum(deltas) == 0);
        assert(spec_fired_count(events, lead_in, t) == spec_fired_count(
            events,
            lead_in,
            t + spec_sum(deltas),
        ));
        assert(events.subrange(s, s) =~= Seq::<MidiEvent>::empty());
    } else {
        let t2 = t + deltas[0];
        let s2 = spec_fired_count(events, lead_in, t2);
        lemma_fired_count_monotone(events, lead_in, t, t2);
        lemma_fired_count_le_len(events, lead_in, t2);
        assert forall|i: int|
            0 <= i < deltas.drop_first().len() implies #[trigger] deltas.drop_first()[i] >= 0 by {
            assert(deltas.drop_first()[i] == deltas[i + 1]);
        }
        lemma_no_double_emission(events, lead_in, t2, s2, deltas.drop_first());
        let total = spec_fired_count(events, lead_in, t + spec_sum(deltas));
        assert(t + spec_sum(deltas) == t2 + spec_sum(deltas.drop_first()));
        lemma_sum_nonneg(deltas.drop_first());
        lemma_fired_count_monotone(events, lead_in, t2, t + spec_sum(deltas));
        lemma_fired_count_le_len(events, lead_in, t + spec_sum(deltas));
        assert(events.subrange(s, s2) + events.subrange(s2, total) =~= events.subrange(s, total));
    }
}

/// Seek idempotence: a cursor that has just sought to `target` is a fixed
/// point of seeking there again — the clamped time and the recomputed
/// cursor index come out unchanged, and with the active set already empty
/// the forced NoteOff batch of the second seek is empty.
pub proof fn lemma_seek_idempotent(track: MidiTrack, s: PlaybackState, target: u64)
    requires
        s.wf_for(track),
        s.active.entries@.len() == 0,
        s.time == (if target > s.length {
            s.length
        } else {
            target
        }),
        s.seen_events as int == spec_fired_count(track.events@, s.lead_in as int, s.time as int),
    ensures
        (if target > s.length {
            s.length
        } else {
            target
        }) == s.time,
        spec_fired_count(
            track.events@,
            s.lead_in as int,
            (if target > s.length {
                s.length
            } else {
                target
            }) as int,
        ) == s.seen_events as int,
{
}

/// Appending one event to a batch applies it last.
pub proof fn lemma_apply_events_snoc(active: Seq<(u8, u8)>, batch: Seq<MidiEvent>, e: MidiEvent)
    ensures
        spec_apply_events(active, batch.push(e)) == spec_apply_one(
            spec_apply_events(active, batch),
            e,
        ),
    decreases batch.len(),
{
    if batch.len() == 0 {
        assert(batch.push(e)[0] == e);
        assert(batch.push(e).drop_first() =~= Seq::<MidiEvent>::empty());
        assert(spec_apply_events(spec_apply_one(active, e), Seq::<MidiEvent>::empty())
            == spec_apply_one(active, e));
        assert(spec_apply_events(active, Seq::<MidiEvent>::empty()) == active);
    } else {
        assert(batch.push(e)[0] == batch[0]);
        assert(batch.push(e).drop_first() =~= batch.drop_first().push(e));
        lemma_apply_events_snoc(spec_apply_one(active, batch[0]), batch.drop_first(), e);
    }
}

} // verus!
