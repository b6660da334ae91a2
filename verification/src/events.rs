//! Event, note and track data carried through the whole pipeline.
//!
//! All times are absolute microseconds from the start of the file; all tick
//! positions are pulses of the file-wide `pulses_per_quarter_note` constant.

use vstd::prelude::*;

verus! {

/// A channel-voice MIDI message, stripped to the fields the player reads.
#[derive(Clone, Copy, PartialEq, Eq, Structural, Debug)]
pub enum MidiMessage {
    NoteOn { key: u8, vel: u8 },
    NoteOff { key: u8, vel: u8 },
    ProgramChange { program: u8 },
    Controller { controller: u8, value: u8 },
    PitchBend { bend: u16 },
}

/// One event of a source track, before time-stamping: a tick delta from the
/// previous event of the same track, and the message itself.
#[derive(Clone, Copy, PartialEq, Eq, Structural, Debug)]
pub struct TrackEvent {
    pub delta: u64,
    pub channel: u8,
    pub message: MidiMessage,
}

/// A time-stamped event of the merged timeline.
#[derive(Clone, Copy, PartialEq, Eq, Structural, Debug)]
pub struct MidiEvent {
    pub channel: u8,
    pub delta: u64,
    /// Absolute time from file start, in microseconds.
    pub timestamp: u64,
    pub message: MidiMessage,
    pub track_id: usize,
}

/// A matched NoteOn/NoteOff pair, the unit the renderer lays out.
#[derive(Clone, Copy, PartialEq, Eq, Structural, Debug)]
pub struct MidiNote {
    pub channel: u8,
    pub key: u8,
    /// Absolute start time, in microseconds.
    pub start: u64,
    /// Time from NoteOn to the matching NoteOff, in microseconds.
    pub duration: u64,
    pub velocity: u8,
    pub track_id: usize,
}

/// A track of time-stamped events with its derived note list.
#[derive(Debug)]
pub struct MidiTrack {
    pub notes: Vec<MidiNote>,
    pub events: Vec<MidiEvent>,
    pub track_id: usize,
}

/// The events are ordered by timestamp.
pub open spec fn events_sorted(s: Seq<MidiEvent>) -> bool {
    forall|i: int, j: int| 0 <= i <= j < s.len() ==> s[i].timestamp <= s[j].timestamp
}

/// Events at equal timestamps are ordered by source track.
pub open spec fn ties_by_track(s: Seq<MidiEvent>) -> bool {
    forall|i: int, j: int|
        0 <= i <= j < s.len() && s[i].timestamp == s[j].timestamp ==> s[i].track_id <= s[j].track_id
}

/// The notes are ordered by start time.
pub open spec fn notes_sorted(s: Seq<MidiNote>) -> bool {
    forall|i: int, j: int| 0 <= i <= j < s.len() ==> s[i].start <= s[j].start
}

/// Every event of the sequence belongs to the given track.
pub open spec fn all_of_track(s: Seq<MidiEvent>, track_id: int) -> bool {
    forall|i: int| 0 <= i < s.len() ==> s[i].track_id == track_id
}

/// The events of the sequence that belong to the given track, in order.
pub open spec fn of_track(s: Seq<MidiEvent>, track_id: int) -> Seq<MidiEvent>
    decreases s.len(),
{
    if s.len() == 0 {
        Seq::empty()
    } else if s[0].track_id == track_id {
        seq![s[0]] + of_track(s.drop_first(), track_id)
    } else {
        of_track(s.drop_first(), track_id)
    }
}

} // verus!
