//! Tempo-mapping and playback-scheduling core of a MIDI practice player.
//!
//! The library turns a parsed MIDI file (plain tick-stamped tracks) into a
//! single time-stamped timeline and drives a seekable, pausable playback
//! cursor over it:
//!
//! - [`tempo`]: an ordered tempo table translating tick positions into
//!   absolute microsecond timestamps.
//! - [`track`]: per-track time-stamping and NoteOn/NoteOff pairing.
//! - [`merge`]: the stable merge of all tracks into one ordered stream.
//! - [`metronome`]: a synthetic click track aligned to the beat grid.
//! - [`playback`]: the playback cursor with its active-note bookkeeping.
//! - [`player`]: the session layer that feeds an output device.

use vstd::prelude::*;

pub mod config;
pub mod events;
pub mod keyboard;
pub mod mapping;
pub mod menu;
pub mod merge;
pub mod metronome;
pub mod playback;
pub mod player;
pub mod tempo;
pub mod track;

use crate::events::MidiTrack;
use crate::events::TrackEvent;
use crate::events::events_sorted;
use crate::events::notes_sorted;
use crate::events::of_track;
use crate::events::MidiEvent;
use crate::events::MidiMessage;
use crate::events::all_of_track;
use crate::events::ties_by_track;
use crate::metronome::MAX_CLICKS;
use crate::metronome::METRONOME_TRACK;
use crate::metronome::WOODBLOCK_PROGRAM;
use crate::metronome::add_metronome;
use crate::metronome::spec_click_event;
use crate::metronome::spec_clicks;
use crate::tempo::DEFAULT_TEMPO;
use crate::tempo::LoadError;
use crate::tempo::TICK_LIMIT;
use crate::tempo::TempoMap;
use crate::tempo::TempoPoint;
use crate::tempo::has_tick;
use crate::tempo::spec_last_tempo;
use crate::tempo::spec_points_error;
use crate::track::PendingNote;
use crate::track::spec_pair;
use crate::track::spec_tick_at;
use crate::track::spec_timestamped;

use vstd::multiset::Multiset;

verus! {

/// The merged timeline of the raw tracks before the click track is added:
/// ordered by timestamp with ties by ascending track id, holding exactly
/// each track's time-stamped events in their own order, and nothing else.
/// These conditions determine the sequence uniquely.
pub open spec fn spec_merged_timeline(
    raw_tracks: Seq<Vec<TrackEvent>>,
    map: TempoMap,
    me: Seq<MidiEvent>,
) -> bool {
    &&& events_sorted(me)
    &&& ties_by_track(me)
    &&& forall|t: int|
        0 <= t < raw_tracks.len() ==> of_track(me, t) == spec_timestamped(
            #[trigger] raw_tracks[t]@,
            map,
            t as usize,
        )
    &&& forall|i: int| 0 <= i < me.len() ==> 0 <= (#[trigger] me[i]).track_id < raw_tracks.len()
}

/// How the click track turns the merged timeline into the final stream: an
/// empty timeline is left alone; otherwise the final events are exactly the
/// merged ones plus the woodblock program change and the synthesized clicks,
/// walked from the first to the last merged timestamp.
pub open spec fn spec_with_metronome(
    map: TempoMap,
    me: Seq<MidiEvent>,
    final_events: Seq<MidiEvent>,
) -> bool {
    if me.len() == 0 {
        final_events == me
    } else {
        final_events.to_multiset() == me.to_multiset().add(
            (seq![
                spec_click_event(
                    MidiMessage::ProgramChange { program: WOODBLOCK_PROGRAM },
                    me[0].timestamp,
                ),
            ] + spec_clicks(
                map,
                0,
                0,
                me[0].timestamp,
                me[me.len() - 1].timestamp,
                MAX_CLICKS as nat,
            )).to_multiset(),
        )
    }
}

/// The notes of the first `k` raw tracks, as the pairing of each track's
/// time-stamped events derives them, counted without order.
pub open spec fn spec_notes_multiset(
    raw_tracks: Seq<Vec<TrackEvent>>,
    map: TempoMap,
    k: int,
) -> Multiset<crate::events::MidiNote>
    decreases k,
{
    if k <= 0 {
        Multiset::empty()
    } else {
        spec_notes_multiset(raw_tracks, map, k - 1).add(
            spec_pair(
                spec_timestamped(raw_tracks[k - 1]@, map, (k - 1) as usize),
                Seq::<PendingNote>::empty(),
                (k - 1) as usize,
            ).to_multiset(),
        )
    }
}

/// The concatenated note lists of the built tracks hold exactly the notes
/// the pairing of the raw tracks derives.
proof fn lemma_notes_multiset(
    built: Seq<MidiTrack>,
    raw_tracks: Seq<Vec<TrackEvent>>,
    map: TempoMap,
    k: int,
)
    requires
        0 <= k <= built.len(),
        built.len() == raw_tracks.len(),
        forall|t: int|
            0 <= t < built.len() ==> (#[trigger] built[t]).notes@ == spec_pair(
                spec_timestamped(raw_tracks[t]@, map, t as usize),
                Seq::<PendingNote>::empty(),
                t as usize,
            ),
    ensures
        crate::merge::spec_concat_notes(built, k).to_multiset() == spec_notes_multiset(
            raw_tracks,
            map,
            k,
        ),
    decreases k,
{
    broadcast use vstd::seq_lib::group_to_multiset_ensures;

    if k <= 0 {
        assert(crate::merge::spec_concat_notes(built, 0).to_multiset() =~= Multiset::<
            crate::events::MidiNote,
        >::empty());
    } else {
        lemma_notes_multiset(built, raw_tracks, map, k - 1);
        vstd::seq_lib::lemma_multiset_commutative(
            crate::merge::spec_concat_notes(built, k - 1),
            built[k - 1].notes@,
        );
    }
}

/// A loaded file: its tempo map and the one merged, metronome-backed
/// timeline that a playback session consumes.
pub struct Midi {
    pub tempo: TempoMap,
    pub merged_track: MidiTrack,
}

impl Midi {
    /// Loads a parsed file: builds the tempo map from the tempo-change
    /// events, time-stamps and merges every track, and appends the click
    /// track.  Rejected are a zero pulses-per-quarter-note constant,
    /// out-of-range tempo values, and tick positions past `TICK_LIMIT`;
    /// everything else — unmatched NoteOns included — is tolerated.
    #[verifier::loop_isolation(false)]
    pub fn from_parts(
        pulses_per_quarter_note: u16,
        tempo_changes: &Vec<TempoPoint>,
        raw_tracks: &Vec<Vec<TrackEvent>>,
    ) -> (r: Result<Midi, LoadError>)
        ensures
            r is Err <==> (pulses_per_quarter_note == 0 || spec_points_error(tempo_changes@)
                is Some || (exists|t: int|
                0 <= t < raw_tracks@.len() && spec_tick_at(
                    #[trigger] raw_tracks@[t]@,
                    raw_tracks@[t]@.len() - 1,
                ) > TICK_LIMIT)),
            pulses_per_quarter_note == 0 ==> r == Result::<Midi, LoadError>::Err(
                LoadError::ZeroPulsesPerQuarter,
            ),
            r matches Ok(m) ==> {
                &&& m.tempo.wf()
                &&& m.tempo.ppqn == pulses_per_quarter_note
                &&& forall|j: int|
                    0 <= j < tempo_changes@.len() ==> has_tick(
                        m.tempo.points@,
                        #[trigger] tempo_changes@[j].tick,
                    )
                &&& forall|i: int|
                    0 <= i < m.tempo.points@.len() && has_tick(
                        tempo_changes@,
                        #[trigger] m.tempo.points@[i].tick,
                    ) ==> m.tempo.points@[i].microseconds_per_quarter == spec_last_tempo(
                        tempo_changes@,
                        m.tempo.points@[i].tick,
                    )
                &&& forall|i: int|
                    0 <= i < m.tempo.points@.len() && !has_tick(
                        tempo_changes@,
                        #[trigger] m.tempo.points@[i].tick,
                    ) ==> m.tempo.points@[i].tick == 0
                        && m.tempo.points@[i].microseconds_per_quarter == DEFAULT_TEMPO
                &&& events_sorted(m.merged_track.events@)
                &&& (exists|me: Seq<MidiEvent>|
                    #[trigger] spec_merged_timeline(raw_tracks@, m.tempo, me)
                        && spec_with_metronome(m.tempo, me, m.merged_track.events@))
                &&& (raw_tracks@.len() <= METRONOME_TRACK ==> ties_by_track(
                    m.merged_track.events@,
                ))
                &&& notes_sorted(m.merged_track.notes@)
                &&& m.merged_track.notes@.to_multiset() == spec_notes_multiset(
                    raw_tracks@,
                    m.tempo,
                    raw_tracks@.len() as int,
                )
                &&& m.merged_track.track_id == 0
                &&& forall|t: int|
                    0 <= t < raw_tracks@.len() && t != METRONOME_TRACK ==> of_track(
                        m.merged_track.events@,
                        t,
                    ) == spec_timestamped(#[trigger] raw_tracks@[t]@, m.tempo, t as usize)
            },
    {
        let tempo = match TempoMap::build(tempo_changes, pulses_per_quarter_note) {
            Ok(map) => map,
            Err(e) => {
                return Err(e);
            },
        };
        let mut built: Vec<MidiTrack> = Vec::new();
        let mut k: usize = 0;
        while k < raw_tracks.len()
            invariant
                k <= raw_tracks@.len(),
                tempo.wf(),
                built@.len() == k,
                forall|t: int|
                    0 <= t < k ==> (#[trigger] built@[t]).events@ == spec_timestamped(
                        raw_tracks@[t]@,
                        tempo,
                        t as usize,
                    ),
                forall|t: int| 0 <= t < k ==> events_sorted(#[trigger] built@[t].events@),
                forall|t: int|
                    0 <= t < k ==> crate::events::all_of_track(#[trigger] built@[t].events@, t),
                forall|t: int|
                    0 <= t < k ==> spec_tick_at(
                        #[trigger] raw_tracks@[t]@,
                        raw_tracks@[t]@.len() - 1,
                    ) <= TICK_LIMIT,
                forall|t: int|
                    0 <= t < k ==> (#[trigger] built@[t]).notes@ == spec_pair(
                        spec_timestamped(raw_tracks@[t]@, tempo, t as usize),
                        Seq::<PendingNote>::empty(),
                        t as usize,
                    ),
            decreases raw_tracks@.len() - k,
        {
            match MidiTrack::build(k, &raw_tracks[k], &tempo) {
                Ok(t) => {
                    built.push(t);
                },
                Err(e) => {
                    return Err(e);
                },
            }
            k = k + 1;
        }
        let merged = crate::merge::merge(&built);
        proof {
            lemma_notes_multiset(built@, raw_tracks@, tempo, raw_tracks@.len() as int);
        }
        let ghost merged_events = merged.events@;
        proof {
            assert forall|t: int| 0 <= t < raw_tracks@.len() implies of_track(merged_events, t)
                == spec_timestamped(#[trigger] raw_tracks@[t]@, tempo, t as usize) by {
                assert(of_track(merged_events, t) == built@[t].events@);
            }
            assert forall|i: int| 0 <= i < merged_events.len() implies 0 <= (
            #[trigger] merged_events[i]).track_id < raw_tracks@.len() by {
                assert(0 <= merged_events[i].track_id < built@.len());
            }
            assert(spec_merged_timeline(raw_tracks@, tempo, merged_events));
        }
        let with_clicks = add_metronome(merged, &tempo, pulses_per_quarter_note);
        proof {
            assert forall|t: int|
                0 <= t < raw_tracks@.len() && t != METRONOME_TRACK implies of_track(
                with_clicks.events@,
                t,
            ) == spec_timestamped(#[trigger] raw_tracks@[t]@, tempo, t as usize) by {
                assert(of_track(with_clicks.events@, t) == of_track(merged_events, t));
                assert(of_track(merged_events, t) == built@[t].events@);
            }
            assert(spec_with_metronome(tempo, merged_events, with_clicks.events@));
            if raw_tracks@.len() <= METRONOME_TRACK {
                assert(ties_by_track(with_clicks.events@));
            }
        }
        Ok(Midi { tempo, merged_track: with_clicks })
    }
}

} // verus!
