use drumsthesia::events::{MidiMessage, TrackEvent};
use drumsthesia::merge::merge;
use drumsthesia::tempo::TempoMap;
use drumsthesia::events::MidiTrack;

fn on(delta: u64, channel: u8, key: u8) -> TrackEvent {
    TrackEvent {
        delta,
        channel,
        message: MidiMessage::NoteOn { key, vel: 100 },
    }
}

fn off(delta: u64, channel: u8, key: u8) -> TrackEvent {
    TrackEvent {
        delta,
        channel,
        message: MidiMessage::NoteOff { key, vel: 0 },
    }
}

fn build_track(id: usize, raw: Vec<TrackEvent>, map: &TempoMap) -> MidiTrack {
    MidiTrack::build(id, &raw, map).unwrap()
}

#[test]
fn merge_orders_by_timestamp() {
    let map = TempoMap::build(&vec![], 480).unwrap();
    let a = build_track(0, vec![on(480, 0, 60), off(480, 0, 60)], &map);
    let b = build_track(1, vec![on(0, 1, 62), off(240, 1, 62)], &map);
    let merged = merge(&vec![a, b]);
    let stamps: Vec<u64> = merged.events.iter().map(|e| e.timestamp).collect();
    let mut sorted = stamps.clone();
    sorted.sort();
    assert_eq!(stamps, sorted);
    assert_eq!(merged.events.len(), 4);
}

#[test]
fn merge_tie_break_is_ascending_track_id() {
    // Two tracks with events at exactly the same timestamps: merged order
    // is ascending track id, and each track keeps its own order.
    let map = TempoMap::build(&vec![], 480).unwrap();
    let a = build_track(0, vec![on(0, 0, 60), on(0, 0, 61)], &map);
    let b = build_track(1, vec![on(0, 1, 70), on(0, 1, 71)], &map);
    let merged = merge(&vec![a, b]);
    let order: Vec<(usize, u8)> = merged
        .events
        .iter()
        .map(|e| {
            let key = match e.message {
                MidiMessage::NoteOn { key, .. } => key,
                _ => 0,
            };
            (e.track_id, key)
        })
        .collect();
    assert_eq!(order, vec![(0, 60), (0, 61), (1, 70), (1, 71)]);
}

#[test]
fn merged_notes_are_sorted_by_start() {
    let map = TempoMap::build(&vec![], 480).unwrap();
    let a = build_track(0, vec![on(480, 0, 60), off(480, 0, 60)], &map);
    let b = build_track(1, vec![on(0, 1, 62), off(240, 1, 62)], &map);
    let merged = merge(&vec![a, b]);
    assert_eq!(merged.notes.len(), 2);
    assert!(merged.notes[0].start <= merged.notes[1].start);
    assert_eq!(merged.notes[0].key, 62);
    assert_eq!(merged.notes[1].key, 60);
}

#[test]
fn note_pairing_is_first_in_first_out() {
    // Two overlapping NoteOns of the same key: the first NoteOff ends the
    // earliest pending NoteOn, not the latest.
    let map = TempoMap::build(&vec![], 480).unwrap();
    let t = build_track(
        0,
        vec![on(0, 0, 60), on(480, 0, 60), off(480, 0, 60), off(480, 0, 60)],
        &map,
    );
    assert_eq!(t.notes.len(), 2);
    assert_eq!(t.notes[0].start, 0);
    assert_eq!(t.notes[0].duration, 1_000_000);
    assert_eq!(t.notes[1].start, 500_000);
    assert_eq!(t.notes[1].duration, 1_000_000);
}

#[test]
fn unmatched_note_on_is_discarded() {
    let map = TempoMap::build(&vec![], 480).unwrap();
    let t = build_track(0, vec![on(0, 0, 60)], &map);
    assert_eq!(t.notes.len(), 0);
    assert_eq!(t.events.len(), 1);
}

#[test]
fn note_off_without_note_on_is_ignored() {
    let map = TempoMap::build(&vec![], 480).unwrap();
    let t = build_track(0, vec![off(0, 0, 60), on(0, 0, 61), off(480, 0, 61)], &map);
    assert_eq!(t.notes.len(), 1);
    assert_eq!(t.notes[0].key, 61);
}

#[test]
fn pairing_matches_channel_and_key() {
    let map = TempoMap::build(&vec![], 480).unwrap();
    // NoteOff on another channel must not end the note.
    let t = build_track(0, vec![on(0, 0, 60), off(480, 1, 60), off(480, 0, 60)], &map);
    assert_eq!(t.notes.len(), 1);
    // The NoteOff on channel 1 at 0.5 s is not a match; the note runs to
    // the channel-0 NoteOff at 1.0 s.
    assert_eq!(t.notes[0].duration, 1_000_000);
}

#[test]
fn track_events_carry_cumulative_time() {
    let map = TempoMap::build(&vec![], 480).unwrap();
    let t = build_track(3, vec![on(480, 0, 60), off(480, 0, 60)], &map);
    assert_eq!(t.events[0].timestamp, 500_000);
    assert_eq!(t.events[1].timestamp, 1_000_000);
    assert_eq!(t.track_id, 3);
    assert!(t.events.iter().all(|e| e.track_id == 3));
}
