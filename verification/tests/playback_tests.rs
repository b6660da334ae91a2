use drumsthesia::events::{MidiMessage, TrackEvent};
use drumsthesia::playback::{ActiveNoteSet, PlaybackState};
use drumsthesia::tempo::TempoMap;
use drumsthesia::events::MidiTrack;

fn on(delta: u64, channel: u8, key: u8) -> TrackEvent {
    TrackEvent {
        delta,
        channel,
        message: MidiMessage::NoteOn { key, vel: 100 },
    }
}

fn off(delta: u64, channel: u8, key: u8) -> TrackEvent {
    TrackEvent {
        delta,
        channel,
        message: MidiMessage::NoteOff { key, vel: 0 },
    }
}

/// A track with NoteOn at 0.5 s, NoteOff at 1.0 s, NoteOn at 1.5 s,
/// NoteOff at 2.0 s (at 120 BPM, PPQN 480).
fn simple_track() -> MidiTrack {
    let map = TempoMap::build(&vec![], 480).unwrap();
    MidiTrack::build(
        0,
        &vec![on(480, 0, 60), off(480, 0, 60), on(480, 0, 64), off(480, 0, 64)],
        &map,
    )
    .unwrap()
}

const LEAD: u64 = 3_000_000;

#[test]
fn cursor_starts_paused_at_zero() {
    let track = simple_track();
    let s = PlaybackState::new(LEAD, &track);
    assert!(s.is_paused());
    assert_eq!(s.time(), 0);
    assert_eq!(s.lead_in(), LEAD);
    assert_eq!(s.length(), LEAD + 2_000_000);
}

#[test]
fn paused_cursor_does_not_move() {
    let track = simple_track();
    let mut s = PlaybackState::new(LEAD, &track);
    let batch = s.update(&track, 10_000_000);
    assert!(batch.is_empty());
    assert_eq!(s.time(), 0);
}

#[test]
fn events_fire_after_the_lead_in() {
    let track = simple_track();
    let mut s = PlaybackState::new(LEAD, &track);
    s.resume();
    let batch = s.update(&track, LEAD);
    assert!(batch.is_empty(), "nothing is due during the lead-in");
    let batch = s.update(&track, 500_000);
    assert_eq!(batch.len(), 1);
    assert_eq!(batch[0].timestamp, 500_000);
}

#[test]
fn no_double_emission_regardless_of_chunking() {
    let track = simple_track();
    // One big advance...
    let mut one = PlaybackState::new(LEAD, &track);
    one.resume();
    let whole: Vec<u64> = one
        .update(&track, LEAD + 2_000_000)
        .iter()
        .map(|e| e.timestamp)
        .collect();
    // ...and the same span in many small advances.
    let mut many = PlaybackState::new(LEAD, &track);
    many.resume();
    let mut pieces: Vec<u64> = Vec::new();
    for _ in 0..50 {
        for e in many.update(&track, (LEAD + 2_000_000) / 50) {
            pieces.push(e.timestamp);
        }
    }
    assert_eq!(whole, vec![500_000, 1_000_000, 1_500_000, 2_000_000]);
    assert_eq!(whole, pieces);
}

#[test]
fn seek_is_idempotent() {
    let track = simple_track();
    let mut s = PlaybackState::new(LEAD, &track);
    s.resume();
    s.update(&track, LEAD + 700_000);
    let offs1 = s.set_time(&track, LEAD + 1_700_000);
    let seen1 = s.seen_events;
    let time1 = s.time();
    assert_eq!(offs1.len(), 1, "the sounding note is silenced");
    let offs2 = s.set_time(&track, LEAD + 1_700_000);
    assert_eq!(offs2.len(), 0, "a repeated seek releases nothing");
    assert_eq!(s.seen_events, seen1);
    assert_eq!(s.time(), time1);
}

#[test]
fn pause_silences_exactly_the_active_notes() {
    let track = simple_track();
    let mut s = PlaybackState::new(LEAD, &track);
    s.resume();
    s.update(&track, LEAD + 600_000);
    assert_eq!(s.active_notes().len(), 1);
    let offs = s.pause();
    assert_eq!(
        offs,
        vec![(0u8, MidiMessage::NoteOff { key: 60, vel: 0 })]
    );
    assert_eq!(s.active_notes().len(), 0);
    assert!(s.is_paused());
}

#[test]
fn seek_never_re_raises_skipped_notes() {
    let track = simple_track();
    let mut s = PlaybackState::new(LEAD, &track);
    s.resume();
    // Seek into the middle of the first note: the note is not re-raised.
    let offs = s.set_time(&track, LEAD + 700_000);
    assert!(offs.is_empty());
    assert_eq!(s.active_notes().len(), 0);
    // The next update must not emit the skipped NoteOn again.
    let batch = s.update(&track, 300_000);
    assert_eq!(batch.len(), 1);
    assert!(matches!(batch[0].message, MidiMessage::NoteOff { .. }));
}

#[test]
fn seek_target_is_clamped_to_the_length() {
    let track = simple_track();
    let mut s = PlaybackState::new(LEAD, &track);
    s.set_time(&track, u64::MAX);
    assert_eq!(s.time(), s.length());
}

#[test]
fn empty_timeline_is_already_complete() {
    let map = TempoMap::build(&vec![], 480).unwrap();
    let track = MidiTrack::build(0, &vec![], &map).unwrap();
    let s = PlaybackState::new(LEAD, &track);
    assert_eq!(s.length(), LEAD);
    assert_eq!(s.percentage_permille(), 1000);
}

#[test]
fn percentage_is_clamped_and_exact() {
    let track = simple_track();
    let mut s = PlaybackState::new(LEAD, &track);
    assert_eq!(s.percentage_permille(), 0);
    s.resume();
    s.update(&track, LEAD + 500_000);
    assert_eq!(s.percentage_permille(), 250);
    s.update(&track, 1_500_000);
    assert_eq!(s.percentage_permille(), 1000);
    s.update(&track, 5_000_000);
    assert_eq!(s.percentage_permille(), 1000);
}

#[test]
fn duplicate_note_on_is_idempotent() {
    let mut set = ActiveNoteSet::new();
    set.insert(0, 60);
    set.insert(0, 60);
    assert_eq!(set.len(), 1);
    assert!(set.contains(0, 60));
    set.remove(0, 60);
    assert_eq!(set.len(), 0);
}

#[test]
fn active_note_set_iter_reports_insertion_order() {
    let mut set = ActiveNoteSet::new();
    set.insert(0, 60);
    set.insert(9, 38);
    set.remove(0, 60);
    set.insert(1, 62);
    assert_eq!(set.iter(), vec![(9, 38), (1, 62)]);
}
