use drumsthesia::config::{
    default_color_schema, default_drums_volume, default_guide_notes, default_layout,
    default_music_volume, default_mute_drums, default_output, default_wait_for_notes,
    PlayingSceneLayout,
};
use drumsthesia::events::{MidiMessage, TrackEvent};
use drumsthesia::keyboard::{KeyId, KeyboardRange};
use drumsthesia::mapping::{
    get_all_midi_mappings, get_midi_mapping, get_midi_mapping_for_note, get_midi_mappings,
    midi_mappings_count,
};
use drumsthesia::menu::Step;
use drumsthesia::tempo::{LoadError, TempoPoint};
use drumsthesia::Midi;

#[test]
fn whole_file_load_produces_an_ordered_timeline() {
    let tempo_changes = vec![TempoPoint {
        tick: 960,
        microseconds_per_quarter: 250_000,
    }];
    let track_a = vec![
        TrackEvent {
            delta: 0,
            channel: 0,
            message: MidiMessage::NoteOn { key: 60, vel: 90 },
        },
        TrackEvent {
            delta: 480,
            channel: 0,
            message: MidiMessage::NoteOff { key: 60, vel: 0 },
        },
    ];
    let track_b = vec![
        TrackEvent {
            delta: 960,
            channel: 1,
            message: MidiMessage::NoteOn { key: 64, vel: 90 },
        },
        TrackEvent {
            delta: 480,
            channel: 1,
            message: MidiMessage::NoteOff { key: 64, vel: 0 },
        },
    ];
    let midi = Midi::from_parts(480, &tempo_changes, &vec![track_a, track_b]).unwrap();
    // Track A's note spans 0..0.5 s; track B's starts at 1.0 s and, at the
    // doubled tempo, lasts 0.25 s.
    assert_eq!(midi.merged_track.notes.len(), 2);
    assert_eq!(midi.merged_track.notes[0].start, 0);
    assert_eq!(midi.merged_track.notes[0].duration, 500_000);
    assert_eq!(midi.merged_track.notes[1].start, 1_000_000);
    assert_eq!(midi.merged_track.notes[1].duration, 250_000);
    let mut last = 0u64;
    for e in &midi.merged_track.events {
        assert!(e.timestamp >= last);
        last = e.timestamp;
    }
}

#[test]
fn whole_file_load_rejects_zero_ppqn() {
    assert!(matches!(
        Midi::from_parts(0, &vec![], &vec![]),
        Err(LoadError::ZeroPulsesPerQuarter)
    ));
}

#[test]
fn mapping_table_has_twelve_lanes() {
    assert_eq!(midi_mappings_count(), 12);
    let all = get_all_midi_mappings();
    let ids: Vec<u8> = all.iter().map(|m| m.id).collect();
    assert_eq!(ids, vec![0, 10, 7, 8, 9, 4, 5, 11, 6, 1, 3, 2]);
}

#[test]
fn mapping_lookup_by_note_finds_main_and_alternate() {
    assert_eq!(get_midi_mapping_for_note(49).unwrap().id, 0);
    assert_eq!(get_midi_mapping_for_note(55).unwrap().id, 0);
    assert_eq!(get_midi_mapping_for_note(38).unwrap().id, 9);
    assert!(get_midi_mapping_for_note(1).is_none());
}

#[test]
fn mapping_lookup_by_id() {
    let m = get_midi_mapping(11);
    assert_eq!(m.name, "Bass Drum");
    assert_eq!((m.note, m.alt_note), (35, 36));
}

#[test]
fn mappings_filtered_by_notes() {
    let hits = get_midi_mappings(vec![38, 42]);
    let ids: Vec<u8> = hits.iter().map(|m| m.id).collect();
    assert_eq!(ids, vec![8, 9]);
}

#[test]
fn mapping_accept_note_checks_both_notes() {
    let m = get_midi_mapping(9);
    assert!(m.accept_note(38));
    assert!(m.accept_note(40));
    assert!(!m.accept_note(39));
    assert!(m.accept_notes(vec![1, 2, 40]));
    assert!(!m.accept_notes(vec![1, 2, 3]));
}

#[test]
fn keyboard_range_covers_the_drum_notes() {
    let range = KeyboardRange::standard_88_keys();
    assert_eq!(range.count(), 26);
    assert!(range.contains(27));
    assert!(range.contains(52));
    assert!(!range.contains(53));
    assert!(!range.contains(26));
    let keys = range.iter();
    assert_eq!(keys[0], KeyId(27));
    assert_eq!(keys[25], KeyId(52));
}

#[test]
fn keyboard_range_default_is_standard() {
    let range = KeyboardRange::default();
    assert_eq!(range.count(), 26);
}

#[test]
fn keyboard_range_new_takes_half_open_bounds() {
    let range = KeyboardRange::new(10, 14);
    assert_eq!(range.count(), 4);
    assert_eq!(range.iter(), vec![KeyId(10), KeyId(11), KeyId(12), KeyId(13)]);
}

#[test]
fn config_defaults_match_the_settings_schema() {
    assert_eq!(default_wait_for_notes(), false);
    assert_eq!(default_guide_notes(), false);
    assert_eq!(default_mute_drums(), true);
    assert_eq!(default_music_volume(), 40);
    assert_eq!(default_drums_volume(), 100);
    assert_eq!(default_layout(), PlayingSceneLayout::Horizontal);
    assert_eq!(default_output().as_deref(), Some("Buildin Synth"));
    let schema = default_color_schema();
    assert_eq!(schema.blue, (69, 133, 136));
    assert_eq!(schema.beige, (235, 219, 178));
}

#[test]
fn layout_labels() {
    assert_eq!(PlayingSceneLayout::Horizontal.label(), "Horizontal");
    assert_eq!(PlayingSceneLayout::Vertical.label(), "Vertical");
}

#[test]
fn menu_steps_are_distinct() {
    assert_ne!(Step::Exit, Step::Main);
    assert_ne!(Step::Main, Step::Settings);
    assert_eq!(Step::Settings, Step::Settings);
}
