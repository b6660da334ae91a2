use drumsthesia::events::{MidiMessage, TrackEvent};
use drumsthesia::metronome::{
    add_metronome, ACCENT_KEY, METRONOME_CHANNEL, METRONOME_TRACK, REGULAR_KEY, WOODBLOCK_PROGRAM,
};
use drumsthesia::tempo::TempoMap;
use drumsthesia::events::MidiTrack;

fn on(delta: u64, channel: u8, key: u8) -> TrackEvent {
    TrackEvent {
        delta,
        channel,
        message: MidiMessage::NoteOn { key, vel: 100 },
    }
}

fn off(delta: u64, channel: u8, key: u8) -> TrackEvent {
    TrackEvent {
        delta,
        channel,
        message: MidiMessage::NoteOff { key, vel: 0 },
    }
}

#[test]
fn ten_seconds_at_120_bpm_produces_forty_increasing_clicks() {
    // A track spanning exactly ten seconds at a constant 120 BPM.
    let ppqn = 480u16;
    let map = TempoMap::build(&vec![], ppqn).unwrap();
    let track = MidiTrack::build(0, &vec![on(0, 0, 60), off(9600, 0, 60)], &map).unwrap();
    assert_eq!(track.events[1].timestamp, 10_000_000);
    let merged = add_metronome(track, &map, ppqn);

    let clicks: Vec<(u64, u8, u8)> = merged
        .events
        .iter()
        .filter_map(|e| match e.message {
            MidiMessage::NoteOn { key, vel } if e.track_id == METRONOME_TRACK => {
                Some((e.timestamp, key, vel))
            }
            _ => None,
        })
        .collect();

    // One click per eighth note of 0.25 s, stopping once the next beat
    // reaches the ten-second end.
    assert_eq!(clicks.len(), 40);
    for (k, (ts, key, vel)) in clicks.iter().enumerate() {
        assert_eq!(*ts, 250_000 * k as u64);
        if k % 4 == 0 {
            assert_eq!((*key, *vel), (ACCENT_KEY, 127), "click {} is an accent", k);
        } else {
            assert_eq!((*key, *vel), (REGULAR_KEY, 80), "click {} is regular", k);
        }
    }
    for w in clicks.windows(2) {
        assert!(w[0].0 < w[1].0, "click timestamps strictly increase");
    }
    assert!(clicks.last().unwrap().0 < 10_000_000);
    assert_eq!(clicks.last().unwrap().0 + 250_000, 10_000_000);
}

#[test]
fn metronome_adds_a_woodblock_program_change() {
    let ppqn = 480u16;
    let map = TempoMap::build(&vec![], ppqn).unwrap();
    let track = MidiTrack::build(0, &vec![on(0, 0, 60), off(960, 0, 60)], &map).unwrap();
    let merged = add_metronome(track, &map, ppqn);
    let pcs: Vec<&drumsthesia::events::MidiEvent> = merged
        .events
        .iter()
        .filter(|e| matches!(e.message, MidiMessage::ProgramChange { .. }))
        .collect();
    assert_eq!(pcs.len(), 1);
    assert_eq!(pcs[0].channel, METRONOME_CHANNEL);
    assert_eq!(pcs[0].track_id, METRONOME_TRACK);
    assert_eq!(
        pcs[0].message,
        MidiMessage::ProgramChange {
            program: WOODBLOCK_PROGRAM
        }
    );
}

#[test]
fn metronome_keeps_the_stream_ordered_and_the_real_events() {
    let ppqn = 480u16;
    let map = TempoMap::build(&vec![], ppqn).unwrap();
    let track = MidiTrack::build(0, &vec![on(0, 0, 60), off(960, 0, 60)], &map).unwrap();
    let merged = add_metronome(track, &map, ppqn);
    let mut last = 0u64;
    for e in &merged.events {
        assert!(e.timestamp >= last);
        last = e.timestamp;
    }
    let real: Vec<_> = merged
        .events
        .iter()
        .filter(|e| e.track_id == 0)
        .collect();
    assert_eq!(real.len(), 2);
    assert_eq!(real[0].timestamp, 0);
    assert_eq!(real[1].timestamp, 1_000_000);
}

#[test]
fn empty_track_gets_no_clicks() {
    let ppqn = 480u16;
    let map = TempoMap::build(&vec![], ppqn).unwrap();
    let track = MidiTrack::build(0, &vec![], &map).unwrap();
    let merged = add_metronome(track, &map, ppqn);
    assert!(merged.events.is_empty());
}
