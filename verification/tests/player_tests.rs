use drumsthesia::events::{MidiMessage, TrackEvent};
use drumsthesia::player::{
    KeyPressSource, MidiPlayer, WaitForNotes, DRUM_CHANNEL, LEAD_IN_MICROS, VOLUME_CONTROLLER,
};
use drumsthesia::tempo::TempoMap;
use drumsthesia::events::MidiTrack;

fn on(delta: u64, channel: u8, key: u8) -> TrackEvent {
    TrackEvent {
        delta,
        channel,
        message: MidiMessage::NoteOn { key, vel: 100 },
    }
}

fn off(delta: u64, channel: u8, key: u8) -> TrackEvent {
    TrackEvent {
        delta,
        channel,
        message: MidiMessage::NoteOff { key, vel: 0 },
    }
}

/// Snare on the drum channel at 0.5 s, piano note at 1.0 s.
fn mixed_track() -> MidiTrack {
    let map = TempoMap::build(&vec![], 480).unwrap();
    MidiTrack::build(
        0,
        &vec![
            on(480, DRUM_CHANNEL, 38),
            off(240, DRUM_CHANNEL, 38),
            on(240, 0, 60),
            off(480, 0, 60),
        ],
        &map,
    )
    .unwrap()
}

#[test]
fn zero_delta_update_sends_the_volume_preamble() {
    let mut player = MidiPlayer::new(mixed_track(), false, 100, 40);
    let r = player.update(0, 10);
    assert_eq!(r.outgoing.len(), 16);
    for (ch, msg) in r.outgoing.iter().enumerate() {
        assert_eq!(msg.0, ch as u8);
        let expected = if ch as u8 == DRUM_CHANNEL { 100 } else { 40 };
        assert_eq!(
            msg.1,
            MidiMessage::Controller {
                controller: VOLUME_CONTROLLER,
                value: expected
            }
        );
    }
    assert!(r.events.is_none(), "the player starts paused");
}

#[test]
fn drum_notes_are_held_back_without_guide_notes() {
    let mut player = MidiPlayer::new(mixed_track(), false, 100, 40);
    player.start();
    let r = player.update(LEAD_IN_MICROS + 2_000_000, 10);
    // The batch carries every event, but only the non-drum notes go out.
    let batch = r.events.expect("playing");
    assert_eq!(batch.len(), 4);
    assert_eq!(r.outgoing.len(), 2);
    assert!(r.outgoing.iter().all(|(ch, _)| *ch == 0));
}

#[test]
fn guide_notes_let_drum_notes_through() {
    let mut player = MidiPlayer::new(mixed_track(), true, 100, 40);
    player.start();
    let r = player.update(LEAD_IN_MICROS + 2_000_000, 10);
    assert_eq!(r.outgoing.len(), 4);
}

#[test]
fn speed_multiplier_scales_the_frame_delta() {
    let mut player = MidiPlayer::new(mixed_track(), false, 100, 40);
    player.start();
    // Twice the speed: half the wall time reaches the first two events.
    let r = player.update((LEAD_IN_MICROS + 750_000) / 2, 20);
    assert_eq!(r.events.expect("playing").len(), 2);
}

#[test]
fn file_drum_hits_feed_the_practice_wait() {
    let mut player = MidiPlayer::new(mixed_track(), false, 100, 40);
    player.start();
    player.update(LEAD_IN_MICROS + 600_000, 10);
    // The snare at 0.5 s is now required; the wait is still on.
    assert!(!player.wait_for_notes().are_required_keys_pressed());
    // The player hits the snare (note 38 is lane 9).
    player
        .wait_for_notes()
        .press_key(KeyPressSource::User, 38, true);
    assert!(player.wait_for_notes().are_required_keys_pressed());
    // The wait set has drained and stays satisfied.
    assert!(player.wait_for_notes().are_required_keys_pressed());
}

#[test]
fn alternate_note_opens_the_same_lane() {
    let mut wait = WaitForNotes::new();
    wait.press_key(KeyPressSource::File, 38, true);
    // 40 is the alternate note of the snare lane.
    wait.press_key(KeyPressSource::User, 40, true);
    assert!(wait.are_required_keys_pressed());
}

#[test]
fn unmapped_notes_do_not_block_the_wait() {
    let mut wait = WaitForNotes::new();
    wait.press_key(KeyPressSource::File, 1, true);
    assert!(wait.are_required_keys_pressed());
}

#[test]
fn releases_do_not_register_hits() {
    let mut wait = WaitForNotes::new();
    wait.press_key(KeyPressSource::File, 38, true);
    wait.press_key(KeyPressSource::User, 38, false);
    assert!(!wait.are_required_keys_pressed());
}

#[test]
fn pause_resume_toggles_and_silences() {
    let mut player = MidiPlayer::new(mixed_track(), false, 100, 40);
    assert!(player.is_paused());
    let offs = player.pause_resume();
    assert!(offs.is_empty());
    assert!(!player.is_paused());
    player.update(LEAD_IN_MICROS + 600_000, 10);
    let offs = player.pause_resume();
    assert!(player.is_paused());
    assert_eq!(
        offs,
        vec![(DRUM_CHANNEL, MidiMessage::NoteOff { key: 38, vel: 0 })]
    );
}

#[test]
fn rewind_saturates_at_the_start() {
    let mut player = MidiPlayer::new(mixed_track(), false, 100, 40);
    player.set_time(2_000_000);
    player.rewind(-5_000);
    assert_eq!(player.playback.time(), 0);
}

#[test]
fn rewind_moves_by_milliseconds() {
    let mut player = MidiPlayer::new(mixed_track(), false, 100, 40);
    player.set_time(2_000_000);
    player.rewind(500);
    assert_eq!(player.playback.time(), 2_500_000);
    player.rewind(-1000);
    assert_eq!(player.playback.time(), 1_500_000);
}

#[test]
fn rewind_forward_is_clamped_to_the_length() {
    let mut player = MidiPlayer::new(mixed_track(), false, 100, 40);
    player.rewind(i64::MAX);
    assert_eq!(player.playback.time(), player.playback.length());
}

#[test]
fn pause_clears_and_reports_the_active_set() {
    let mut player = MidiPlayer::new(mixed_track(), false, 100, 40);
    player.start();
    player.update(LEAD_IN_MICROS + 1_200_000, 10);
    // The piano note at 1.0 s is sounding; the snare has ended.
    let offs = player.pause();
    assert_eq!(offs, vec![(0, MidiMessage::NoteOff { key: 60, vel: 0 })]);
    assert_eq!(player.playback.active_notes().len(), 0);
}

#[test]
fn time_and_percentage_queries() {
    let mut player = MidiPlayer::new(mixed_track(), false, 100, 40);
    // During the countdown the musical time is negative: the renderer uses
    // it to scroll the first notes in.
    assert_eq!(player.time_without_lead_in(), -(LEAD_IN_MICROS as i64));
    assert_eq!(player.percentage_permille(), 0);
    player.start();
    player.update(LEAD_IN_MICROS / 2, 10);
    assert_eq!(player.time_without_lead_in(), -(LEAD_IN_MICROS as i64) / 2);
    player.update(LEAD_IN_MICROS / 2 + 750_000, 10);
    // The timeline spans 1.5 s of musical time; 0.75 s is halfway.
    assert_eq!(player.time_without_lead_in(), 750_000);
    assert_eq!(player.percentage_permille(), 500);
}

#[test]
fn session_chunking_is_invariant_at_nominal_speed() {
    // The same span in one call and in odd-sized pieces that divide by
    // neither 10 nor 16 must emit exactly the same events.
    let mut one = MidiPlayer::new(mixed_track(), false, 100, 40);
    one.start();
    let whole: Vec<u64> = one
        .update(LEAD_IN_MICROS + 2_000_000, 10)
        .events
        .expect("playing")
        .iter()
        .map(|e| e.timestamp)
        .collect();
    let mut many = MidiPlayer::new(mixed_track(), false, 100, 40);
    many.start();
    let mut pieces: Vec<u64> = Vec::new();
    let total = LEAD_IN_MICROS + 2_000_000;
    let mut advanced = 0u64;
    while advanced < total {
        let step = (total - advanced).min(7_777);
        for e in many.update(step, 10).events.expect("playing") {
            pieces.push(e.timestamp);
        }
        advanced += step;
    }
    assert_eq!(whole, vec![500_000, 750_000, 1_000_000, 1_500_000]);
    assert_eq!(whole, pieces);
}

#[test]
fn update_scales_odd_deltas_exactly() {
    // 15 us at nominal speed advances the cursor by 15 us, not a rounded
    // 10; at speed 1.5 it advances by 22 (the floor of 22.5).
    let mut player = MidiPlayer::new(mixed_track(), false, 100, 40);
    player.start();
    player.update(15, 10);
    assert_eq!(player.playback.time(), 15);
    player.update(15, 15);
    assert_eq!(player.playback.time(), 37);
}

#[test]
fn permille_seek_lands_proportionally() {
    let mut player = MidiPlayer::new(mixed_track(), false, 100, 40);
    // The session length is the 3 s lead-in plus 1.5 s of music.
    let length = player.playback.length();
    player.set_permille_time(500);
    assert_eq!(player.playback.time(), length / 2);
    player.set_permille_time(1000);
    assert_eq!(player.playback.time(), length);
    player.set_permille_time(2000);
    assert_eq!(player.playback.time(), length, "over-full seeks cap at the length");
    player.set_permille_time(0);
    assert_eq!(player.playback.time(), 0);
}

#[test]
fn closed_wait_leaves_both_sets_alone() {
    let mut wait = WaitForNotes::new();
    wait.press_key(KeyPressSource::File, 38, true);
    wait.press_key(KeyPressSource::User, 49, true);
    // The snare is still owed: asking must not drain the crash hit.
    assert!(!wait.are_required_keys_pressed());
    wait.press_key(KeyPressSource::File, 49, true);
    // The earlier crash hit was kept, so both lanes are now covered.
    wait.press_key(KeyPressSource::User, 38, true);
    assert!(wait.are_required_keys_pressed());
}
