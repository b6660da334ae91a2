//! The session layer around the playback cursor: it owns the loaded file's
//! merged timeline, scales frame time by the speed multiplier, decides
//! which emitted events go out to the device, feeds the practice wait that
//! waits for the player's drum hits, and never leaves a note stuck on.

use vstd::prelude::*;

use crate::events::MidiEvent;
use crate::events::MidiMessage;
use crate::events::MidiTrack;
use crate::events::events_sorted;
use crate::mapping::get_midi_mapping_for_note;
use crate::mapping::spec_first_accepting;
use crate::mapping::spec_mappings;
use crate::playback::PlaybackState;
use crate::playback::spec_apply_events;
use crate::playback::spec_fired_count;
use crate::playback::spec_length;

verus! {

/// The channel that carries the drum part.
pub const DRUM_CHANNEL: u8 = 9;

/// The silent countdown before musical time starts, in microseconds.
pub const LEAD_IN_MICROS: u64 = 3_000_000;

/// The controller number that sets a channel's volume.
pub const VOLUME_CONTROLLER: u8 = 7;

/// The practice wait: the drum hits the file asks for next to each other
/// with the hits the player has given, drained together once every
/// required lane has been hit.
pub struct WaitForNotes {
    pub required_notes: Vec<u8>,
    pub played_notes: Vec<u8>,
}

/// The lane id set after the file sounds a drum note: the note's lane is
/// recorded once.
pub open spec fn spec_file_press(required: Seq<u8>, note: u8) -> Seq<u8> {
    match spec_first_accepting(spec_mappings(), note) {
        None => required,
        Some(i) => {
            let id = spec_mappings()[i].id;
            if required.contains(id) {
                required
            } else {
                required.push(id)
            }
        },
    }
}

/// Every element of `a` occurs in `b`.
pub open spec fn spec_subset(a: Seq<u8>, b: Seq<u8>) -> bool {
    forall|i: int| 0 <= i < a.len() ==> b.contains(#[trigger] a[i])
}

impl WaitForNotes {
    /// Neither list records a lane twice.
    pub open spec fn wf(self) -> bool {
        &&& (forall|i: int, j: int|
            0 <= i < j < self.required_notes@.len() ==> self.required_notes@[i]
                != self.required_notes@[j])
        &&& (forall|i: int, j: int|
            0 <= i < j < self.played_notes@.len() ==> self.played_notes@[i]
                != self.played_notes@[j])
    }

    /// An empty wait set: nothing required, nothing played.
    pub fn new() -> (r: WaitForNotes)
        ensures
            r.required_notes@ == Seq::<u8>::empty(),
            r.played_notes@ == Seq::<u8>::empty(),
            r.wf(),
    {
        WaitForNotes { required_notes: Vec::new(), played_notes: Vec::new() }
    }

    /// Records a drum hit of the player: the hit's lane id joins the
    /// played set while the key is going down.
    fn user_press_key(&mut self, note: u8, active: bool)
        requires
            old(self).wf(),
        ensures
            final(self).wf(),
            final(self).required_notes@ == old(self).required_notes@,
            final(self).played_notes@ == (if active {
                match spec_first_accepting(spec_mappings(), note) {
                    None => old(self).played_notes@,
                    Some(i) => (if old(self).played_notes@.contains(spec_mappings()[i].id) {
                        old(self).played_notes@
                    } else {
                        old(self).played_notes@.push(spec_mappings()[i].id)
                    }),
                }
            } else {
                old(self).played_notes@
            }),
    {
        match get_midi_mapping_for_note(note) {
            Some(mapping) => {
                if active {
                    insert_unique(&mut self.played_notes, mapping.id);
                }
            },
            None => {},
        }
    }

    /// Records a drum note of the file: the note's lane id joins the
    /// required set while the note is starting.
    fn file_press_key(&mut self, note: u8, active: bool)
        requires
            old(self).wf(),
        ensures
            final(self).wf(),
            final(self).played_notes@ == old(self).played_notes@,
            final(self).required_notes@ == (if active {
                spec_file_press(old(self).required_notes@, note)
            } else {
                old(self).required_notes@
            }),
    {
        match get_midi_mapping_for_note(note) {
            Some(mapping) => {
                if active {
                    insert_unique(&mut self.required_notes, mapping.id);
                }
            },
            None => {},
        }
    }

    /// Drains both sets once every required lane has been played.
    fn check_and_drain(&mut self)
        requires
            old(self).wf(),
        ensures
            final(self).wf(),
            ({
                let drained = old(self).required_notes@.len() > 0 && spec_subset(
                    old(self).required_notes@,
                    old(self).played_notes@,
                );
                if drained {
                    final(self).required_notes@ == Seq::<u8>::empty() && final(self).played_notes@
                        == Seq::<u8>::empty()
                } else {
                    *final(self) == *old(self)
                }
            }),
    {
        let has_required = self.required_notes.len() > 0;
        if has_required && is_subset(&self.required_notes, &self.played_notes) {
            self.required_notes.clear();
            self.played_notes.clear();
        }
    }

    /// Records a key press, from the file or from the player.
    pub fn press_key(&mut self, src: KeyPressSource, note: u8, active: bool)
        requires
            old(self).wf(),
        ensures
            final(self).wf(),
            src is User ==> final(self).required_notes@ == old(self).required_notes@,
            src is User ==> final(self).played_notes@ == (if active {
                match spec_first_accepting(spec_mappings(), note) {
                    None => old(self).played_notes@,
                    Some(i) => (if old(self).played_notes@.contains(spec_mappings()[i].id) {
                        old(self).played_notes@
                    } else {
                        old(self).played_notes@.push(spec_mappings()[i].id)
                    }),
                }
            } else {
                old(self).played_notes@
            }),
            src is File ==> final(self).played_notes@ == old(self).played_notes@,
            src is File ==> final(self).required_notes@ == (if active {
                spec_file_press(old(self).required_notes@, note)
            } else {
                old(self).required_notes@
            }),
    {
        match src {
            KeyPressSource::User => self.user_press_key(note, active),
            KeyPressSource::File => self.file_press_key(note, active),
        }
    }

    /// Whether every required lane has been played: drains both sets
    /// together when the wait opens on a non-empty requirement, leaves
    /// both untouched otherwise, and reports whether nothing (or nothing
    /// anymore) is owed.
    pub fn are_required_keys_pressed(&mut self) -> (r: bool)
        requires
            old(self).wf(),
        ensures
            final(self).wf(),
            r == (old(self).required_notes@.len() == 0 || spec_subset(
                old(self).required_notes@,
                old(self).played_notes@,
            )),
            old(self).required_notes@.len() > 0 && spec_subset(
                old(self).required_notes@,
                old(self).played_notes@,
            ) ==> final(self).required_notes@ == Seq::<u8>::empty()
                && final(self).played_notes@ == Seq::<u8>::empty(),
            !(old(self).required_notes@.len() > 0 && spec_subset(
                old(self).required_notes@,
                old(self).played_notes@,
            )) ==> *final(self) == *old(self),
            r ==> final(self).required_notes@.len() == 0,
    {
        self.check_and_drain();
        self.required_notes.len() == 0
    }
}

impl Default for WaitForNotes {
    /// An empty wait set.
    fn default() -> (r: WaitForNotes)
        ensures
            r.required_notes@ == Seq::<u8>::empty(),
            r.played_notes@ == Seq::<u8>::empty(),
            r.wf(),
    {
        WaitForNotes::new()
    }
}

/// Who pressed a key: the file's own playback or the player at the drums.
pub enum KeyPressSource {
    File,
    User,
}

/// The cursor time one frame advances: the frame delta scaled by the speed
/// multiplier (given in tenths of the nominal rate), floored to whole
/// microseconds.
pub open spec fn spec_scaled_elapsed(delta_micros: u64, speed_multiplier_tenths: u32) -> int {
    (delta_micros as int) * (speed_multiplier_tenths as int) / 10
}

/// The per-channel volume preamble: one volume controller message for each
/// of the sixteen channels, the drum channel at its own level.
pub open spec fn spec_volume_msgs(drums_volume: u8, music_volume: u8) -> Seq<(u8, MidiMessage)> {
    Seq::new(
        16,
        |i: int|
            (
                i as u8,
                MidiMessage::Controller {
                    controller: VOLUME_CONTROLLER,
                    value: if i == DRUM_CHANNEL as int {
                        drums_volume
                    } else {
                        music_volume
                    },
                },
            ),
    )
}

/// Which messages of an emitted batch go out to the device: program
/// changes, pitch bends and controllers always; notes always, except that
/// drum-channel notes are held back unless guide notes are on.
pub open spec fn spec_outgoing_of(batch: Seq<MidiEvent>, guide_notes: bool) -> Seq<
    (u8, MidiMessage),
>
    decreases batch.len(),
{
    if batch.len() == 0 {
        Seq::empty()
    } else {
        let e = batch[0];
        let rest = spec_outgoing_of(batch.drop_first(), guide_notes);
        match e.message {
            MidiMessage::NoteOn { .. } => if e.channel == DRUM_CHANNEL && !guide_notes {
                rest
            } else {
                seq![(e.channel, e.message)] + rest
            },
            MidiMessage::NoteOff { .. } => if e.channel == DRUM_CHANNEL && !guide_notes {
                rest
            } else {
                seq![(e.channel, e.message)] + rest
            },
            _ => seq![(e.channel, e.message)] + rest,
        }
    }
}

/// The practice wait's required set after an emitted batch: every
/// drum-channel NoteOn records its lane.
pub open spec fn spec_required_after(required: Seq<u8>, batch: Seq<MidiEvent>) -> Seq<u8>
    decreases batch.len(),
{
    if batch.len() == 0 {
        required
    } else {
        let e = batch[0];
        let req2 = match e.message {
            MidiMessage::NoteOn { key, .. } => if e.channel == DRUM_CHANNEL {
                spec_file_press(required, key)
            } else {
                required
            },
            _ => required,
        };
        spec_required_after(req2, batch.drop_first())
    }
}

/// What one frame's update hands back: the messages to send to the output
/// device, and — while playing — the batch of newly reached events for the
/// renderer.
pub struct PlayerUpdate {
    pub outgoing: Vec<(u8, MidiMessage)>,
    pub events: Option<Vec<MidiEvent>>,
}

/// The playback session over one loaded file.
///
/// A session about to be discarded must first be `pause`d (and the
/// returned NoteOffs sent), or notes it has raised stay sounding: the core
/// has no destructor of its own to run that flush.
pub struct MidiPlayer {
    pub playback: PlaybackState,
    pub merged_track: MidiTrack,
    pub wait_for_notes: WaitForNotes,
    pub guide_notes: bool,
    pub drums_volume: u8,
    pub music_volume: u8,
}

impl MidiPlayer {
    /// The cursor fits the owned timeline and the wait set is consistent.
    pub open spec fn wf(self) -> bool {
        &&& self.playback.wf_for(self.merged_track)
        &&& self.wait_for_notes.wf()
    }

    /// Creates a paused session over a merged timeline, with the standard
    /// three-second lead-in.
    pub fn new(
        merged_track: MidiTrack,
        guide_notes: bool,
        drums_volume: u8,
        music_volume: u8,
    ) -> (r: MidiPlayer)
        requires
            events_sorted(merged_track.events@),
            spec_length(merged_track, LEAD_IN_MICROS as int) <= u64::MAX,
        ensures
            r.wf(),
            r.merged_track == merged_track,
            r.guide_notes == guide_notes,
            r.drums_volume == drums_volume,
            r.music_volume == music_volume,
            r.playback.time == 0,
            r.playback.lead_in == LEAD_IN_MICROS,
            r.playback.is_paused,
            r.playback.seen_events == 0,
            r.playback.active.entries@ == Seq::<(u8, u8)>::empty(),
            r.wait_for_notes.required_notes@ == Seq::<u8>::empty(),
            r.wait_for_notes.played_notes@ == Seq::<u8>::empty(),
    {
        let playback = PlaybackState::new(LEAD_IN_MICROS, &merged_track);
        MidiPlayer {
            playback,
            merged_track,
            wait_for_notes: WaitForNotes::new(),
            guide_notes,
            drums_volume,
            music_volume,
        }
    }

    /// One frame: scales the frame delta by the speed multiplier (given in
    /// tenths), advances the cursor, collects the newly reached events,
    /// decides which messages go out to the device, and feeds every
    /// drum-channel NoteOn to the practice wait.  A zero delta instead
    /// (re)sends the per-channel volume preamble.  While paused the events
    /// are withheld (`None`), as the cursor does not move.
    pub fn update(&mut self, delta_micros: u64, speed_multiplier_tenths: u32) -> (r: PlayerUpdate)
        requires
            old(self).wf(),
            old(self).playback.time + spec_scaled_elapsed(delta_micros, speed_multiplier_tenths)
                <= u64::MAX,
        ensures
            final(self).wf(),
            final(self).merged_track == old(self).merged_track,
            final(self).guide_notes == old(self).guide_notes,
            final(self).drums_volume == old(self).drums_volume,
            final(self).music_volume == old(self).music_volume,
            final(self).playback.lead_in == old(self).playback.lead_in,
            final(self).playback.length == old(self).playback.length,
            final(self).playback.is_paused == old(self).playback.is_paused,
            old(self).playback.is_paused ==> final(self).playback == old(self).playback,
            !old(self).playback.is_paused ==> {
                &&& final(self).playback.time as int == old(self).playback.time
                    + spec_scaled_elapsed(delta_micros, speed_multiplier_tenths)
                &&& old(self).playback.seen_events <= final(self).playback.seen_events
                &&& final(self).playback.seen_events as int == spec_fired_count(
                    old(self).merged_track.events@,
                    old(self).playback.lead_in as int,
                    final(self).playback.time as int,
                )
                &&& final(self).playback.active.entries@ == spec_apply_events(
                    old(self).playback.active.entries@,
                    old(self).merged_track.events@.subrange(
                        old(self).playback.seen_events as int,
                        final(self).playback.seen_events as int,
                    ),
                )
            },
            ({
                let batch = old(self).merged_track.events@.subrange(
                    old(self).playback.seen_events as int,
                    final(self).playback.seen_events as int,
                );
                let preamble = if delta_micros == 0 {
                    spec_volume_msgs(old(self).drums_volume, old(self).music_volume)
                } else {
                    Seq::<(u8, MidiMessage)>::empty()
                };
                &&& r.outgoing@ == preamble + spec_outgoing_of(batch, old(self).guide_notes)
                &&& (old(self).playback.is_paused ==> r.events is None)
                &&& (!old(self).playback.is_paused ==> (r.events matches Some(b) && b@ == batch))
                &&& final(self).wait_for_notes.required_notes@ == spec_required_after(
                    old(self).wait_for_notes.required_notes@,
                    batch,
                )
                &&& final(self).wait_for_notes.played_notes@ == old(
                    self,
                ).wait_for_notes.played_notes@
            }),
    {
        let mut outgoing: Vec<(u8, MidiMessage)> = Vec::new();
        let ghost preamble = if delta_micros == 0 {
            spec_volume_msgs(self.drums_volume, self.music_volume)
        } else {
            Seq::<(u8, MidiMessage)>::empty()
        };
        if delta_micros == 0 {
            let mut ch: u8 = 0;
            while ch < 16
                invariant
                    ch <= 16,
                    outgoing@ == spec_volume_msgs(self.drums_volume, self.music_volume).take(
                        ch as int,
                    ),
                    preamble == spec_volume_msgs(self.drums_volume, self.music_volume),
                decreases 16 - ch,
            {
                let value = if ch == DRUM_CHANNEL {
                    self.drums_volume
                } else {
                    self.music_volume
                };
                outgoing.push(
                    (ch, MidiMessage::Controller { controller: VOLUME_CONTROLLER, value }),
                );
                proof {
                    assert(spec_volume_msgs(self.drums_volume, self.music_volume).take(
                        ch as int,
                    ).push(spec_volume_msgs(self.drums_volume, self.music_volume)[ch as int])
                        =~= spec_volume_msgs(self.drums_volume, self.music_volume).take(
                        ch as int + 1,
                    ));
                }
                ch = ch + 1;
            }
            proof {
                assert(spec_volume_msgs(self.drums_volume, self.music_volume).take(16)
                    =~= spec_volume_msgs(self.drums_volume, self.music_volume));
            }
        }
        proof {
            assert(outgoing@ =~= preamble);
        }
        proof {
            vstd::arithmetic::mul::lemma_mul_nonnegative(
                delta_micros as int,
                speed_multiplier_tenths as int,
            );
            vstd::arithmetic::div_mod::lemma_div_pos_is_pos(
                (delta_micros as int) * (speed_multiplier_tenths as int),
                10,
            );
            vstd::arithmetic::mul::lemma_mul_upper_bound(
                delta_micros as int,
                u64::MAX as int,
                speed_multiplier_tenths as int,
                u32::MAX as int,
            );
        }
        let elapsed128: u128 = (delta_micros as u128) * (speed_multiplier_tenths as u128) / 10;
        let elapsed: u64 = elapsed128 as u64;
        proof {
            assert(elapsed as int == spec_scaled_elapsed(delta_micros, speed_multiplier_tenths));
        }
        let batch = self.playback.update(&self.merged_track, elapsed);
        let ghost pb = self.playback;
        let ghost full = batch@;
        let ghost req0 = self.wait_for_notes.required_notes@;
        let ghost made: Seq<(u8, MidiMessage)> = Seq::empty();
        proof {
            assert(full.skip(0) =~= full);
            let made0: Seq<(u8, MidiMessage)> = Seq::empty();
            assert(outgoing@ == preamble + made0);
            assert((made0 + spec_outgoing_of(full.skip(0), self.guide_notes)) == spec_outgoing_of(
                full,
                self.guide_notes,
            )) by {
                assert(made0 + spec_outgoing_of(full.skip(0), self.guide_notes)
                    =~= spec_outgoing_of(full, self.guide_notes));
            }
        }
        let mut k: usize = 0;
        while k < batch.len()
            invariant
                k <= full.len(),
                batch@ == full,
                self.wait_for_notes.wf(),
                self.guide_notes == old(self).guide_notes,
                exists|made: Seq<(u8, MidiMessage)>|
                    outgoing@ == preamble + made && #[trigger] (made + spec_outgoing_of(
                        full.skip(k as int),
                        self.guide_notes,
                    )) == spec_outgoing_of(full, self.guide_notes),
                spec_required_after(req0, full) == spec_required_after(
                    self.wait_for_notes.required_notes@,
                    full.skip(k as int),
                ),
                self.wait_for_notes.played_notes@ == old(self).wait_for_notes.played_notes@,
                self.playback == pb,
                self.merged_track == old(self).merged_track,
                self.drums_volume == old(self).drums_volume,
                self.music_volume == old(self).music_volume,
            decreases full.len() - k,
        {
            let e = batch[k];
            let ghost rest = full.skip(k as int);
            let ghost made0 = choose|made: Seq<(u8, MidiMessage)>|
                outgoing@ == preamble + made && #[trigger] (made + spec_outgoing_of(
                    rest,
                    self.guide_notes,
                )) == spec_outgoing_of(full, self.guide_notes);
            proof {
                assert(rest[0] == e);
                assert(rest.drop_first() =~= full.skip(k as int + 1));
            }
            match e.message {
                MidiMessage::NoteOn { key, .. } => {
                    if e.channel == DRUM_CHANNEL {
                        self.wait_for_notes.press_key(KeyPressSource::File, key, true);
                    }
                    if !(e.channel == DRUM_CHANNEL && !self.guide_notes) {
                        outgoing.push((e.channel, e.message));
                        proof {
                            let made1 = made0.push((e.channel, e.message));
                            assert(outgoing@ =~= preamble + made1);
                            assert(made1 + spec_outgoing_of(rest.drop_first(), self.guide_notes)
                                =~= made0 + (seq![(e.channel, e.message)] + spec_outgoing_of(
                                rest.drop_first(),
                                self.guide_notes,
                            )));
                        }
                    }
                },
                MidiMessage::NoteOff { key, .. } => {
                    if e.channel == DRUM_CHANNEL {
                        self.wait_for_notes.press_key(KeyPressSource::File, key, false);
                    }
                    if !(e.channel == DRUM_CHANNEL && !self.guide_notes) {
                        outgoing.push((e.channel, e.message));
                        proof {
                            let made1 = made0.push((e.channel, e.message));
                            assert(outgoing@ =~= preamble + made1);
                            assert(made1 + spec_outgoing_of(rest.drop_first(), self.guide_notes)
                                =~= made0 + (seq![(e.channel, e.message)] + spec_outgoing_of(
                                rest.drop_first(),
                                self.guide_notes,
                            )));
                        }
                    }
                },
                _ => {
                    outgoing.push((e.channel, e.message));
                    proof {
                        let made1 = made0.push((e.channel, e.message));
                        assert(outgoing@ =~= preamble + made1);
                        assert(made1 + spec_outgoing_of(rest.drop_first(), self.guide_notes)
                            =~= made0 + (seq![(e.channel, e.message)] + spec_outgoing_of(
                            rest.drop_first(),
                            self.guide_notes,
                        )));
                    }
                },
            }
            k = k + 1;
        }
        proof {
            assert(full.skip(full.len() as int).len() == 0);
            let made_last = choose|made: Seq<(u8, MidiMessage)>|
                outgoing@ == preamble + made && #[trigger] (made + spec_outgoing_of(
                    full.skip(full.len() as int),
                    self.guide_notes,
                )) == spec_outgoing_of(full, self.guide_notes);
            assert(made_last + Seq::<(u8, MidiMessage)>::empty() =~= made_last);
            assert(outgoing@ =~= preamble + spec_outgoing_of(full, self.guide_notes));
        }
        let paused = self.playback.is_paused();
        if paused {
            PlayerUpdate { outgoing, events: None }
        } else {
            PlayerUpdate { outgoing, events: Some(batch) }
        }
    }

    /// Starts playback.
    pub fn start(&mut self)
        requires
            old(self).wf(),
        ensures
            final(self).wf(),
            *final(self) == (MidiPlayer {
                playback: PlaybackState { is_paused: false, ..old(self).playback },
                ..*old(self)
            }),
    {
        self.resume();
    }

    /// Resumes playback from the current position.
    pub fn resume(&mut self)
        requires
            old(self).wf(),
        ensures
            final(self).wf(),
            *final(self) == (MidiPlayer {
                playback: PlaybackState { is_paused: false, ..old(self).playback },
                ..*old(self)
            }),
    {
        self.playback.resume();
    }

    /// Pauses playback and silences every sounding note: the returned
    /// batch holds exactly one zero-velocity NoteOff per note of the
    /// pre-call active set, which is left empty.
    pub fn pause(&mut self) -> (offs: Vec<(u8, MidiMessage)>)
        requires
            old(self).wf(),
        ensures
            final(self).wf(),
            final(self).merged_track == old(self).merged_track,
            final(self).wait_for_notes == old(self).wait_for_notes,
            final(self).guide_notes == old(self).guide_notes,
            final(self).drums_volume == old(self).drums_volume,
            final(self).music_volume == old(self).music_volume,
            final(self).playback.is_paused,
            final(self).playback.time == old(self).playback.time,
            final(self).playback.lead_in == old(self).playback.lead_in,
            final(self).playback.length == old(self).playback.length,
            final(self).playback.seen_events == old(self).playback.seen_events,
            final(self).playback.active.entries@ == Seq::<(u8, u8)>::empty(),
            offs@.len() == old(self).playback.active.entries@.len(),
            forall|i: int|
                0 <= i < offs@.len() ==> #[trigger] offs@[i] == (
                    old(self).playback.active.entries@[i].0,
                    MidiMessage::NoteOff {
                        key: old(self).playback.active.entries@[i].1,
                        vel: 0,
                    },
                ),
    {
        self.playback.pause()
    }

    /// Pauses when playing, resumes when paused; the returned batch holds
    /// the forced NoteOffs of a pause and is empty on a resume.
    pub fn pause_resume(&mut self) -> (offs: Vec<(u8, MidiMessage)>)
        requires
            old(self).wf(),
        ensures
            final(self).wf(),
            final(self).playback.is_paused == !old(self).playback.is_paused,
            old(self).playback.is_paused ==> *final(self) == (MidiPlayer {
                playback: PlaybackState { is_paused: false, ..old(self).playback },
                ..*old(self)
            }) && offs@ == Seq::<(u8, MidiMessage)>::empty(),
            !old(self).playback.is_paused ==> {
                &&& final(self).playback.active.entries@ == Seq::<(u8, u8)>::empty()
                &&& offs@.len() == old(self).playback.active.entries@.len()
                &&& forall|i: int|
                    0 <= i < offs@.len() ==> #[trigger] offs@[i] == (
                        old(self).playback.active.entries@[i].0,
                        MidiMessage::NoteOff {
                            key: old(self).playback.active.entries@[i].1,
                            vel: 0,
                        },
                    )
            },
    {
        if self.playback.is_paused() {
            self.resume();
            Vec::new()
        } else {
            self.pause()
        }
    }

    /// Seeks to an absolute time: clamps the target to the session length,
    /// silences every sounding note, and recomputes the cursor index by
    /// binary search — notes skipped over are never re-raised.
    pub fn set_time(&mut self, time: u64) -> (offs: Vec<(u8, MidiMessage)>)
        requires
            old(self).wf(),
        ensures
            final(self).wf(),
            final(self).merged_track == old(self).merged_track,
            final(self).wait_for_notes == old(self).wait_for_notes,
            final(self).guide_notes == old(self).guide_notes,
            final(self).drums_volume == old(self).drums_volume,
            final(self).music_volume == old(self).music_volume,
            final(self).playback.is_paused == old(self).playback.is_paused,
            final(self).playback.lead_in == old(self).playback.lead_in,
            final(self).playback.length == old(self).playback.length,
            final(self).playback.time == (if time > old(self).playback.length {
                old(self).playback.length
            } else {
                time
            }),
            final(self).playback.seen_events as int == spec_fired_count(
                old(self).merged_track.events@,
                old(self).playback.lead_in as int,
                final(self).playback.time as int,
            ),
            final(self).playback.active.entries@ == Seq::<(u8, u8)>::empty(),
            offs@.len() == old(self).playback.active.entries@.len(),
            forall|i: int|
                0 <= i < offs@.len() ==> #[trigger] offs@[i] == (
                    old(self).playback.active.entries@[i].0,
                    MidiMessage::NoteOff {
                        key: old(self).playback.active.entries@[i].1,
                        vel: 0,
                    },
                ),
    {
        let track = &self.merged_track;
        self.playback.set_time(track, time)
    }

    /// Seeks to a fraction of the session length given in thousandths:
    /// the seek lands at `permille * length / 1000`, capped at the length,
    /// with exactly the side effects of `set_time`.
    pub fn set_permille_time(&mut self, permille: u64) -> (offs: Vec<(u8, MidiMessage)>)
        requires
            old(self).wf(),
        ensures
            final(self).wf(),
            final(self).merged_track == old(self).merged_track,
            final(self).wait_for_notes == old(self).wait_for_notes,
            final(self).guide_notes == old(self).guide_notes,
            final(self).drums_volume == old(self).drums_volume,
            final(self).music_volume == old(self).music_volume,
            final(self).playback.is_paused == old(self).playback.is_paused,
            final(self).playback.lead_in == old(self).playback.lead_in,
            final(self).playback.length == old(self).playback.length,
            final(self).playback.time as int == (if permille as int * old(self).playback.length
                / 1000 > old(self).playback.length {
                old(self).playback.length as int
            } else {
                permille as int * old(self).playback.length / 1000
            }),
            final(self).playback.seen_events as int == spec_fired_count(
                old(self).merged_track.events@,
                old(self).playback.lead_in as int,
                final(self).playback.time as int,
            ),
            final(self).playback.active.entries@ == Seq::<(u8, u8)>::empty(),
            offs@.len() == old(self).playback.active.entries@.len(),
            forall|i: int|
                0 <= i < offs@.len() ==> #[trigger] offs@[i] == (
                    old(self).playback.active.entries@[i].0,
                    MidiMessage::NoteOff {
                        key: old(self).playback.active.entries@[i].1,
                        vel: 0,
                    },
                ),
    {
        let length = self.playback.length();
        proof {
            vstd::arithmetic::mul::lemma_mul_nonnegative(permille as int, length as int);
            vstd::arithmetic::div_mod::lemma_div_pos_is_pos(
                permille as int * length as int,
                1000,
            );
            vstd::arithmetic::mul::lemma_mul_upper_bound(
                permille as int,
                u64::MAX as int,
                length as int,
                u64::MAX as int,
            );
        }
        let scaled: u128 = (permille as u128) * (length as u128) / 1000;
        let target: u64 = if scaled > length as u128 {
            length
        } else {
            scaled as u64
        };
        self.set_time(target)
    }

    /// Moves the cursor by a signed number of milliseconds: backwards
    /// saturates at the start, forwards is clamped to the session length
    /// by the seek itself.  The forced NoteOffs of the seek are returned.
    pub fn rewind(&mut self, delta: i64) -> (offs: Vec<(u8, MidiMessage)>)
        requires
            old(self).wf(),
        ensures
            final(self).wf(),
            final(self).playback.time == ({
                let target = spec_rewind_target(old(self).playback.time, delta as int);
                if target > old(self).playback.length {
                    old(self).playback.length
                } else {
                    target
                }
            }),
            final(self).playback.seen_events as int == spec_fired_count(
                old(self).merged_track.events@,
                old(self).playback.lead_in as int,
                final(self).playback.time as int,
            ),
            final(self).playback.active.entries@ == Seq::<(u8, u8)>::empty(),
            offs@.len() == old(self).playback.active.entries@.len(),
            forall|i: int|
                0 <= i < offs@.len() ==> #[trigger] offs@[i] == (
                    old(self).playback.active.entries@[i].0,
                    MidiMessage::NoteOff {
                        key: old(self).playback.active.entries@[i].1,
                        vel: 0,
                    },
                ),
            final(self).merged_track == old(self).merged_track,
            final(self).playback.is_paused == old(self).playback.is_paused,
            final(self).playback.lead_in == old(self).playback.lead_in,
            final(self).playback.length == old(self).playback.length,
    {
        let time = self.playback.time();
        let target: u64;
        if delta < 0 {
            let mag = (-(delta + 1)) as u64 + 1;
            let micros = if mag > u64::MAX / 1000 {
                u64::MAX
            } else {
                mag * 1000
            };
            target = if micros > time {
                0
            } else {
                time - micros
            };
        } else {
            let mag = delta as u64;
            let micros = if mag > u64::MAX / 1000 {
                u64::MAX
            } else {
                mag * 1000
            };
            target = if micros > u64::MAX - time {
                u64::MAX
            } else {
                time + micros
            };
        }
        self.set_time(target)
    }

    /// Musical time: the cursor time with the lead-in taken off, in
    /// signed microseconds — negative while the countdown still runs, which
    /// is what a renderer uses to scroll the first notes in.
    pub fn time_without_lead_in(&self) -> (r: i64)
        requires
            self.playback.time <= i64::MAX as u64,
            self.playback.lead_in <= i64::MAX as u64,
        ensures
            r as int == self.playback.time - self.playback.lead_in,
    {
        let time = self.playback.time();
        let lead_in = self.playback.lead_in();
        if time >= lead_in {
            (time - lead_in) as i64
        } else {
            -((lead_in - time) as i64)
        }
    }

    /// How far playback has come, in thousandths of the musical span,
    /// clamped to 0..=1000; an empty timeline counts as complete.
    pub fn percentage_permille(&self) -> (r: u64)
        ensures
            r <= 1000,
            r as int == (if self.playback.length <= self.playback.lead_in {
                1000int
            } else if self.playback.time <= self.playback.lead_in {
                0int
            } else if 1000 * (self.playback.time - self.playback.lead_in) / (self.playback.length
                - self.playback.lead_in) > 1000 {
                1000int
            } else {
                1000 * (self.playback.time - self.playback.lead_in) / (self.playback.length
                    - self.playback.lead_in)
            }),
    {
        self.playback.percentage_permille()
    }

    /// Whether playback is paused.
    pub fn is_paused(&self) -> (r: bool)
        ensures
            r == self.playback.is_paused,
    {
        self.playback.is_paused()
    }

    /// The practice wait, for feeding the player's own drum hits.
    pub fn wait_for_notes(&mut self) -> (r: &mut WaitForNotes)
        ensures
            *r == old(self).wait_for_notes,
            *final(self) == (MidiPlayer { wait_for_notes: *final(r), ..*old(self) }),
    {
        &mut self.wait_for_notes
    }
}

/// Where a rewind of `delta` milliseconds moves the cursor before the seek
/// clamps it: backwards saturating at zero, forwards saturating at the
/// 64-bit range, with the millisecond scaling itself saturating.
pub open spec fn spec_rewind_target(time: u64, delta: int) -> u64 {
    let mag = if delta < 0 {
        -delta
    } else {
        delta
    };
    let micros = if mag > u64::MAX as int / 1000 {
        u64::MAX as int
    } else {
        mag * 1000
    };
    if delta < 0 {
        if micros > time {
            0u64
        } else {
            (time - micros) as u64
        }
    } else {
        if micros > u64::MAX - time {
            u64::MAX
        } else {
            (time + micros) as u64
        }
    }
}

/// Adds a lane id to a duplicate-free list if it is not yet there.
fn insert_unique(v: &mut Vec<u8>, x: u8)
    requires
        forall|i: int, j: int| 0 <= i < j < old(v)@.len() ==> old(v)@[i] != old(v)@[j],
    ensures
        forall|i: int, j: int| 0 <= i < j < final(v)@.len() ==> final(v)@[i] != final(v)@[j],
        final(v)@ == (if old(v)@.contains(x) {
            old(v)@
        } else {
            old(v)@.push(x)
        }),
{
    let mut i: usize = 0;
    while i < v.len()
        invariant
            i <= v@.len(),
            v@ == old(v)@,
            forall|a: int, b: int| 0 <= a < b < old(v)@.len() ==> old(v)@[a] != old(v)@[b],
            forall|w: int| 0 <= w < i ==> v@[w] != x,
        decreases v@.len() - i,
    {
        if v[i] == x {
            assert(v@[i as int] == x);
            return ;
        }
        i = i + 1;
    }
    assert(!v@.contains(x));
    let ghost prev = v@;
    v.push(x);
    proof {
        assert forall|a: int, b: int| 0 <= a < b < v@.len() implies v@[a] != v@[b] by {
            if b == prev.len() {
                assert(v@[a] == prev[a]);
            }
        }
    }
}

/// Whether every element of `a` occurs in `b`.
fn is_subset(a: &Vec<u8>, b: &Vec<u8>) -> (r: bool)
    ensures
        r == spec_subset(a@, b@),
{
    let mut i: usize = 0;
    while i < a.len()
        invariant
            i <= a@.len(),
            forall|w: int| 0 <= w < i ==> b@.contains(#[trigger] a@[w]),
        decreases a@.len() - i,
    {
        if !contains_byte(b, a[i]) {
            return false;
        }
        i = i + 1;
    }
    true
}

/// Whether the list contains the byte.
fn contains_byte(v: &Vec<u8>, x: u8) -> (r: bool)
    ensures
        r == v@.contains(x),
{
    let mut i: usize = 0;
    while i < v.len()
        invariant
            i <= v@.len(),
            forall|w: int| 0 <= w < i ==> v@[w] != x,
        decreases v@.len() - i,
    {
        if v[i] == x {
            assert(v@[i as int] == x);
            return true;
        }
        i = i + 1;
    }
    false
}

} // verus!
