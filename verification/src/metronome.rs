//! The metronome synthesizer: a click track aligned to the tempo map's beat
//! grid, walked in eighth-note steps from the first event's timestamp and
//! merged into the combined stream.  Every fourth click is an accent on a
//! distinct key; all clicks sit on a reserved channel and track id that
//! downstream consumers treat as decoration.

use vstd::prelude::*;

use vstd::arithmetic::div_mod::lemma_div_is_ordered;
use vstd::arithmetic::div_mod::lemma_div_plus_one;
use vstd::arithmetic::mul::lemma_mul_inequality;
use vstd::arithmetic::mul::lemma_mul_is_commutative;
use vstd::arithmetic::mul::lemma_mul_is_distributive_add_other_way;

use crate::events::MidiEvent;
use crate::events::MidiMessage;
use crate::events::MidiTrack;
use crate::events::events_sorted;
use crate::events::ties_by_track;
use crate::merge::lemma_merge_multiset;
use crate::merge::lemma_merge_sorted;
use crate::merge::merge_pair;
use crate::merge::sort_events;
use crate::tempo::MAX_TEMPO;
use crate::tempo::TICK_LIMIT;
use crate::tempo::TempoMap;
use crate::tempo::lemma_duration_at_nonneg;
use crate::tempo::lemma_duration_at_upper;
use crate::tempo::seg_micros;

verus! {

/// Track id reserved for the synthetic click track.
pub const METRONOME_TRACK: usize = 99;

/// Channel reserved for the synthetic click track.
pub const METRONOME_CHANNEL: u8 = 15;

/// Key of the accented click, sounded every fourth beat.
pub const ACCENT_KEY: u8 = 64;

/// Key of the regular click.
pub const REGULAR_KEY: u8 = 62;

/// General MIDI woodblock program selected for the click channel.
pub const WOODBLOCK_PROGRAM: u8 = 115;

/// Beats per measure of the click grid: every fourth click is accented.
pub const BEATS_PER_MEASURE: u32 = 4;

/// Most clicks one generation may produce.
pub const MAX_CLICKS: u32 = 0x7FFF_FFFF;

/// One event of the click track at the given timestamp.
pub open spec fn spec_click_event(message: MidiMessage, ts: u64) -> MidiEvent {
    MidiEvent {
        channel: METRONOME_CHANNEL,
        delta: 0,
        timestamp: ts,
        message: message,
        track_id: METRONOME_TRACK,
    }
}

/// The NoteOn/NoteOff pair of one click.
pub open spec fn spec_click_pair(ts: u64, accent: bool) -> Seq<MidiEvent> {
    if accent {
        seq![
            spec_click_event(MidiMessage::NoteOn { key: ACCENT_KEY, vel: 127 }, ts),
            spec_click_event(MidiMessage::NoteOff { key: ACCENT_KEY, vel: 0 }, ts),
        ]
    } else {
        seq![
            spec_click_event(MidiMessage::NoteOn { key: REGULAR_KEY, vel: 80 }, ts),
            spec_click_event(MidiMessage::NoteOff { key: REGULAR_KEY, vel: 0 }, ts),
        ]
    }
}

/// The clicks emitted from beat `i` on: a pair at the current timestamp,
/// then the walk steps half a quarter note forward and continues until the
/// next timestamp reaches the end of the track, the tick limit, or the
/// click budget runs out.
pub open spec fn spec_clicks(
    map: TempoMap,
    i: int,
    pulses: int,
    ts: u64,
    end: u64,
    fuel: nat,
) -> Seq<MidiEvent>
    decreases fuel,
{
    if fuel == 0 {
        Seq::empty()
    } else {
        let pair = spec_click_pair(ts, i % (BEATS_PER_MEASURE as int) == 0);
        let step = map.ppqn as int / 2;
        let pulses2 = pulses + step;
        if pulses2 > TICK_LIMIT {
            pair
        } else {
            let ts2 = map.spec_duration(pulses2) as u64;
            if ts2 >= end {
                pair
            } else {
                pair + spec_clicks(map, i + 1, pulses2, ts2, end, (fuel - 1) as nat)
            }
        }
    }
}

/// Every synthesized click event sits on the reserved metronome track.
proof fn lemma_clicks_track(map: TempoMap, i: int, pulses: int, ts: u64, end: u64, fuel: nat)
    ensures
        forall|k: int|
            0 <= k < spec_clicks(map, i, pulses, ts, end, fuel).len() ==> (#[trigger] spec_clicks(
                map,
                i,
                pulses,
                ts,
                end,
                fuel,
            )[k]).track_id == METRONOME_TRACK,
    decreases fuel,
{
    if fuel > 0 {
        let pair = spec_click_pair(ts, i % (BEATS_PER_MEASURE as int) == 0);
        let step = map.ppqn as int / 2;
        let pulses2 = pulses + step;
        if pulses2 > TICK_LIMIT {
        } else {
            let ts2 = map.spec_duration(pulses2) as u64;
            if ts2 >= end {
            } else {
                lemma_clicks_track(map, i + 1, pulses2, ts2, end, (fuel - 1) as nat);
            }
        }
    }
}

/// At a constant tempo whose half-quarter step spans at least one
/// microsecond, the beat grid's timestamps strictly increase step by step.
proof fn lemma_grid_strict(t: int, p: int, x: int)
    requires
        1 <= t,
        1 <= p,
        t * (p / 2) >= p,
        x >= 0,
    ensures
        seg_micros(x, t, p) < seg_micros(x + p / 2, t, p),
{
    let step = p / 2;
    lemma_mul_is_distributive_add_other_way(t, x, step);
    lemma_mul_is_commutative(x + step, t);
    lemma_mul_is_commutative(x, t);
    lemma_mul_is_commutative(step, t);
    lemma_div_is_ordered(x * t + p, (x + step) * t, p);
    lemma_div_plus_one(x * t, p);
}

/// Shape of the click walk under a single constant tempo point, started on
/// the beat grid: every click pair sits on the grid, timestamps strictly
/// increase, and the walk stops only with the beat after the last click at
/// or past the end — unless the click budget or the tick limit cuts it off.
#[verifier::rlimit(100)]
#[verifier::spinoff_prover]
proof fn lemma_clicks_shape(map: TempoMap, i: int, end: u64, fuel: nat)
    requires
        map.wf(),
        map.points@.len() == 1,
        map.ppqn >= 2,
        map.points@[0].microseconds_per_quarter as int * (map.ppqn as int / 2) >= map.ppqn as int,
        i >= 0,
        i * (map.ppqn as int / 2) <= TICK_LIMIT,
        fuel >= 1,
    ensures
        ({
            let step = map.ppqn as int / 2;
            let r = spec_clicks(map, i, i * step, map.spec_duration(i * step) as u64, end, fuel);
            let n = r.len() as int / 2;
            &&& r.len() % 2 == 0
            &&& r.len() >= 2
            &&& forall|k: int|
                0 <= k < n ==> (#[trigger] r[2 * k]).timestamp == map.spec_duration(
                    (i + k) * step,
                ) as u64 && r[2 * k + 1].timestamp == r[2 * k].timestamp
            &&& forall|k: int|
                0 <= k < n ==> (#[trigger] r[2 * k]).message == (if (i + k) % (
                BEATS_PER_MEASURE as int) == 0 {
                    MidiMessage::NoteOn { key: ACCENT_KEY, vel: 127 }
                } else {
                    MidiMessage::NoteOn { key: REGULAR_KEY, vel: 80 }
                })
            &&& forall|k: int|
                0 <= k < n ==> (#[trigger] r[2 * k]).timestamp as int >= map.spec_duration(
                    i * step,
                ) + k
            &&& forall|k: int| 1 <= k < n ==> (#[trigger] r[2 * k]).timestamp < end
            &&& forall|k: int|
                0 <= k && 2 * k + 2 < r.len() ==> (#[trigger] r[2 * k]).timestamp < r[2 * k
                    + 2].timestamp
            &&& (n == fuel || map.spec_duration((i + n) * step) >= end || (i + n) * step + step
                > TICK_LIMIT)
        }),
    decreases fuel,
{
    let t = map.points@[0].microseconds_per_quarter as int;
    let p = map.ppqn as int;
    let step = p / 2;
    let m = MAX_TEMPO as int;
    let ts0 = map.spec_duration(i * step);
    vstd::arithmetic::mul::lemma_mul_nonnegative(i, step);
    lemma_duration_at_nonneg(map.points@, p, i * step);
    lemma_duration_at_upper(map.points@, p, i * step);
    lemma_mul_inequality(i * step, TICK_LIMIT as int, m);
    let r = spec_clicks(map, i, i * step, ts0 as u64, end, fuel);
    let pair = spec_click_pair(ts0 as u64, i % (BEATS_PER_MEASURE as int) == 0);
    assert(pair[0].timestamp == ts0 as u64 && pair[1].timestamp == ts0 as u64);
    lemma_mul_is_distributive_add_other_way(step, i, 1);
    assert((i + 1) * step == i * step + step);
    assert((i + 0) * step == i * step) by (nonlinear_arith);
    let pulses2 = i * step + step;
    if pulses2 > TICK_LIMIT {
        assert(r =~= pair);
        assert(r[0] == pair[0] && r[1] == pair[1]);
    } else {
        vstd::arithmetic::mul::lemma_mul_nonnegative(i + 1, step);
        lemma_duration_at_nonneg(map.points@, p, pulses2);
        lemma_duration_at_upper(map.points@, p, pulses2);
        lemma_mul_inequality(pulses2, TICK_LIMIT as int, m);
        let ts2 = map.spec_duration(pulses2) as u64;
        lemma_grid_strict(t, p, i * step);
        assert(map.spec_duration(i * step) == seg_micros(i * step, t, p));
        assert(map.spec_duration(pulses2) == seg_micros(i * step + step, t, p));
        assert(ts0 < ts2 as int);
        if ts2 >= end {
            assert(r =~= pair);
            assert(r[0] == pair[0] && r[1] == pair[1]);
        } else if fuel == 1 {
            assert(spec_clicks(map, i + 1, pulses2, ts2, end, 0) =~= Seq::<MidiEvent>::empty());
            assert(r =~= pair + Seq::<MidiEvent>::empty());
            assert(r =~= pair);
            assert(r[0] == pair[0] && r[1] == pair[1]);
            assert(r.len() as int / 2 == 1 == fuel);
        } else {
            lemma_clicks_shape(map, i + 1, end, (fuel - 1) as nat);
            let rest = spec_clicks(map, i + 1, pulses2, ts2, end, (fuel - 1) as nat);
            let nr = rest.len() as int / 2;
            assert(r =~= pair + rest);
            let n = r.len() as int / 2;
            assert(n == nr + 1);
            assert(r[0] == pair[0] && r[1] == pair[1]);
            assert(rest[0].timestamp == ts2);
            assert forall|k: int| 1 <= k < n implies (#[trigger] r[2 * k]).timestamp
                == map.spec_duration((i + k) * step) as u64 && r[2 * k + 1].timestamp == r[2
                * k].timestamp && r[2 * k].message == (if (i + k) % (BEATS_PER_MEASURE as int)
                == 0 {
                MidiMessage::NoteOn { key: ACCENT_KEY, vel: 127 }
            } else {
                MidiMessage::NoteOn { key: REGULAR_KEY, vel: 80 }
            }) && r[2 * k].timestamp as int >= ts0 + k && r[2 * k].timestamp < end by {
                assert(r[2 * k] == rest[2 * (k - 1)]);
                assert(r[2 * k + 1] == rest[2 * (k - 1) + 1]);
                assert((i + 1 + (k - 1)) * step == (i + k) * step) by (nonlinear_arith);
                assert(rest[2 * (k - 1)].timestamp as int >= map.spec_duration((i + 1) * step) + (
                k - 1));
                if k == 1 {
                    assert(rest[2 * (k - 1)].timestamp == map.spec_duration(
                        (i + 1 + (k - 1)) * step,
                    ) as u64);
                }
            }
            assert forall|k: int|
                0 <= k && 2 * k + 2 < r.len() implies (#[trigger] r[2 * k]).timestamp < r[2 * k
                + 2].timestamp by {
                if k == 0 {
                    assert(r[2] == rest[0]);
                    assert(r[0].timestamp == ts0 as u64);
                } else {
                    assert(r[2 * k] == rest[2 * (k - 1)]);
                    assert(r[2 * k + 2] == rest[2 * (k - 1) + 2]);
                }
            }
            assert((i + n) * step == (i + 1 + nr) * step) by (nonlinear_arith)
                requires
                    n == nr + 1,
            ;
        }
    }
}

/// The metronome law at a constant tempo: started at the beginning of a
/// track that ends at `end`, the synthesized click sequence is finite and
/// strictly increasing in time, every click whose index is a multiple of
/// four is the accented key and the others the regular key, and the beat
/// after the last click lies at or past the end of the track.
pub proof fn lemma_metronome_clicks(map: TempoMap, end: u64)
    requires
        map.wf(),
        map.points@.len() == 1,
        map.ppqn >= 2,
        map.points@[0].microseconds_per_quarter as int * (map.ppqn as int / 2) >= map.ppqn as int,
        1 <= end,
        end < MAX_CLICKS as u64,
        (end as int + 1) * (map.ppqn as int / 2) + (map.ppqn as int / 2) <= TICK_LIMIT,
    ensures
        ({
            let step = map.ppqn as int / 2;
            let r = spec_clicks(map, 0, 0, 0, end, MAX_CLICKS as nat);
            let n = r.len() as int / 2;
            &&& r.len() % 2 == 0
            &&& r.len() >= 2
            &&& forall|k: int|
                0 <= k < n ==> (#[trigger] r[2 * k]).timestamp as int == map.spec_duration(
                    k * step,
                ) && r[2 * k + 1].timestamp == r[2 * k].timestamp
            &&& forall|k: int|
                0 <= k < n ==> (#[trigger] r[2 * k]).message == (if k % 4 == 0 {
                    MidiMessage::NoteOn { key: ACCENT_KEY, vel: 127 }
                } else {
                    MidiMessage::NoteOn { key: REGULAR_KEY, vel: 80 }
                })
            &&& forall|k: int|
                0 <= k && 2 * k + 2 < r.len() ==> (#[trigger] r[2 * k]).timestamp < r[2 * k
                    + 2].timestamp
            &&& map.spec_duration(n * step) >= end
        }),
{
    let t = map.points@[0].microseconds_per_quarter as int;
    let p = map.ppqn as int;
    let step = p / 2;
    vstd::arithmetic::mul::lemma_mul_basics(step);
    lemma_duration_at_nonneg(map.points@, p, 0);
    lemma_duration_at_upper(map.points@, p, 0);
    assert(map.spec_duration(0) == 0);
    lemma_clicks_shape(map, 0, end, MAX_CLICKS as nat);
    let r = spec_clicks(map, 0, 0, 0, end, MAX_CLICKS as nat);
    let n = r.len() as int / 2;
    assert forall|k: int| 0 <= k < n implies (#[trigger] r[2 * k]).timestamp as int
        == map.spec_duration(k * step) && r[2 * k + 1].timestamp == r[2 * k].timestamp && r[2
        * k].message == (if k % 4 == 0 {
        MidiMessage::NoteOn { key: ACCENT_KEY, vel: 127 }
    } else {
        MidiMessage::NoteOn { key: REGULAR_KEY, vel: 80 }
    }) by {
        assert((0 + k) * step == k * step) by (nonlinear_arith);
        assert((0 + k) % (BEATS_PER_MEASURE as int) == k % 4);
        // The walk stops within `end` clicks, so every emitted beat stays
        // inside the tick limit and its timestamp fits the 64-bit range.
        if k >= 1 {
            assert(r[2 * k].timestamp as int >= k);
            assert(r[2 * k].timestamp < end);
        }
        assert(k <= end as int);
        lemma_mul_inequality(k, end as int + 1, step);
        vstd::arithmetic::mul::lemma_mul_nonnegative(k, step);
        assert(k * step <= TICK_LIMIT);
        lemma_duration_at_nonneg(map.points@, p, k * step);
        lemma_duration_at_upper(map.points@, p, k * step);
        lemma_mul_inequality(k * step, TICK_LIMIT as int, MAX_TEMPO as int);
    }
    // Neither the click budget nor the tick limit can have stopped the walk
    // before the end of the track was reached.
    if n == MAX_CLICKS as int {
        assert(r[2 * (n - 1)].timestamp as int >= n - 1);
        assert(r[2 * (n - 1)].timestamp < end);
        assert(false);
    }
    if map.spec_duration((0 + n) * step) < end {
        assert((0 + n) * step + step > TICK_LIMIT);
        assert((0 + n) * step == n * step) by (nonlinear_arith);
        if n >= 2 {
            assert(r[2 * (n - 1)].timestamp as int >= n - 1);
            assert(r[2 * (n - 1)].timestamp < end);
            assert(n <= end as int);
            lemma_mul_inequality(n, end as int + 1, step);
            assert(false);
        } else {
            assert(n == 1);
            lemma_mul_inequality(2, end as int + 1, step);
            assert(2 * step == step + step) by (nonlinear_arith);
            assert(false);
        }
    }
    assert((0 + n) * step == n * step) by (nonlinear_arith);
}

/// Appends the click track to a merged track, as the last step of loading a
/// file: a woodblock program change at the track's first timestamp followed
/// by the clicks, all merged into the event stream in timestamp order.  The
/// note list is left as it is, and a track without events gets no clicks.
pub fn add_metronome(
    merged_track: MidiTrack,
    tempo_events: &TempoMap,
    pulses_per_quarter_note: u16,
) -> (r: MidiTrack)
    requires
        tempo_events.wf(),
        pulses_per_quarter_note == tempo_events.ppqn,
        events_sorted(merged_track.events@),
    ensures
        r.track_id == merged_track.track_id,
        r.notes@ == merged_track.notes@,
        merged_track.events@.len() == 0 ==> r.events@ == merged_track.events@,
        merged_track.events@.len() > 0 ==> {
            let start = merged_track.events@[0].timestamp;
            let end = merged_track.events@[merged_track.events@.len() - 1].timestamp;
            let added = seq![
                spec_click_event(
                    MidiMessage::ProgramChange { program: WOODBLOCK_PROGRAM },
                    start,
                ),
            ] + spec_clicks(*tempo_events, 0, 0, start, end, MAX_CLICKS as nat);
            &&& events_sorted(r.events@)
            &&& r.events@.to_multiset() == merged_track.events@.to_multiset().add(
                added.to_multiset(),
            )
        },
        forall|t: int|
            t != METRONOME_TRACK ==> crate::events::of_track(r.events@, t)
                == crate::events::of_track(merged_track.events@, t),
        ties_by_track(merged_track.events@) && (forall|i: int|
            0 <= i < merged_track.events@.len() ==> (#[trigger] merged_track.events@[i]).track_id
                <= METRONOME_TRACK) ==> ties_by_track(r.events@),
{
    if merged_track.events.len() == 0 {
        return merged_track;
    }
    let ghost map = *tempo_events;
    let track_start = merged_track.events[0].timestamp;
    let track_end = merged_track.events[merged_track.events.len() - 1].timestamp;
    let step = (pulses_per_quarter_note / 2) as u64;

    let mut clicks: Vec<MidiEvent> = Vec::new();
    let mut pulses: u64 = 0;
    let mut timestamp: u64 = track_start;
    let mut i: u32 = 0;
    let mut done = false;
    let ghost full = spec_clicks(map, 0, 0, track_start, track_end, MAX_CLICKS as nat);
    proof {
        assert(clicks@ + full =~= full);
    }
    while !done && i < MAX_CLICKS
        invariant
            tempo_events.wf(),
            map == *tempo_events,
            step == map.ppqn as int / 2,
            i <= MAX_CLICKS,
            pulses <= TICK_LIMIT,
            full == clicks@ + (if done {
                Seq::<MidiEvent>::empty()
            } else {
                spec_clicks(map, i as int, pulses as int, timestamp, track_end, (MAX_CLICKS
                    - i) as nat)
            }),
        decreases (if done { 0int } else { 1int }), MAX_CLICKS - i,
    {
        let ghost rest = spec_clicks(
            map,
            i as int,
            pulses as int,
            timestamp,
            track_end,
            (MAX_CLICKS - i) as nat,
        );
        let accent = i % BEATS_PER_MEASURE == 0;
        if accent {
            clicks.push(
                MidiEvent {
                    channel: METRONOME_CHANNEL,
                    delta: 0,
                    timestamp,
                    message: MidiMessage::NoteOn { key: ACCENT_KEY, vel: 127 },
                    track_id: METRONOME_TRACK,
                },
            );
            clicks.push(
                MidiEvent {
                    channel: METRONOME_CHANNEL,
                    delta: 0,
                    timestamp,
                    message: MidiMessage::NoteOff { key: ACCENT_KEY, vel: 0 },
                    track_id: METRONOME_TRACK,
                },
            );
        } else {
            clicks.push(
                MidiEvent {
                    channel: METRONOME_CHANNEL,
                    delta: 0,
                    timestamp,
                    message: MidiMessage::NoteOn { key: REGULAR_KEY, vel: 80 },
                    track_id: METRONOME_TRACK,
                },
            );
            clicks.push(
                MidiEvent {
                    channel: METRONOME_CHANNEL,
                    delta: 0,
                    timestamp,
                    message: MidiMessage::NoteOff { key: REGULAR_KEY, vel: 0 },
                    track_id: METRONOME_TRACK,
                },
            );
        }
        let ghost pair = spec_click_pair(timestamp, i as int % (BEATS_PER_MEASURE as int) == 0);
        if step > TICK_LIMIT - pulses {
            done = true;
            proof {
                assert(clicks@ =~= (clicks@.drop_last().drop_last()) + pair);
                assert(full == clicks@ + Seq::<MidiEvent>::empty());
            }
        } else {
            pulses = pulses + step;
            proof {
                let pp = map.ppqn as int;
                let m = MAX_TEMPO as int;
                lemma_duration_at_nonneg(map.points@, pp, pulses as int);
                lemma_duration_at_upper(map.points@, pp, pulses as int);
                lemma_mul_inequality(pulses as int, TICK_LIMIT as int, m);
            }
            timestamp = tempo_events.duration_at(pulses);
            proof {
                assert(timestamp as int == map.spec_duration(pulses as int));
                assert(timestamp == map.spec_duration(pulses as int) as u64);
            }
            if timestamp >= track_end {
                done = true;
                proof {
                    assert(rest =~= pair);
                    assert(clicks@ =~= (clicks@.drop_last().drop_last()) + pair);
                    assert(full == clicks@ + Seq::<MidiEvent>::empty());
                }
            } else {
                proof {
                    assert(rest =~= pair + spec_clicks(
                        map,
                        i as int + 1,
                        pulses as int,
                        timestamp,
                        track_end,
                        (MAX_CLICKS - i - 1) as nat,
                    ));
                    assert(clicks@ =~= (clicks@.drop_last().drop_last()) + pair);
                    assert((clicks@.drop_last().drop_last() + pair) + spec_clicks(
                        map,
                        i as int + 1,
                        pulses as int,
                        timestamp,
                        track_end,
                        (MAX_CLICKS - i - 1) as nat,
                    ) =~= clicks@.drop_last().drop_last() + rest);
                }
                i = i + 1;
            }
        }
    }
    proof {
        if !done {
            assert(spec_clicks(
                map,
                i as int,
                pulses as int,
                timestamp,
                track_end,
                (MAX_CLICKS - i) as nat,
            ) =~= Seq::<MidiEvent>::empty());
        }
        assert(full =~= clicks@);
    }

    let mut added: Vec<MidiEvent> = Vec::new();
    added.push(
        MidiEvent {
            channel: METRONOME_CHANNEL,
            delta: 0,
            timestamp: track_start,
            message: MidiMessage::ProgramChange { program: WOODBLOCK_PROGRAM },
            track_id: METRONOME_TRACK,
        },
    );
    let ghost pc_only = added@;
    added.append(&mut clicks);
    proof {
        assert(added@ =~= pc_only + full);
    }
    let sorted_added = sort_events(&added);
    let events = merge_pair(&merged_track.events, &sorted_added);
    proof {
        lemma_merge_sorted(merged_track.events@, sorted_added@);
        lemma_merge_multiset(merged_track.events@, sorted_added@);
        // Every synthesized event carries the reserved track id, so the
        // merge leaves each real track's events exactly as they were.
        broadcast use vstd::seq_lib::group_to_multiset_ensures;

        assert forall|i: int| 0 <= i < sorted_added@.len() implies #[trigger] sorted_added@[
        i].track_id == METRONOME_TRACK by {
            assert(sorted_added@.contains(sorted_added@[i]));
            assert(sorted_added@.to_multiset().count(sorted_added@[i]) > 0);
            assert(added@.to_multiset().count(sorted_added@[i]) > 0);
            assert(added@.contains(sorted_added@[i]));
            let w = choose|w: int| 0 <= w < added@.len() && added@[w] == sorted_added@[i];
            lemma_clicks_track(map, 0, 0, track_start, track_end, MAX_CLICKS as nat);
        }
        assert forall|t: int| t != METRONOME_TRACK implies crate::events::of_track(events@, t)
            == crate::events::of_track(merged_track.events@, t) by {
            crate::merge::lemma_merge_of_track_left(merged_track.events@, sorted_added@, t);
        }
        // When the real stream already keeps its ties in track order and no
        // real track uses the reserved id, the merged-in clicks — all on the
        // reserved id, sorted among themselves — keep that order.
        if ties_by_track(merged_track.events@) && (forall|i: int|
            0 <= i < merged_track.events@.len() ==> (#[trigger] merged_track.events@[i]).track_id
                <= METRONOME_TRACK) {
            assert(ties_by_track(sorted_added@));
            crate::merge::lemma_merge_ties(merged_track.events@, sorted_added@);
        }
    }
    MidiTrack { notes: merged_track.notes, events, track_id: merged_track.track_id }
}

} // verus!
