//! The fixed table mapping General MIDI percussion notes onto the twelve
//! drum lanes the player displays, each with its display name and color.

use vstd::prelude::*;

use crate::config::spec_default_color_schema;

verus! {

/// One drum lane: its stable id, display name, the two MIDI notes that
/// sound it, and its lane color.
#[derive(Clone, Copy, Debug, Hash)]
pub struct MidiMapping {
    pub id: u8,
    pub name: &'static str,
    pub note: u8,
    pub alt_note: u8,
    pub color: (u8, u8, u8),
}

/// Whether the mapping is sounded by the note.
pub open spec fn spec_accepts(m: MidiMapping, note: u8) -> bool {
    m.note == note || m.alt_note == note
}

/// The mapping table, in id order.
pub open spec fn spec_mappings() -> Seq<MidiMapping> {
    seq![
        MidiMapping {
            id: 0,
            name: "Crash Cymbal 1",
            note: 49,
            alt_note: 55,
            color: spec_default_color_schema().orange1,
        },
        MidiMapping {
            id: 1,
            name: "Ride Cymbal",
            note: 51,
            alt_note: 59,
            color: spec_default_color_schema().orange2,
        },
        MidiMapping {
            id: 2,
            name: "Crash Cymbal 2",
            note: 57,
            alt_note: 52,
            color: spec_default_color_schema().orange3,
        },
        MidiMapping {
            id: 3,
            name: "Ride Bell",
            note: 53,
            alt_note: 53,
            color: spec_default_color_schema().orange4,
        },
        MidiMapping {
            id: 4,
            name: "High Tom",
            note: 48,
            alt_note: 50,
            color: spec_default_color_schema().purple1,
        },
        MidiMapping {
            id: 5,
            name: "Mid Tom",
            note: 47,
            alt_note: 45,
            color: spec_default_color_schema().purple2,
        },
        MidiMapping {
            id: 6,
            name: "Low Tom",
            note: 41,
            alt_note: 43,
            color: spec_default_color_schema().purple3,
        },
        MidiMapping {
            id: 7,
            name: "Open Hi-Hat",
            note: 46,
            alt_note: 26,
            color: spec_default_color_schema().green,
        },
        MidiMapping {
            id: 8,
            name: "Closed Hi-Hat",
            note: 42,
            alt_note: 22,
            color: spec_default_color_schema().beige,
        },
        MidiMapping {
            id: 9,
            name: "Snare Drum",
            note: 38,
            alt_note: 40,
            color: spec_default_color_schema().blue,
        },
        MidiMapping {
            id: 10,
            name: "Pedal Hi-Hat",
            note: 44,
            alt_note: 44,
            color: spec_default_color_schema().cyan,
        },
        MidiMapping {
            id: 11,
            name: "Bass Drum",
            note: 35,
            alt_note: 36,
            color: spec_default_color_schema().yellow,
        },
    ]
}

/// Index of the first mapping sounded by the note, if any.
pub open spec fn spec_first_accepting(s: Seq<MidiMapping>, note: u8) -> Option<int>
    decreases s.len(),
{
    if s.len() == 0 {
        None
    } else if spec_accepts(s[0], note) {
        Some(0)
    } else {
        match spec_first_accepting(s.drop_first(), note) {
            None => None,
            Some(i) => Some(i + 1),
        }
    }
}

/// The mapping table as a vector.
fn all_mappings() -> (r: Vec<MidiMapping>)
    ensures
        r@ == spec_mappings(),
{
    let mut r: Vec<MidiMapping> = Vec::new();
    let schema = crate::config::default_color_schema();
    r.push(MidiMapping { id: 0, name: "Crash Cymbal 1", note: 49, alt_note: 55, color: schema.orange1 });
    r.push(MidiMapping { id: 1, name: "Ride Cymbal", note: 51, alt_note: 59, color: schema.orange2 });
    r.push(MidiMapping { id: 2, name: "Crash Cymbal 2", note: 57, alt_note: 52, color: schema.orange3 });
    r.push(MidiMapping { id: 3, name: "Ride Bell", note: 53, alt_note: 53, color: schema.orange4 });
    r.push(MidiMapping { id: 4, name: "High Tom", note: 48, alt_note: 50, color: schema.purple1 });
    r.push(MidiMapping { id: 5, name: "Mid Tom", note: 47, alt_note: 45, color: schema.purple2 });
    r.push(MidiMapping { id: 6, name: "Low Tom", note: 41, alt_note: 43, color: schema.purple3 });
    r.push(MidiMapping { id: 7, name: "Open Hi-Hat", note: 46, alt_note: 26, color: schema.green });
    r.push(MidiMapping { id: 8, name: "Closed Hi-Hat", note: 42, alt_note: 22, color: schema.beige });
    r.push(MidiMapping { id: 9, name: "Snare Drum", note: 38, alt_note: 40, color: schema.blue });
    r.push(MidiMapping { id: 10, name: "Pedal Hi-Hat", note: 44, alt_note: 44, color: schema.cyan });
    r.push(MidiMapping { id: 11, name: "Bass Drum", note: 35, alt_note: 36, color: schema.yellow });
    proof {
        assert(r@ =~= spec_mappings());
    }
    r
}

impl MidiMapping {
    /// Whether any of the notes sounds this mapping.
    pub fn accept_notes(&self, notes: Vec<u8>) -> (r: bool)
        ensures
            r == (notes@.contains(self.note) || notes@.contains(self.alt_note)),
    {
        let mut i: usize = 0;
        while i < notes.len()
            invariant
                i <= notes@.len(),
                forall|w: int|
                    0 <= w < i ==> #[trigger] notes@[w] != self.note && notes@[w] != self.alt_note,
            decreases notes@.len() - i,
        {
            let n = notes[i];
            if n == self.note || n == self.alt_note {
                assert(notes@[i as int] == n);
                return true;
            }
            i = i + 1;
        }
        false
    }

    /// Whether the note sounds this mapping.
    pub fn accept_note(&self, note: u8) -> (r: bool)
        ensures
            r == spec_accepts(*self, note),
    {
        self.note == note || self.alt_note == note
    }
}

/// All twelve mappings, in the fixed display order of the drum lanes
/// (cymbals and hi-hats at the edges, snare and toms in the middle).
pub fn get_all_midi_mappings() -> (r: Vec<MidiMapping>)
    ensures
        r@.len() == 12,
        r@[0] == spec_mappings()[0],
        r@[1] == spec_mappings()[10],
        r@[2] == spec_mappings()[7],
        r@[3] == spec_mappings()[8],
        r@[4] == spec_mappings()[9],
        r@[5] == spec_mappings()[4],
        r@[6] == spec_mappings()[5],
        r@[7] == spec_mappings()[11],
        r@[8] == spec_mappings()[6],
        r@[9] == spec_mappings()[1],
        r@[10] == spec_mappings()[3],
        r@[11] == spec_mappings()[2],
{
    let all = all_mappings();
    let mut r: Vec<MidiMapping> = Vec::new();
    r.push(all[0]);
    r.push(all[10]);
    r.push(all[7]);
    r.push(all[8]);
    r.push(all[9]);
    r.push(all[4]);
    r.push(all[5]);
    r.push(all[11]);
    r.push(all[6]);
    r.push(all[1]);
    r.push(all[3]);
    r.push(all[2]);
    r
}

/// The mappings sounded by any of the notes, in id order.
pub fn get_midi_mappings(notes: Vec<u8>) -> (r: Vec<MidiMapping>)
    ensures
        r@ == spec_mappings().filter(
            |m: MidiMapping| notes@.contains(m.note) || notes@.contains(m.alt_note),
        ),
{
    let all = all_mappings();
    let mut r: Vec<MidiMapping> = Vec::new();
    let ghost pred = |m: MidiMapping| notes@.contains(m.note) || notes@.contains(m.alt_note);
    proof {
        assert(spec_mappings().take(0) =~= Seq::<MidiMapping>::empty());
        reveal_with_fuel(Seq::<_>::filter, 1);
        assert(r@ =~= spec_mappings().take(0).filter(pred));
    }
    let mut i: usize = 0;
    while i < all.len()
        invariant
            i <= all@.len(),
            all@ == spec_mappings(),
            r@ == spec_mappings().take(i as int).filter(pred),
            pred == (|m: MidiMapping| notes@.contains(m.note) || notes@.contains(m.alt_note)),
        decreases all@.len() - i,
    {
        let m = all[i];
        let keep = m.accept_notes(clone_notes(&notes));
        proof {
            let taken = spec_mappings().take(i as int);
            let taken1 = spec_mappings().take(i as int + 1);
            assert(taken1 =~= taken + seq![m]);
            reveal_with_fuel(Seq::<_>::filter, 3);
            Seq::<MidiMapping>::filter_distributes_over_add(taken, seq![m], pred);
            assert(seq![m].drop_last() =~= Seq::<MidiMapping>::empty());
            if pred(m) {
                assert(seq![m].filter(pred) =~= seq![m]);
            } else {
                assert(seq![m].filter(pred) =~= Seq::<MidiMapping>::empty());
            }
        }
        if keep {
            r.push(m);
            proof {
                assert(r@ =~= spec_mappings().take(i as int + 1).filter(pred));
            }
        } else {
            proof {
                assert(r@ =~= spec_mappings().take(i as int + 1).filter(pred));
            }
        }
        i = i + 1;
    }
    proof {
        assert(spec_mappings().take(spec_mappings().len() as int) =~= spec_mappings());
    }
    r
}

/// A copy of a note list, handed to each acceptance test.
fn clone_notes(notes: &Vec<u8>) -> (r: Vec<u8>)
    ensures
        r@ == notes@,
{
    let mut r: Vec<u8> = Vec::new();
    let mut i: usize = 0;
    while i < notes.len()
        invariant
            i <= notes@.len(),
            r@ == notes@.take(i as int),
        decreases notes@.len() - i,
    {
        r.push(notes[i]);
        proof {
            assert(notes@.take(i as int).push(notes@[i as int]) =~= notes@.take(i as int + 1));
        }
        i = i + 1;
    }
    proof {
        assert(notes@.take(notes@.len() as int) =~= notes@);
    }
    r
}

/// The mapping with the given lane id.
pub fn get_midi_mapping(id: u8) -> (r: MidiMapping)
    requires
        id < 12,
    ensures
        r == spec_mappings()[id as int],
{
    let all = all_mappings();
    all[id as usize]
}

/// The first mapping sounded by the note, if any.
pub fn get_midi_mapping_for_note(note: u8) -> (r: Option<MidiMapping>)
    ensures
        r == (match spec_first_accepting(spec_mappings(), note) {
            None => None::<MidiMapping>,
            Some(i) => Some(spec_mappings()[i]),
        }),
{
    let all = all_mappings();
    let mut i: usize = 0;
    while i < all.len()
        invariant
            i <= all@.len(),
            all@ == spec_mappings(),
            forall|w: int| 0 <= w < i ==> !spec_accepts(#[trigger] spec_mappings()[w], note),
        decreases all@.len() - i,
    {
        let m = all[i];
        if m.note == note || m.alt_note == note {
            proof {
                lemma_first_accepting_skip(spec_mappings(), note, i as int);
                assert(spec_mappings().skip(i as int)[0] == m);
            }
            return Some(m);
        }
        i = i + 1;
    }
    proof {
        lemma_first_accepting_skip(spec_mappings(), note, i as int);
        assert(spec_mappings().skip(i as int).len() == 0);
    }
    None
}

/// Finding the first accepting mapping behind a non-accepting prefix.
proof fn lemma_first_accepting_skip(s: Seq<MidiMapping>, note: u8, i: int)
    requires
        0 <= i <= s.len(),
        forall|w: int| 0 <= w < i ==> !spec_accepts(#[trigger] s[w], note),
    ensures
        spec_first_accepting(s, note) == (match spec_first_accepting(s.skip(i), note) {
            None => None::<int>,
            Some(j) => Some(j + i),
        }),
    decreases i,
{
    if i == 0 {
        assert(s.skip(0) =~= s);
    } else {
        lemma_first_accepting_skip(s.drop_first(), note, i - 1);
        assert forall|w: int| 0 <= w < i - 1 implies !spec_accepts(
            #[trigger] s.drop_first()[w],
            note,
        ) by {
            assert(s.drop_first()[w] == s[w + 1]);
        }
        assert(s.drop_first().skip(i - 1) =~= s.skip(i));
    }
}

/// How many drum lanes there are.
pub fn midi_mappings_count() -> (r: usize)
    ensures
        r == spec_mappings().len(),
{
    12
}

} // verus!
