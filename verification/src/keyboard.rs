//! The playable key range: the contiguous run of note ids the scene lays
//! out as lanes, with one `KeyId` per note.

use vstd::prelude::*;

verus! {

/// How a key is drawn; the drum layout knows only one kind.
#[derive(Debug, Clone, Copy, PartialEq, Eq, Structural)]
pub enum KeyKind {
    Neutral,
}

/// One key of the range, identified by its note id.
#[derive(PartialEq, Eq, Structural, Clone, Copy, Debug)]
pub struct KeyId(pub u8);

/// A half-open range of note ids with its materialized key list.
#[derive(Debug)]
pub struct KeyboardRange {
    pub start: u8,
    pub end: u8,
    pub keys: Vec<KeyId>,
}

impl KeyboardRange {
    /// The key list holds exactly the ids of the range, in order.
    pub open spec fn wf(self) -> bool {
        &&& self.keys@.len() == (if self.start <= self.end {
            self.end - self.start
        } else {
            0int
        })
        &&& forall|i: int|
            0 <= i < self.keys@.len() ==> #[trigger] self.keys@[i] == KeyId(
                (self.start + i) as u8,
            )
    }

    /// Builds the range `start..end` of note ids.
    pub fn new(start: usize, end: usize) -> (r: KeyboardRange)
        requires
            start <= 255,
            end <= 255,
        ensures
            r.start == start,
            r.end == end,
            r.wf(),
    {
        let start8 = start as u8;
        let end8 = end as u8;
        let mut keys: Vec<KeyId> = Vec::new();
        let mut id = start8;
        while id < end8
            invariant
                start8 <= id,
                id <= end8 || id == start8,
                keys@.len() == id - start8,
                forall|i: int|
                    0 <= i < keys@.len() ==> #[trigger] keys@[i] == KeyId((start8 + i) as u8),
            decreases end8 - id,
        {
            keys.push(KeyId(id));
            id = id + 1;
        }
        KeyboardRange { start: start8, end: end8, keys }
    }

    /// The range of a standard drum layout.
    pub fn standard_88_keys() -> (r: KeyboardRange)
        ensures
            r.start == 27,
            r.end == 53,
            r.wf(),
    {
        Self::new(27, 53)
    }

    /// Whether the note id lies inside the range.
    pub fn contains(&self, item: u8) -> (r: bool)
        ensures
            r == (self.start <= item < self.end),
    {
        self.start <= item && item < self.end
    }

    /// How many keys the range holds.
    pub fn count(&self) -> (r: usize)
        ensures
            r == self.keys@.len(),
    {
        self.keys.len()
    }

    /// The keys of the range, in order.
    pub fn iter(&self) -> (r: Vec<KeyId>)
        ensures
            r@ == self.keys@,
    {
        let mut r: Vec<KeyId> = Vec::new();
        let mut i: usize = 0;
        while i < self.keys.len()
            invariant
                i <= self.keys@.len(),
                r@ == self.keys@.take(i as int),
            decreases self.keys@.len() - i,
        {
            r.push(self.keys[i]);
            proof {
                assert(self.keys@.take(i as int).push(self.keys@[i as int]) =~= self.keys@.take(
                    i as int + 1,
                ));
            }
            i = i + 1;
        }
        proof {
            assert(self.keys@.take(self.keys@.len() as int) =~= self.keys@);
        }
        r
    }
}

impl Default for KeyboardRange {
    /// The standard drum range.
    fn default() -> (r: KeyboardRange)
        ensures
            r.start == 27,
            r.end == 53,
            r.wf(),
    {
        KeyboardRange::standard_88_keys()
    }
}

} // verus!
