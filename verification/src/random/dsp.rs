//! The note choice of the random-note ear trainer: a xorshift generator
//! that picks each note in the chosen range, never the note just played.

use vstd::prelude::*;

verus! {

/// Whether a MIDI note event starts or ends a note.
#[derive(Debug, Clone, Copy, PartialEq, Eq, Structural)]
pub enum MidiNoteEventKind {
    On,
    Off,
}

/// A note start or end at a frame offset within a block.
#[derive(Debug, Clone, Copy, PartialEq, Eq, Structural)]
pub struct MidiNoteEvent {
    pub time: u32,
    pub note: u8,
    pub kind: MidiNoteEventKind,
}

/// A 64-bit value from the thread-local generator: `rand::random::<u64>`.
///
/// The value depends on chance, so the contract states nothing of it.
#[verifier::external_body]
fn random_u64() -> u64 {
    rand::random::<u64>()
}

/// One xorshift step (shifts 13, 7, 17).
pub open spec fn xorshift(x: u64) -> u64 {
    let a = x ^ ((x << 13u64) as u64);
    let b = a ^ (a >> 7u64);
    b ^ ((b << 17u64) as u64)
}

/// The note picked from `lowest..=highest` with generator state `rng`,
/// after `previous`: the previous note is skipped when the range holds it
/// and more than one note.
pub open spec fn pick_note(rng: u64, lowest: u8, highest: u8, previous: u8) -> u8 {
    let count = highest - lowest + 1;
    let skip = count > 1 && lowest <= previous <= highest;
    let choices = if skip { count - 1 } else { count };
    let note = lowest + (rng as int) % choices;
    (if skip && note >= previous { note + 1 } else { note }) as u8
}

/// The generator and note-range state of the ear trainer.
pub struct NotePicker {
    pub rng: u64,
    pub note_range: (u8, u8),
    pub previous_note: u8,
}

impl NotePicker {
    /// The range is ordered and within MIDI notes.
    pub open spec fn wf(&self) -> bool {
        self.note_range.0 <= self.note_range.1 <= 127
    }

    /// A picker with a seed (zero is replaced by one, which xorshift needs),
    /// the range 48 to 72 and previous note 60.
    pub fn with_seed(seed: u64) -> (r: Self)
        ensures
            r.wf(),
            r.rng == if seed == 0 { 1 } else { seed },
            r.note_range == (48u8, 72u8),
            r.previous_note == 60,
    {
        NotePicker { rng: if seed == 0 { 1 } else { seed }, note_range: (48, 72), previous_note: 60 }
    }

    /// A picker seeded from the thread-local random generator.
    pub fn new() -> (r: Self)
        ensures
            r.wf(),
            r.rng != 0,
            r.note_range == (48u8, 72u8),
            r.previous_note == 60,
    {
        Self::with_seed(random_u64())
    }

    /// Sets the range from two notes in either order, each capped at 127.
    pub fn set_note_range(&mut self, lowest: u8, highest: u8)
        ensures
            final(self).wf(),
            final(self).note_range.0 == min_u8(min_u8(lowest, highest), 127),
            final(self).note_range.1 == min_u8(max_u8(lowest, highest), 127),
            final(self).rng == old(self).rng,
            final(self).previous_note == old(self).previous_note,
    {
        let lo = if lowest <= highest { lowest } else { highest };
        let hi = if lowest <= highest { highest } else { lowest };
        self.note_range = (if lo < 127 { lo } else { 127 }, if hi < 127 { hi } else { 127 });
    }

    /// Advances the generator and picks the next note.
    pub fn next_note(&mut self) -> (note: u8)
        requires
            old(self).wf(),
        ensures
            final(self).wf(),
            final(self).rng == xorshift(old(self).rng),
            final(self).note_range == old(self).note_range,
            note == pick_note(final(self).rng, old(self).note_range.0, old(self).note_range.1, old(self).previous_note),
            final(self).previous_note == note,
    {
        let x = self.rng;
        let a = x ^ (x << 13u64);
        let b = a ^ (a >> 7u64);
        let c = b ^ (b << 17u64);
        self.rng = c;
        let (lowest, highest) = self.note_range;
        let count: u64 = (highest - lowest) as u64 + 1;
        let skip_previous = count > 1 && lowest <= self.previous_note && self.previous_note <= highest;
        let choices: u64 = if skip_previous { count - 1 } else { count };
        let offset = (c % choices) as u8;
        let mut note: u8 = lowest + offset;
        if skip_previous && note >= self.previous_note {
            note = note + 1;
        }
        self.previous_note = note;
        note
    }
}

pub open spec fn min_u8(a: u8, b: u8) -> u8 {
    if a <= b { a } else { b }
}

pub open spec fn max_u8(a: u8, b: u8) -> u8 {
    if a <= b { b } else { a }
}

/// Every picked note lies in the range, and it differs from the previous
/// note whenever the range holds that note and at least one other.
pub proof fn law_pick_note_in_range(rng: u64, lowest: u8, highest: u8, previous: u8)
    requires
        lowest <= highest <= 127,
    ensures
        lowest <= pick_note(rng, lowest, highest, previous) <= highest,
        lowest < highest && lowest <= previous <= highest ==> pick_note(rng, lowest, highest, previous) != previous,
{
    let count = highest - lowest + 1;
    let skip = count > 1 && lowest <= previous <= highest;
    let choices = if skip { count - 1 } else { count };
    assert(0 <= (rng as int) % choices < choices);
}

} // verus!
