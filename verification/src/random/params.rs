//! Parameter display helpers of the random-note ear trainer.

use vstd::prelude::*;
use crate::common::text::push_char;

verus! {

/// A MIDI note number, named with middle C as C4 (note 60).
#[derive(Debug, Clone, Copy, PartialEq, Eq, Structural)]
pub struct Note(pub u8);

/// The pitch-class names, C first.
pub open spec fn pitch_class_name(pc: int) -> Seq<char> {
    if pc == 0 {
        "C"@
    } else if pc == 1 {
        "C#"@
    } else if pc == 2 {
        "D"@
    } else if pc == 3 {
        "D#"@
    } else if pc == 4 {
        "E"@
    } else if pc == 5 {
        "F"@
    } else if pc == 6 {
        "F#"@
    } else if pc == 7 {
        "G"@
    } else if pc == 8 {
        "G#"@
    } else if pc == 9 {
        "A"@
    } else if pc == 10 {
        "A#"@
    } else {
        "B"@
    }
}

/// The decimal text of an octave number from -1 to 20.
pub open spec fn octave_text(o: int) -> Seq<char> {
    if o < 0 {
        seq!['-', '1']
    } else if o < 10 {
        seq![((o + 48) as u8) as char]
    } else {
        seq![((o / 10 + 48) as u8) as char, ((o % 10 + 48) as u8) as char]
    }
}

impl Note {
    /// The note's name: pitch class then octave, as `C4` or `F#-1`.
    pub open spec fn spec_name(self) -> Seq<char> {
        pitch_class_name((self.0 % 12) as int) + octave_text(self.0 / 12 - 1)
    }

    fn pitch_class_str(pc: u8) -> (r: &'static str)
        requires
            pc < 12,
        ensures
            r@ == pitch_class_name(pc as int),
    {
        match pc {
            0 => "C",
            1 => "C#",
            2 => "D",
            3 => "D#",
            4 => "E",
            5 => "F",
            6 => "F#",
            7 => "G",
            8 => "G#",
            9 => "A",
            10 => "A#",
            _ => "B",
        }
    }

    /// The note's name, as its display shows it.
    pub fn name(&self) -> (r: String)
        ensures
            r@ == self.spec_name(),
    {
        let pc = self.0 % 12;
        let mut s = Self::pitch_class_str(pc).to_owned();
        let octave = self.0 / 12;
        if octave == 0 {
            push_char(&mut s, '-');
            push_char(&mut s, '1');
        } else if octave - 1 < 10 {
            push_char(&mut s, (octave - 1 + 48) as char);
        } else {
            push_char(&mut s, ((octave - 1) / 10 + 48) as char);
            push_char(&mut s, ((octave - 1) % 10 + 48) as char);
        }
        s
    }
}

} // verus!
