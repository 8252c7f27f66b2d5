//! Instrument file kinds and the preset list of a loaded instrument.

use vstd::prelude::*;
use crate::common::text::chars_eq_str;
use crate::common::text::{chars_of, decimal_text, last_index, last_index_of, lemma_last_index_of, push_decimal, string_from_chars};

verus! {

/// The instrument file formats the sampler reads.
#[derive(Debug, Clone, Copy, PartialEq, Eq, Structural)]
pub enum InstrumentFormat {
    /// SFZ instrument definition.
    Sfz,
    /// SoundFont 2 instrument.
    Sf2,
}

/// One selectable preset in an SF2 file.
pub struct PresetInfo {
    pub name: String,
    pub bank: u16,
    pub preset: u16,
}

impl PresetInfo {
    /// How the preset is listed: `bank:preset name`.
    pub fn label(&self) -> (r: String)
        ensures
            r@ == decimal_text(self.bank as nat) + seq![':'] + decimal_text(self.preset as nat) + seq![' ']
                + self.name@,
    {
        let mut out: Vec<char> = Vec::new();
        push_decimal(&mut out, self.bank as u64);
        out.push(':');
        push_decimal(&mut out, self.preset as u64);
        out.push(' ');
        let name = chars_of(self.name.as_str());
        let mut i: usize = 0;
        let ghost head = out@;
        while i < name.len()
            invariant
                i <= name@.len(),
                name@ == self.name@,
                out@ == head + name@.take(i as int),
            decreases name@.len() - i,
        {
            out.push(name[i]);
            i = i + 1;
            assert(out@ =~= head + name@.take(i as int));
        }
        assert(name@.take(name@.len() as int) =~= name@);
        string_from_chars(out.as_slice())
    }
}

/// The preset a load selects among `count` presets: the one asked for (the
/// first when none is), or the last when the index is past the end; none
/// when the file has no presets.
pub open spec fn selected_preset(preset_index: Option<usize>, count: usize) -> Option<usize> {
    if count == 0 {
        None
    } else {
        let wanted = match preset_index {
            Some(i) => i,
            None => 0,
        };
        Some(if wanted < count - 1 { wanted } else { (count - 1) as usize })
    }
}

/// Selects the preset to load among `count` presets.
pub fn select_preset(preset_index: Option<usize>, count: usize) -> (r: Option<usize>)
    ensures
        r == selected_preset(preset_index, count),
{
    if count == 0 {
        return None;
    }
    let wanted = match preset_index {
        Some(i) => i,
        None => 0,
    };
    Some(if wanted < count - 1 { wanted } else { count - 1 })
}

/// The format that a file extension names: `sfz`/`SFZ` and `sf2`/`SF2`.
pub open spec fn format_for_extension(ext: Option<Seq<char>>) -> Option<InstrumentFormat> {
    match ext {
        Some(e) => if e == "sfz"@ || e == "SFZ"@ {
            Some(InstrumentFormat::Sfz)
        } else if e == "sf2"@ || e == "SF2"@ {
            Some(InstrumentFormat::Sf2)
        } else {
            None
        },
        None => None,
    }
}

/// The format that a path's extension text names, if any.
pub fn format_from_extension(ext: Option<&str>) -> (r: Option<InstrumentFormat>)
    ensures
        r == format_for_extension(match ext {
            Some(e) => Some(e@),
            None => None,
        }),
{
    match ext {
        Some(e) => {
            let c = chars_of(e);
            let s = c.as_slice();
            if chars_eq_str(s, "sfz") || chars_eq_str(s, "SFZ") {
                Some(InstrumentFormat::Sfz)
            } else if chars_eq_str(s, "sf2") || chars_eq_str(s, "SF2") {
                Some(InstrumentFormat::Sf2)
            } else {
                None
            }
        },
        None => None,
    }
}

/// The file name of a path split at `/`, as `std::path` reads a Unix path:
/// empty and `.` components are skipped; a path that ends in `..`, or has
/// no name component, has none.
pub open spec fn file_name_of(p: Seq<char>) -> Option<Seq<char>>
    decreases p.len(),
{
    if p.len() == 0 {
        None
    } else if p.last() == '/' {
        file_name_of(p.drop_last())
    } else {
        let k = last_index_of(p, '/');
        let comp = p.subrange(k + 1, p.len() as int);
        if comp == "."@ {
            if k < 0 {
                None
            } else {
                proof {
                    lemma_last_index_of(p, '/');
                }
                file_name_of(p.take(k))
            }
        } else if comp == ".."@ {
            None
        } else {
            Some(comp)
        }
    }
}

/// The extension of a file name: the text after its last `.`, unless it
/// has no `.` or its only `.` leads it.
pub open spec fn extension_of_name(name: Seq<char>) -> Option<Seq<char>> {
    let d = last_index_of(name, '.');
    if d <= 0 {
        None
    } else {
        Some(name.skip(d + 1))
    }
}

/// The extension of a path's file name.
pub open spec fn path_extension(path: Seq<char>) -> Option<Seq<char>> {
    match file_name_of(path) {
        Some(name) => extension_of_name(name),
        None => None,
    }
}

/// Where the file name of a path stands in its characters.
fn file_name_bounds(s: &[char]) -> (r: Option<(usize, usize)>)
    ensures
        match r {
            Some((a, b)) => a <= b <= s@.len() && file_name_of(s@) == Some(s@.subrange(a as int, b as int)),
            None => file_name_of(s@) is None,
        },
{
    let mut end = s.len();
    assert(s@.take(end as int) =~= s@);
    loop
        invariant
            end <= s@.len(),
            file_name_of(s@) == file_name_of(s@.take(end as int)),
        decreases end,
    {
        if end == 0 {
            return None;
        }
        if s[end - 1] == '/' {
            assert(s@.take(end as int).drop_last() =~= s@.take(end - 1));
            end = end - 1;
            continue;
        }
        let ghost p = s@.take(end as int);
        let k = last_index(s, end, '/');
        proof {
            lemma_last_index_of(p, '/');
        }
        let from: usize = match k {
            Some(k) => k + 1,
            None => 0,
        };
        let comp = &s[from..end];
        assert(comp@ =~= p.subrange(last_index_of(p, '/') + 1, p.len() as int));
        if chars_eq_str(comp, ".") {
            match k {
                None => {
                    return None;
                },
                Some(k) => {
                    assert(p.take(k as int) =~= s@.take(k as int));
                    end = k;
                },
            }
        } else if chars_eq_str(comp, "..") {
            return None;
        } else {
            assert(comp@ =~= s@.subrange(from as int, end as int));
            return Some((from, end));
        }
    }
}

/// The extension of a path's file name, when it has one.
pub fn extension_text(path: &str) -> (r: Option<String>)
    ensures
        match r {
            Some(e) => path_extension(path@) == Some(e@),
            None => path_extension(path@) is None,
        },
{
    let chars = chars_of(path);
    let s = chars.as_slice();
    let (a, b) = match file_name_bounds(s) {
        Some(v) => v,
        None => return None,
    };
    let name = &s[a..b];
    let ghost n = name@;
    assert(n =~= s@.subrange(a as int, b as int));
    proof {
        lemma_last_index_of(n, '.');
    }
    assert(name@.take(name@.len() as int) =~= n);
    match last_index(name, name.len(), '.') {
        Some(d) => {
            if d == 0 {
                None
            } else {
                let ext = &name[d + 1..name.len()];
                assert(ext@ =~= n.skip(d + 1));
                Some(crate::common::text::string_from_chars(ext))
            }
        },
        None => None,
    }
}

/// The instrument format of a file, from its path's extension.
pub fn detect_format(path: &str) -> (r: Option<InstrumentFormat>)
    ensures
        r == format_for_extension(path_extension(path@)),
{
    match extension_text(path) {
        Some(e) => format_from_extension(Some(e.as_str())),
        None => format_from_extension(None),
    }
}

} // verus!
