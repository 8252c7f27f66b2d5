//! Editor logic of the sampler's interface: panel and selection kinds, the
//! envelope selector, audio file kinds, parameter modulation targets, and
//! the placement and naming of new zones.

use vstd::prelude::*;
use crate::common::text::{
    decimal_text, push_decimal, ascii_lower, chars_eq, chars_eq_str, chars_of, decimal_u32, last_index, last_index_of, lemma_last_index_of,
    parse_u32, string_from_chars, to_ascii_lower,
};
use crate::sampler::dsp::mod_matrix::ModTarget;
use crate::sampler::params::ParamId;
use crate::sampler::state::SampleZone;

verus! {

broadcast use vstd::string::group_string_axioms;

/// The resizable side panels.
#[derive(Debug, Clone, Copy, PartialEq, Eq, Structural)]
pub enum SidePanel {
    Zones,
    Browser,
}

/// The edge of a zone rectangle being dragged.
#[derive(Debug, Clone, Copy, PartialEq, Eq, Structural)]
pub enum ZoneEdge {
    Start,
    End,
    Top,
    Bottom,
}

/// An entry picked in the zone list: a zone by position or a group by name.
pub enum ZoneListSelection {
    Zone(usize),
    Group(String),
}

/// The envelope shown in the envelope editor.
#[derive(Debug, Clone, Copy, PartialEq, Eq, Structural)]
pub enum EgSelectorOption {
    Amp,
    Filter,
    Pitch,
    Eg1,
    Eg2,
    Eg3,
}

impl EgSelectorOption {
    /// The option's position in the selector.
    pub open spec fn position(self) -> usize {
        match self {
            EgSelectorOption::Amp => 0,
            EgSelectorOption::Filter => 1,
            EgSelectorOption::Pitch => 2,
            EgSelectorOption::Eg1 => 3,
            EgSelectorOption::Eg2 => 4,
            EgSelectorOption::Eg3 => 5,
        }
    }

    /// The option at a position, if there is one.
    pub open spec fn at_position(index: usize) -> Option<Self> {
        if index == 0 {
            Some(EgSelectorOption::Amp)
        } else if index == 1 {
            Some(EgSelectorOption::Filter)
        } else if index == 2 {
            Some(EgSelectorOption::Pitch)
        } else if index == 3 {
            Some(EgSelectorOption::Eg1)
        } else if index == 4 {
            Some(EgSelectorOption::Eg2)
        } else if index == 5 {
            Some(EgSelectorOption::Eg3)
        } else {
            None
        }
    }

    /// The option's caption.
    pub open spec fn caption(self) -> Seq<char> {
        match self {
            EgSelectorOption::Amp => "Amp"@,
            EgSelectorOption::Filter => "Filter"@,
            EgSelectorOption::Pitch => "Pitch"@,
            EgSelectorOption::Eg1 => "EG 1"@,
            EgSelectorOption::Eg2 => "EG 2"@,
            EgSelectorOption::Eg3 => "EG 3"@,
        }
    }

    pub fn index(self) -> (r: usize)
        ensures
            r == self.position(),
    {
        match self {
            EgSelectorOption::Amp => 0,
            EgSelectorOption::Filter => 1,
            EgSelectorOption::Pitch => 2,
            EgSelectorOption::Eg1 => 3,
            EgSelectorOption::Eg2 => 4,
            EgSelectorOption::Eg3 => 5,
        }
    }

    pub fn from_index(index: usize) -> (r: Option<Self>)
        ensures
            r == Self::at_position(index),
    {
        match index {
            0 => Some(EgSelectorOption::Amp),
            1 => Some(EgSelectorOption::Filter),
            2 => Some(EgSelectorOption::Pitch),
            3 => Some(EgSelectorOption::Eg1),
            4 => Some(EgSelectorOption::Eg2),
            5 => Some(EgSelectorOption::Eg3),
            _ => None,
        }
    }

    pub fn label(self) -> (r: &'static str)
        ensures
            r@ == self.caption(),
    {
        match self {
            EgSelectorOption::Amp => "Amp",
            EgSelectorOption::Filter => "Filter",
            EgSelectorOption::Pitch => "Pitch",
            EgSelectorOption::Eg1 => "EG 1",
            EgSelectorOption::Eg2 => "EG 2",
            EgSelectorOption::Eg3 => "EG 3",
        }
    }

    /// Every option, in selector order.
    pub fn all() -> (r: [Self; 6])
        ensures
            forall|i: int| 0 <= i < 6 ==> (#[trigger] r@[i]).position() == i,
    {
        [
            EgSelectorOption::Amp,
            EgSelectorOption::Filter,
            EgSelectorOption::Pitch,
            EgSelectorOption::Eg1,
            EgSelectorOption::Eg2,
            EgSelectorOption::Eg3,
        ]
    }
}

/// Looking up an option by its position gives that option; exactly the
/// positions below six name one.
pub proof fn law_eg_selector_positions(o: EgSelectorOption, index: usize)
    ensures
        EgSelectorOption::at_position(o.position()) == Some(o),
        (EgSelectorOption::at_position(index) is Some) <==> index < 6,
        EgSelectorOption::at_position(index) is Some ==> EgSelectorOption::at_position(
            index,
        )->Some_0.position() == index,
{
}

/// The modulation target that a parameter's knob stands for, if any.
pub open spec fn param_mod_target(id: ParamId) -> Option<ModTarget> {
    match id {
        ParamId::MasterGain => Some(ModTarget::Amplitude),
        ParamId::MasterPan => Some(ModTarget::Pan),
        ParamId::FilterCutoff => Some(ModTarget::FilterCutoff),
        ParamId::FilterResonance => Some(ModTarget::FilterResonance),
        _ => None,
    }
}

pub fn mod_target_for_param(id: ParamId) -> (r: Option<ModTarget>)
    ensures
        r == param_mod_target(id),
{
    match id {
        ParamId::MasterGain => Some(ModTarget::Amplitude),
        ParamId::MasterPan => Some(ModTarget::Pan),
        ParamId::FilterCutoff => Some(ModTarget::FilterCutoff),
        ParamId::FilterResonance => Some(ModTarget::FilterResonance),
        _ => None,
    }
}

/// Whether a file extension, in any ASCII case, is one of the audio
/// formats the browser lists: wav, wave, aif, aiff, flac, ogg, mp3, m4a, aac.
pub open spec fn is_audio_ext(ext: Seq<char>) -> bool {
    let l = ext.map_values(|c: char| ascii_lower(c));
    l == "wav"@ || l == "wave"@ || l == "aif"@ || l == "aiff"@ || l == "flac"@ || l == "ogg"@
        || l == "mp3"@ || l == "m4a"@ || l == "aac"@
}

/// Whether an extension names an audio format the browser lists.
pub fn is_audio_extension(ext: &str) -> (r: bool)
    ensures
        r == is_audio_ext(ext@),
{
    let chars = chars_of(ext);
    let mut lower: Vec<char> = Vec::new();
    let mut i: usize = 0;
    while i < chars.len()
        invariant
            i <= chars@.len(),
            lower@ == chars@.take(i as int).map_values(|c: char| ascii_lower(c)),
        decreases chars@.len() - i,
    {
        lower.push(to_ascii_lower(chars[i]));
        i = i + 1;
        assert(lower@ =~= chars@.take(i as int).map_values(|c: char| ascii_lower(c)));
    }
    assert(chars@.take(chars@.len() as int) =~= chars@);
    let l = lower.as_slice();
    chars_eq_str(l, "wav") || chars_eq_str(l, "wave") || chars_eq_str(l, "aif") || chars_eq_str(
        l,
        "aiff",
    ) || chars_eq_str(l, "flac") || chars_eq_str(l, "ogg") || chars_eq_str(l, "mp3")
        || chars_eq_str(l, "m4a") || chars_eq_str(l, "aac")
}


// ---------------------------------------------------------------------------
// Placing a new zone
// ---------------------------------------------------------------------------

/// Whether a zone's note range meets `start..=end`.
pub open spec fn note_overlap(z: SampleZone, start: usize, end: usize) -> bool {
    z.start_note <= end && z.end_note >= start
}

/// The velocity ranges of the zones whose notes meet `start..=end`, in
/// list order.
pub open spec fn overlapping_ranges(zones: Seq<SampleZone>, start: usize, end: usize) -> Seq<(u8, u8)>
    decreases zones.len(),
{
    if zones.len() == 0 {
        Seq::empty()
    } else {
        let prev = overlapping_ranges(zones.drop_last(), start, end);
        if note_overlap(zones.last(), start, end) {
            prev.push((zones.last().vel_low, zones.last().vel_high))
        } else {
            prev
        }
    }
}

/// `s` with `x` placed after the last range whose low velocity is at most
/// that of `x`, searching from the end.
pub open spec fn insert_by_low(s: Seq<(u8, u8)>, x: (u8, u8)) -> Seq<(u8, u8)>
    decreases s.len(),
{
    if s.len() == 0 {
        seq![x]
    } else if s.last().0 <= x.0 {
        s.push(x)
    } else {
        insert_by_low(s.drop_last(), x).push(s.last())
    }
}

/// The ranges ordered by low velocity, ranges with equal low velocity
/// keeping their order.
pub open spec fn sort_by_low(s: Seq<(u8, u8)>) -> Seq<(u8, u8)>
    decreases s.len(),
{
    if s.len() == 0 {
        Seq::empty()
    } else {
        insert_by_low(sort_by_low(s.drop_last()), s.last())
    }
}

pub open spec fn sat_sub1(v: u8) -> u8 {
    if v == 0 {
        0
    } else {
        (v - 1) as u8
    }
}

pub open spec fn sat_add1(v: u8) -> u8 {
    if v == 255 {
        255
    } else {
        (v + 1) as u8
    }
}

/// The free velocity ranges between sorted ranges, starting from `low`:
/// one before each range that starts above the current low, the low moving
/// past each range, and a last one up to 127 when the low is at most 127.
pub open spec fn gap_walk(s: Seq<(u8, u8)>, low: u8) -> Seq<(u8, u8)>
    decreases s.len(),
{
    if s.len() == 0 {
        if low <= 127 {
            seq![(low, 127u8)]
        } else {
            Seq::empty()
        }
    } else {
        let head = if s[0].0 > low {
            seq![(low, sat_sub1(s[0].0))]
        } else {
            Seq::empty()
        };
        head + gap_walk(s.drop_first(), sat_add1(s[0].1))
    }
}

/// How far a velocity lies outside a range below or above it.
pub open spec fn gap_distance(g: (u8, u8), v: u8) -> int {
    if v < g.0 {
        g.0 - v
    } else {
        v - g.1
    }
}

/// The first range from `i` on that holds `v`; failing that, the nearest
/// range, the earliest of equally near ones, where `best` at `best_dist`
/// is the nearest before `i`.
pub open spec fn pick_gap(gaps: Seq<(u8, u8)>, v: u8, i: int, best: (u8, u8), best_dist: int) -> (u8, u8)
    decreases gaps.len() - i,
{
    if i < 0 || i >= gaps.len() {
        best
    } else {
        let g = gaps[i];
        if v >= g.0 && v <= g.1 {
            g
        } else if gap_distance(g, v) < best_dist {
            pick_gap(gaps, v, i + 1, g, gap_distance(g, v))
        } else {
            pick_gap(gaps, v, i + 1, best, best_dist)
        }
    }
}

/// Whether ranges are ordered by low velocity.
pub open spec fn sorted_by_low(s: Seq<(u8, u8)>) -> bool {
    forall|i: int, j: int| 0 <= i < j < s.len() ==> #[trigger] s[i].0 <= #[trigger] s[j].0
}

proof fn lemma_insert_by_low(s: Seq<(u8, u8)>, x: (u8, u8))
    requires
        sorted_by_low(s),
    ensures
        sorted_by_low(insert_by_low(s, x)),
        insert_by_low(s, x).len() == s.len() + 1,
        forall|y: (u8, u8)| #[trigger] insert_by_low(s, x).contains(y) <==> (s.contains(y) || y == x),
    decreases s.len(),
{
    let r = insert_by_low(s, x);
    if s.len() == 0 {
        assert(r =~= seq![x]);
        assert forall|y: (u8, u8)| #[trigger] r.contains(y) <==> (s.contains(y) || y == x) by {
            if r.contains(y) {
                assert(r[0] == x);
            }
            if y == x {
                assert(r[0] == y);
            }
        }
    } else if s.last().0 <= x.0 {
        assert(r == s.push(x));
        assert forall|i: int, j: int| 0 <= i < j < r.len() implies #[trigger] r[i].0 <= #[trigger] r[j].0 by {
            if j == s.len() {
                assert(s[i].0 <= s[s.len() - 1].0);
            } else {
                assert(r[i] == s[i] && r[j] == s[j]);
            }
        }
        assert forall|y: (u8, u8)| #[trigger] r.contains(y) <==> (s.contains(y) || y == x) by {
            if r.contains(y) {
                let k = choose|k: int| 0 <= k < r.len() && r[k] == y;
                if k < s.len() {
                    assert(s[k] == y);
                }
            }
            if s.contains(y) {
                let k = choose|k: int| 0 <= k < s.len() && s[k] == y;
                assert(r[k] == y);
            }
            if y == x {
                assert(r[s.len() as int] == y);
            }
        }
    } else {
        let d = s.drop_last();
        assert(sorted_by_low(d)) by {
            assert forall|i: int, j: int| 0 <= i < j < d.len() implies #[trigger] d[i].0 <= #[trigger] d[j].0 by {
                assert(d[i] == s[i] && d[j] == s[j]);
            }
        }
        lemma_insert_by_low(d, x);
        let m = insert_by_low(d, x);
        assert(r == m.push(s.last()));
        assert forall|k: int| 0 <= k < m.len() implies #[trigger] m[k].0 <= s.last().0 by {
            assert(m.contains(m[k]));
            if m[k] == x {
            } else {
                assert(d.contains(m[k]));
                let q = choose|q: int| 0 <= q < d.len() && d[q] == m[k];
                assert(s[q] == d[q]);
                assert(s[q].0 <= s[s.len() - 1].0);
            }
        }
        assert forall|i: int, j: int| 0 <= i < j < r.len() implies #[trigger] r[i].0 <= #[trigger] r[j].0 by {
            if j == m.len() {
                assert(r[i] == m[i]);
                assert(m[i].0 <= s.last().0);
            } else {
                assert(r[i] == m[i] && r[j] == m[j]);
            }
        }
        assert forall|y: (u8, u8)| #[trigger] r.contains(y) <==> (s.contains(y) || y == x) by {
            if r.contains(y) {
                let k = choose|k: int| 0 <= k < r.len() && r[k] == y;
                if k < m.len() {
                    assert(m[k] == y);
                    assert(m.contains(y));
                    if d.contains(y) {
                        let q = choose|q: int| 0 <= q < d.len() && d[q] == y;
                        assert(s[q] == y);
                    }
                } else {
                    assert(s[s.len() - 1] == y);
                }
            }
            if s.contains(y) {
                let k = choose|k: int| 0 <= k < s.len() && s[k] == y;
                if k < s.len() - 1 {
                    assert(d[k] == y);
                    assert(d.contains(y));
                    assert(m.contains(y));
                    let q = choose|q: int| 0 <= q < m.len() && m[q] == y;
                    assert(r[q] == y);
                } else {
                    assert(r[m.len() as int] == y);
                }
            }
            if y == x {
                assert(m.contains(y));
                let q = choose|q: int| 0 <= q < m.len() && m[q] == y;
                assert(r[q] == y);
            }
        }
    }
}

/// Sorting by low velocity orders the ranges and keeps exactly the same
/// ranges.
pub proof fn law_sort_by_low(s: Seq<(u8, u8)>)
    ensures
        sorted_by_low(sort_by_low(s)),
        sort_by_low(s).len() == s.len(),
        forall|y: (u8, u8)| #[trigger] sort_by_low(s).contains(y) <==> s.contains(y),
    decreases s.len(),
{
    if s.len() > 0 {
        let d = s.drop_last();
        law_sort_by_low(d);
        lemma_insert_by_low(sort_by_low(d), s.last());
        assert forall|y: (u8, u8)| #[trigger] sort_by_low(s).contains(y) <==> s.contains(y) by {
            if d.contains(y) {
                let q = choose|q: int| 0 <= q < d.len() && d[q] == y;
                assert(s[q] == y);
            }
            if s.contains(y) {
                let k = choose|k: int| 0 <= k < s.len() && s[k] == y;
                if k < d.len() {
                    assert(d[k] == y);
                } else {
                    assert(y == s.last());
                }
            }
            if y == s.last() {
                assert(s[s.len() - 1] == y);
            }
        }
    }
}

proof fn lemma_insert_no_duplicates(s: Seq<(u8, u8)>, x: (u8, u8))
    requires
        s.no_duplicates(),
        !s.contains(x),
    ensures
        insert_by_low(s, x).no_duplicates(),
    decreases s.len(),
{
    if s.len() > 0 && !(s.last().0 <= x.0) {
        let d = s.drop_last();
        assert(d.no_duplicates()) by {
            assert forall|i: int, j: int| 0 <= i < d.len() && 0 <= j < d.len() && i != j implies d[i] != d[j] by {
                assert(d[i] == s[i] && d[j] == s[j]);
            }
        }
        assert(!d.contains(x)) by {
            if d.contains(x) {
                let q = choose|q: int| 0 <= q < d.len() && d[q] == x;
                assert(s[q] == x);
            }
        }
        lemma_insert_no_duplicates(d, x);
        assert(sorted_by_low(Seq::<(u8, u8)>::empty()));
        let m = insert_by_low(d, x);
        let r = m.push(s.last());
        assert(insert_by_low(s, x) == r);
        assert(!m.contains(s.last())) by {
            if m.contains(s.last()) {
                let q = choose|q: int| 0 <= q < m.len() && m[q] == s.last();
                lemma_insert_contains(d, x);
                assert(m.contains(m[q]));
                if s.last() == x {
                    assert(s[s.len() - 1] == x);
                } else {
                    assert(d.contains(s.last()));
                    let p = choose|p: int| 0 <= p < d.len() && d[p] == s.last();
                    assert(s[p] == s[s.len() - 1]);
                }
            }
        }
        assert forall|i: int, j: int| 0 <= i < r.len() && 0 <= j < r.len() && i != j implies r[i] != r[j] by {
            if i < m.len() && j < m.len() {
                assert(r[i] == m[i] && r[j] == m[j]);
            } else if i < m.len() {
                assert(r[i] == m[i]);
                assert(m.contains(m[i]));
            } else {
                assert(r[j] == m[j]);
                assert(m.contains(m[j]));
            }
        }
    } else if s.len() > 0 {
        let r = s.push(x);
        assert forall|i: int, j: int| 0 <= i < r.len() && 0 <= j < r.len() && i != j implies r[i] != r[j] by {
            if i < s.len() && j < s.len() {
            } else if i < s.len() {
                assert(s.contains(s[i]));
            } else {
                assert(s.contains(s[j]));
            }
        }
    } else {
        assert(insert_by_low(s, x) =~= seq![x]);
    }
}

proof fn lemma_insert_contains(s: Seq<(u8, u8)>, x: (u8, u8))
    ensures
        forall|y: (u8, u8)| #[trigger] insert_by_low(s, x).contains(y) <==> (s.contains(y) || y == x),
    decreases s.len(),
{
    let r = insert_by_low(s, x);
    if s.len() == 0 {
        assert(r =~= seq![x]);
        assert forall|y: (u8, u8)| #[trigger] r.contains(y) <==> (s.contains(y) || y == x) by {
            if y == x {
                assert(r[0] == y);
            }
        }
    } else if s.last().0 <= x.0 {
        assert forall|y: (u8, u8)| #[trigger] r.contains(y) <==> (s.contains(y) || y == x) by {
            if r.contains(y) {
                let k = choose|k: int| 0 <= k < r.len() && r[k] == y;
                if k < s.len() {
                    assert(s[k] == y);
                }
            }
            if s.contains(y) {
                let k = choose|k: int| 0 <= k < s.len() && s[k] == y;
                assert(r[k] == y);
            }
            if y == x {
                assert(r[s.len() as int] == y);
            }
        }
    } else {
        let d = s.drop_last();
        lemma_insert_contains(d, x);
        let m = insert_by_low(d, x);
        assert forall|y: (u8, u8)| #[trigger] r.contains(y) <==> (s.contains(y) || y == x) by {
            if r.contains(y) {
                let k = choose|k: int| 0 <= k < r.len() && r[k] == y;
                if k < m.len() {
                    assert(m[k] == y);
                    assert(m.contains(y));
                    if d.contains(y) {
                        let q = choose|q: int| 0 <= q < d.len() && d[q] == y;
                        assert(s[q] == y);
                    }
                } else {
                    assert(s[s.len() - 1] == y);
                }
            }
            if s.contains(y) {
                let k = choose|k: int| 0 <= k < s.len() && s[k] == y;
                if k < s.len() - 1 {
                    assert(d[k] == y);
                    assert(m.contains(y));
                    let q = choose|q: int| 0 <= q < m.len() && m[q] == y;
                    assert(r[q] == y);
                } else {
                    assert(r[m.len() as int] == y);
                }
            }
            if y == x {
                assert(m.contains(y));
                let q = choose|q: int| 0 <= q < m.len() && m[q] == y;
                assert(r[q] == y);
            }
        }
    }
}

proof fn lemma_sort_no_duplicates(s: Seq<(u8, u8)>)
    requires
        s.no_duplicates(),
    ensures
        sort_by_low(s).no_duplicates(),
    decreases s.len(),
{
    if s.len() > 0 {
        let d = s.drop_last();
        assert(d.no_duplicates()) by {
            assert forall|i: int, j: int| 0 <= i < d.len() && 0 <= j < d.len() && i != j implies d[i] != d[j] by {
                assert(d[i] == s[i] && d[j] == s[j]);
            }
        }
        lemma_sort_no_duplicates(d);
        law_sort_by_low(d);
        assert(!sort_by_low(d).contains(s.last())) by {
            if sort_by_low(d).contains(s.last()) {
                assert(d.contains(s.last()));
                let p = choose|p: int| 0 <= p < d.len() && d[p] == s.last();
                assert(s[p] == s[s.len() - 1]);
            }
        }
        lemma_insert_no_duplicates(sort_by_low(d), s.last());
    }
}

/// Whether some range holds velocity `x`.
pub open spec fn covered(s: Seq<(u8, u8)>, x: int) -> bool {
    exists|j: int| 0 <= j < s.len() && #[trigger] s[j].0 <= x && x <= s[j].1
}

/// Ranges each within 0 to 127, each lying wholly below the ones after it.
pub open spec fn ascending_chain(s: Seq<(u8, u8)>) -> bool {
    &&& forall|j: int| 0 <= j < s.len() ==> #[trigger] s[j].0 <= s[j].1 && s[j].1 <= 127
    &&& forall|i: int, j: int| 0 <= i < j < s.len() ==> #[trigger] s[i].1 < #[trigger] s[j].0
}

/// Whether `g` is a largest stretch of velocities from `low` to 127 that no
/// range holds.
pub open spec fn free_stretch(s: Seq<(u8, u8)>, low: int, g: (u8, u8)) -> bool {
    &&& low <= g.0 <= g.1 <= 127
    &&& forall|x: int| g.0 <= x <= g.1 ==> !covered(s, x)
    &&& (g.0 == low || covered(s, g.0 - 1))
    &&& (g.1 == 127 || covered(s, g.1 + 1))
}

proof fn lemma_gap_walk(s: Seq<(u8, u8)>, low: u8)
    requires
        ascending_chain(s),
        low <= 128,
        s.len() > 0 ==> low <= s[0].0,
    ensures
        forall|k: int| 0 <= k < gap_walk(s, low).len() ==> free_stretch(s, low as int, #[trigger] gap_walk(s, low)[k]),
        forall|x: int| low <= x <= 127 && !covered(s, x) ==> exists|k: int|
            0 <= k < gap_walk(s, low).len() && #[trigger] range_holds(gap_walk(s, low)[k], x as u8),
    decreases s.len(),
{
    let gaps = gap_walk(s, low);
    if s.len() == 0 {
        if low <= 127 {
            assert(gaps =~= seq![(low, 127u8)]);
            assert forall|x: int| low <= x <= 127 && !covered(s, x) implies exists|k: int|
                0 <= k < gaps.len() && #[trigger] range_holds(gaps[k], x as u8) by {
                assert(range_holds(gaps[0], x as u8));
            }
        }
    } else {
        let r0 = s[0];
        let rest = s.drop_first();
        let low2 = sat_add1(r0.1);
        assert(r0.1 <= 127);
        assert(low2 == r0.1 + 1);
        assert(ascending_chain(rest)) by {
            assert forall|j: int| 0 <= j < rest.len() implies #[trigger] rest[j].0 <= rest[j].1 && rest[j].1 <= 127 by {
                assert(rest[j] == s[j + 1]);
            }
            assert forall|i: int, j: int| 0 <= i < j < rest.len() implies #[trigger] rest[i].1 < #[trigger] rest[j].0 by {
                assert(rest[i] == s[i + 1] && rest[j] == s[j + 1]);
            }
        }
        if rest.len() > 0 {
            assert(rest[0] == s[1]);
            assert(s[0].1 < s[1].0);
        }
        lemma_gap_walk(rest, low2);
        let tail = gap_walk(rest, low2);
        let head = if r0.0 > low { seq![(low, sat_sub1(r0.0))] } else { Seq::<(u8, u8)>::empty() };
        assert(gaps == head + tail);
        // Coverage by s is coverage by its first range or by the rest.
        assert forall|x: int| #[trigger] covered(s, x) <==> ((r0.0 <= x && x <= r0.1) || covered(rest, x)) by {
            if covered(s, x) {
                let j = choose|j: int| 0 <= j < s.len() && #[trigger] s[j].0 <= x && x <= s[j].1;
                if j > 0 {
                    assert(rest[j - 1] == s[j]);
                }
            }
            if covered(rest, x) {
                let j = choose|j: int| 0 <= j < rest.len() && #[trigger] rest[j].0 <= x && x <= rest[j].1;
                assert(s[j + 1] == rest[j]);
            }
            if r0.0 <= x && x <= r0.1 {
                assert(s[0].0 <= x && x <= s[0].1);
            }
        }
        // Every range lies at or above the first one's low velocity.
        assert forall|x: int| x < r0.0 implies !#[trigger] covered(rest, x) by {
            if covered(rest, x) {
                let j = choose|j: int| 0 <= j < rest.len() && #[trigger] rest[j].0 <= x && x <= rest[j].1;
                assert(rest[j] == s[j + 1]);
                assert(s[0].1 < s[j + 1].0);
            }
        }
        assert forall|k: int| 0 <= k < gaps.len() implies free_stretch(s, low as int, #[trigger] gaps[k]) by {
            if k < head.len() {
                let g = gaps[k];
                assert(g == (low, sat_sub1(r0.0)));
                assert(covered(s, g.1 + 1)) by {
                    assert(s[0].0 <= g.1 + 1 && g.1 + 1 <= s[0].1);
                }
                assert forall|x: int| g.0 <= x <= g.1 implies !covered(s, x) by {
                    assert(!covered(rest, x));
                }
            } else {
                let g = tail[k - head.len()];
                assert(gaps[k] == g);
                assert(free_stretch(rest, low2 as int, g));
                assert forall|x: int| g.0 <= x <= g.1 implies !covered(s, x) by {
                    assert(!covered(rest, x));
                }
                if g.0 != low2 {
                    assert(covered(rest, g.0 - 1));
                    assert(covered(s, g.0 - 1));
                } else {
                    assert(covered(s, g.0 - 1)) by {
                        assert(s[0].0 <= g.0 - 1 && g.0 - 1 <= s[0].1);
                    }
                }
                if g.1 != 127 {
                    assert(covered(rest, g.1 + 1));
                    assert(covered(s, g.1 + 1));
                }
            }
        }
        assert forall|x: int| low <= x <= 127 && !covered(s, x) implies exists|k: int|
            0 <= k < gaps.len() && #[trigger] range_holds(gaps[k], x as u8) by {
            if x < r0.0 {
                assert(head.len() == 1);
                assert(gaps[0] == (low, sat_sub1(r0.0)));
                assert(range_holds(gaps[0], x as u8));
            } else {
                assert(x > r0.1);
                assert(!covered(rest, x));
                let k = choose|k: int| 0 <= k < tail.len() && #[trigger] range_holds(tail[k], x as u8);
                assert(gaps[k + head.len()] == tail[k]);
            }
        }
    }
}

/// Whether a velocity range holds a velocity.
pub open spec fn range_holds(g: (u8, u8), v: u8) -> bool {
    g.0 <= v && v <= g.1
}

proof fn lemma_pick_gap(gaps: Seq<(u8, u8)>, v: u8, i: int, best: (u8, u8), bd: int, bi: int)
    requires
        0 <= i <= gaps.len(),
        forall|j: int| 0 <= j < i ==> !range_holds(#[trigger] gaps[j], v),
        i == 0 ==> bd == 65535,
        i > 0 ==> 0 <= bi < i && gaps[bi] == best && bd == gap_distance(best, v)
            && (forall|j: int| 0 <= j < i ==> gap_distance(#[trigger] gaps[j], v) >= bd)
            && (forall|j: int| 0 <= j < bi ==> gap_distance(#[trigger] gaps[j], v) > bd),
    ensures
        ({
            let r = pick_gap(gaps, v, i, best, bd);
            &&& (exists|k: int| i <= k < gaps.len() && range_holds(#[trigger] gaps[k], v)) ==> exists|k: int|
                0 <= k < gaps.len() && gaps[k] == r && range_holds(r, v) && forall|j: int|
                    0 <= j < k ==> !range_holds(#[trigger] gaps[j], v)
            &&& (i > 0 || gaps.len() > 0) && !(exists|k: int| i <= k < gaps.len() && range_holds(#[trigger] gaps[k], v))
                ==> exists|k: int|
                0 <= k < gaps.len() && gaps[k] == r && (forall|j: int|
                    0 <= j < gaps.len() ==> gap_distance(r, v) <= gap_distance(#[trigger] gaps[j], v)) && (forall|j: int|
                    0 <= j < k ==> gap_distance(r, v) < gap_distance(#[trigger] gaps[j], v))
        }),
    decreases gaps.len() - i,
{
    if i < gaps.len() {
        let g = gaps[i];
        assert(gap_distance(g, v) < 65535);
        if range_holds(g, v) {
            assert(pick_gap(gaps, v, i, best, bd) == g);
        } else if gap_distance(g, v) < bd {
            lemma_pick_gap(gaps, v, i + 1, g, gap_distance(g, v), i);
            if exists|k: int| i <= k < gaps.len() && range_holds(#[trigger] gaps[k], v) {
                let k = choose|k: int| i <= k < gaps.len() && range_holds(#[trigger] gaps[k], v);
                assert(k != i);
                assert(exists|k2: int| i + 1 <= k2 < gaps.len() && range_holds(#[trigger] gaps[k2], v));
            }
        } else {
            lemma_pick_gap(gaps, v, i + 1, best, bd, bi);
            if exists|k: int| i <= k < gaps.len() && range_holds(#[trigger] gaps[k], v) {
                let k = choose|k: int| i <= k < gaps.len() && range_holds(#[trigger] gaps[k], v);
                assert(k != i);
                assert(exists|k2: int| i + 1 <= k2 < gaps.len() && range_holds(#[trigger] gaps[k2], v));
            }
        }
    } else {
        if i > 0 {
            assert(gaps[bi] == pick_gap(gaps, v, i, best, bd));
        }
    }
}

/// Which free range `pick_gap` chooses among the free ranges: the first one
/// that holds the velocity; when none does, one nearest to it, the first of
/// the equally near ones.
pub proof fn law_pick_gap_choice(gaps: Seq<(u8, u8)>, v: u8)
    requires
        gaps.len() > 0,
    ensures
        ({
            let r = pick_gap(gaps, v, 0, gaps[0], 65535);
            &&& (exists|k: int| 0 <= k < gaps.len() && range_holds(#[trigger] gaps[k], v)) ==> exists|k: int|
                0 <= k < gaps.len() && gaps[k] == r && range_holds(r, v) && forall|j: int|
                    0 <= j < k ==> !range_holds(#[trigger] gaps[j], v)
            &&& !(exists|k: int| 0 <= k < gaps.len() && range_holds(#[trigger] gaps[k], v)) ==> exists|k: int|
                0 <= k < gaps.len() && gaps[k] == r && (forall|j: int|
                    0 <= j < gaps.len() ==> gap_distance(r, v) <= gap_distance(#[trigger] gaps[j], v)) && (forall|j: int|
                    0 <= j < k ==> gap_distance(r, v) < gap_distance(#[trigger] gaps[j], v))
        }),
{
    lemma_pick_gap(gaps, v, 0, gaps[0], 65535, -1);
}

/// For zones whose velocity ranges lie within 0 to 127 and, among the zones
/// meeting `start..=end`, do not overlap: with no such zone the new zone
/// gets 0 to 127; otherwise the free ranges considered are exactly the
/// largest stretches of 0 to 127 that none of those zones holds; when there
/// is none the new zone gets `velocity` alone, and otherwise the first free
/// range holding `velocity`, or failing that the first of the nearest ones.
pub proof fn law_vertical_slot(zones: Seq<SampleZone>, start: usize, end: usize, velocity: u8)
    requires
        velocity <= 127,
        forall|j: int| 0 <= j < overlapping_ranges(zones, start, end).len() ==> #[trigger] overlapping_ranges(
            zones,
            start,
            end,
        )[j].0 <= overlapping_ranges(zones, start, end)[j].1 <= 127,
        forall|p: int, q: int|
            0 <= p < q < overlapping_ranges(zones, start, end).len() ==> #[trigger] overlapping_ranges(
                zones,
                start,
                end,
            )[p].1 < #[trigger] overlapping_ranges(zones, start, end)[q].0 || overlapping_ranges(
                zones,
                start,
                end,
            )[q].1 < overlapping_ranges(zones, start, end)[p].0,
    ensures
        ({
            let ov = overlapping_ranges(zones, start, end);
            let gaps = gap_walk(sort_by_low(ov), 0);
            let r = vertical_slot(zones, start, end, velocity);
            &&& ov.len() == 0 ==> r == (0u8, 127u8)
            &&& ov.len() > 0 ==> forall|k: int| 0 <= k < gaps.len() ==> free_stretch(ov, 0, #[trigger] gaps[k])
            &&& ov.len() > 0 ==> forall|x: int| 0 <= x <= 127 && !covered(ov, x) ==> exists|k: int|
                0 <= k < gaps.len() && #[trigger] range_holds(gaps[k], x as u8)
            &&& ov.len() > 0 && gaps.len() == 0 ==> r == (velocity, velocity) && forall|x: int|
                0 <= x <= 127 ==> covered(ov, x)
            &&& ov.len() > 0 && gaps.len() > 0 ==> r == pick_gap(gaps, velocity, 0, gaps[0], 65535)
        }),
{
    let ov = overlapping_ranges(zones, start, end);
    if ov.len() > 0 {
        let srt = sort_by_low(ov);
        law_sort_by_low(ov);
        assert(ov.no_duplicates()) by {
            assert forall|i: int, j: int| 0 <= i < ov.len() && 0 <= j < ov.len() && i != j implies ov[i] != ov[j] by {
                if i < j {
                    assert(ov[i].1 < ov[j].0 || ov[j].1 < ov[i].0);
                } else {
                    assert(ov[j].1 < ov[i].0 || ov[i].1 < ov[j].0);
                }
            }
        }
        lemma_sort_no_duplicates(ov);
        assert(ascending_chain(srt)) by {
            assert forall|j: int| 0 <= j < srt.len() implies #[trigger] srt[j].0 <= srt[j].1 && srt[j].1 <= 127 by {
                assert(srt.contains(srt[j]));
                let p = choose|p: int| 0 <= p < ov.len() && ov[p] == srt[j];
                assert(ov[p].0 <= ov[p].1 <= 127);
            }
            assert forall|i: int, j: int| 0 <= i < j < srt.len() implies #[trigger] srt[i].1 < #[trigger] srt[j].0 by {
                assert(srt.contains(srt[i]));
                assert(srt.contains(srt[j]));
                let p = choose|p: int| 0 <= p < ov.len() && ov[p] == srt[i];
                let q = choose|q: int| 0 <= q < ov.len() && ov[q] == srt[j];
                assert(srt[i] != srt[j]);
                assert(p != q);
                assert(srt[i].0 <= srt[j].0);
                assert(ov[q].0 <= ov[q].1);
                if p < q {
                    assert(ov[p].1 < ov[q].0 || ov[q].1 < ov[p].0);
                } else {
                    assert(ov[q].1 < ov[p].0 || ov[p].1 < ov[q].0);
                }
            }
        }
        assert(srt[0].0 >= 0);
        lemma_gap_walk(srt, 0);
        assert forall|x: int| #[trigger] covered(srt, x) <==> covered(ov, x) by {
            if covered(srt, x) {
                let j = choose|j: int| 0 <= j < srt.len() && #[trigger] srt[j].0 <= x && x <= srt[j].1;
                assert(srt.contains(srt[j]));
                let p = choose|p: int| 0 <= p < ov.len() && ov[p] == srt[j];
                assert(ov[p].0 <= x && x <= ov[p].1);
            }
            if covered(ov, x) {
                let j = choose|j: int| 0 <= j < ov.len() && #[trigger] ov[j].0 <= x && x <= ov[j].1;
                assert(ov.contains(ov[j]));
                assert(srt.contains(ov[j]));
                let p = choose|p: int| 0 <= p < srt.len() && srt[p] == ov[j];
                assert(srt[p].0 <= x && x <= srt[p].1);
            }
        }
        let gaps = gap_walk(srt, 0);
        assert forall|k: int| 0 <= k < gaps.len() implies free_stretch(ov, 0, #[trigger] gaps[k]) by {
            assert(free_stretch(srt, 0, gaps[k]));
            let g = gaps[k];
            assert forall|x: int| g.0 <= x <= g.1 implies !covered(ov, x) by {
                assert(!covered(srt, x));
            }
            if g.0 != 0 {
                assert(covered(srt, g.0 - 1));
            }
            if g.1 != 127 {
                assert(covered(srt, g.1 + 1));
            }
        }
        if gaps.len() == 0 {
            assert forall|x: int| 0 <= x <= 127 implies covered(ov, x) by {
                if !covered(ov, x) {
                    assert(!covered(srt, x));
                    let k = choose|k: int| 0 <= k < gaps.len() && #[trigger] range_holds(gaps[k], x as u8);
                }
            }
        }
        assert forall|x: int| 0 <= x <= 127 && !covered(ov, x) implies exists|k: int|
            0 <= k < gaps.len() && #[trigger] range_holds(gaps[k], x as u8) by {
            assert(!covered(srt, x));
        }
    }
}

/// The velocity range a new zone over `start..=end` gets: the whole range
/// when no zone meets those notes; else the free range that holds
/// `velocity`, or the nearest free range; `velocity` alone when nothing is
/// free.
pub open spec fn vertical_slot(zones: Seq<SampleZone>, start: usize, end: usize, velocity: u8) -> (u8, u8) {
    let ov = overlapping_ranges(zones, start, end);
    if ov.len() == 0 {
        (0u8, 127u8)
    } else {
        let gaps = gap_walk(sort_by_low(ov), 0);
        if gaps.len() == 0 {
            (velocity, velocity)
        } else {
            pick_gap(gaps, velocity, 0, gaps[0], 65535)
        }
    }
}

proof fn lemma_insert_by_low_at(s: Seq<(u8, u8)>, x: (u8, u8), pos: int)
    requires
        0 <= pos <= s.len(),
        forall|j: int| pos <= j < s.len() ==> #[trigger] s[j].0 > x.0,
        pos == 0 || s[pos - 1].0 <= x.0,
    ensures
        insert_by_low(s, x) == s.take(pos) + seq![x] + s.skip(pos),
    decreases s.len(),
{
    if s.len() == 0 {
        assert(s.take(pos) + seq![x] + s.skip(pos) =~= seq![x]);
    } else if s.last().0 <= x.0 {
        assert(pos == s.len());
        assert(s.take(pos) + seq![x] + s.skip(pos) =~= s.push(x));
    } else {
        assert(pos < s.len());
        let d = s.drop_last();
        assert forall|j: int| pos <= j < d.len() implies #[trigger] d[j].0 > x.0 by {
            assert(d[j] == s[j]);
        }
        lemma_insert_by_low_at(d, x, pos);
        assert(d.take(pos) =~= s.take(pos));
        assert((d.take(pos) + seq![x] + d.skip(pos)).push(s.last()) =~= s.take(pos) + seq![x] + s.skip(pos));
    }
}

/// The velocity ranges of the zones that meet `start..=end`.
fn collect_overlapping(zones: &[SampleZone], start: usize, end: usize) -> (r: Vec<(u8, u8)>)
    ensures
        r@ == overlapping_ranges(zones@, start, end),
{
    let mut out: Vec<(u8, u8)> = Vec::new();
    let mut i: usize = 0;
    while i < zones.len()
        invariant
            i <= zones@.len(),
            out@ == overlapping_ranges(zones@.take(i as int), start, end),
        decreases zones@.len() - i,
    {
        proof {
            assert(zones@.take(i + 1).drop_last() =~= zones@.take(i as int));
        }
        let z = &zones[i];
        if z.start_note <= end && z.end_note >= start {
            out.push((z.vel_low, z.vel_high));
        }
        i = i + 1;
    }
    assert(zones@.take(zones@.len() as int) =~= zones@);
    out
}

/// Orders ranges by low velocity, keeping the order of equal ones.
fn sort_ranges(s: &Vec<(u8, u8)>) -> (r: Vec<(u8, u8)>)
    ensures
        r@ == sort_by_low(s@),
{
    let mut out: Vec<(u8, u8)> = Vec::new();
    let mut i: usize = 0;
    while i < s.len()
        invariant
            i <= s@.len(),
            out@ == sort_by_low(s@.take(i as int)),
        decreases s@.len() - i,
    {
        let x = s[i];
        let mut pos = out.len();
        while pos > 0 && out[pos - 1].0 > x.0
            invariant
                pos <= out@.len(),
                forall|j: int| pos <= j < out@.len() ==> #[trigger] out@[j].0 > x.0,
            decreases pos,
        {
            pos = pos - 1;
        }
        proof {
            lemma_insert_by_low_at(out@, x, pos as int);
            assert(s@.take(i + 1).drop_last() =~= s@.take(i as int));
            assert(s@.take(i + 1).last() == x);
        }
        let ghost before = out@;
        out.insert(pos, x);
        assert(out@ =~= before.take(pos as int) + seq![x] + before.skip(pos as int));
        i = i + 1;
    }
    assert(s@.take(s@.len() as int) =~= s@);
    out
}

/// The free velocity ranges between ranges ordered by low velocity.
fn find_gaps(s: &Vec<(u8, u8)>) -> (r: Vec<(u8, u8)>)
    ensures
        r@ == gap_walk(s@, 0),
{
    let mut gaps: Vec<(u8, u8)> = Vec::new();
    let mut low: u8 = 0;
    let mut i: usize = 0;
    assert(s@.skip(0) =~= s@);
    while i < s.len()
        invariant
            i <= s@.len(),
            gaps@ + gap_walk(s@.skip(i as int), low) == gap_walk(s@, 0),
        decreases s@.len() - i,
    {
        let (vel_low, vel_high) = s[i];
        let ghost rest = s@.skip(i as int);
        assert(rest[0] == (vel_low, vel_high));
        assert(rest.drop_first() =~= s@.skip(i + 1));
        let ghost before = gaps@;
        if vel_low > low {
            gaps.push((low, if vel_low == 0 { 0 } else { vel_low - 1 }));
            assert(gaps@ + gap_walk(s@.skip(i + 1), sat_add1(vel_high)) =~= before + gap_walk(rest, low));
        } else {
            assert(gaps@ + gap_walk(s@.skip(i + 1), sat_add1(vel_high)) =~= before + gap_walk(rest, low));
        }
        low = if vel_high == 255 { 255 } else { vel_high + 1 };
        i = i + 1;
    }
    let ghost before = gaps@;
    if low <= 127 {
        gaps.push((low, 127));
    }
    assert(gaps@ =~= before + gap_walk(s@.skip(i as int), low));
    gaps
}

/// Chooses the velocity range for a new zone over `start_note..=end_note`
/// near `velocity`, avoiding the ranges of zones that share those notes.
pub fn find_vertical_slot(zones: &[SampleZone], start_note: usize, end_note: usize, velocity: u8) -> (r: (
    u8,
    u8,
))
    ensures
        r == vertical_slot(zones@, start_note, end_note, velocity),
{
    let overlapping = collect_overlapping(zones, start_note, end_note);
    if overlapping.len() == 0 {
        return (0, 127);
    }
    let sorted = sort_ranges(&overlapping);
    let gaps = find_gaps(&sorted);
    if gaps.len() == 0 {
        return (velocity, velocity);
    }
    let mut best = gaps[0];
    let mut best_dist: u16 = 65535;
    let mut i: usize = 0;
    while i < gaps.len()
        invariant
            i <= gaps@.len(),
            gaps@.len() > 0,
            overlapping@ == overlapping_ranges(zones@, start_note, end_note),
            overlapping@.len() > 0,
            sorted@ == sort_by_low(overlapping@),
            gaps@ == gap_walk(sorted@, 0),
            pick_gap(gaps@, velocity, 0, gaps@[0], 65535) == pick_gap(gaps@, velocity, i as int, best, best_dist as int),
        decreases gaps@.len() - i,
    {
        let (gap_low, gap_high) = gaps[i];
        if velocity >= gap_low && velocity <= gap_high {
            return (gap_low, gap_high);
        }
        let dist: u16 = if velocity < gap_low {
            (gap_low - velocity) as u16
        } else {
            (velocity - gap_high) as u16
        };
        if dist < best_dist {
            best_dist = dist;
            best = (gap_low, gap_high);
        }
        i = i + 1;
    }
    best
}


// ---------------------------------------------------------------------------
// Naming a new zone
// ---------------------------------------------------------------------------

/// `q`, a space, and the decimal digits of `k`.
pub open spec fn numbered(q: Seq<char>, k: nat) -> Seq<char> {
    q + seq![' '] + decimal_text(k)
}

/// The names of the zones.
pub open spec fn zone_name_set(zones: Seq<SampleZone>) -> Set<Seq<char>> {
    Set::new(|s: Seq<char>| exists|i: int| 0 <= i < zones.len() && #[trigger] zones[i].name@ == s)
}

/// The prefix and the first number tried for a name that is taken: a name
/// that ends in a space and a `u32` continues from that number plus one;
/// any other name gets ` 2` added.
pub open spec fn first_step(base: Seq<char>) -> (Seq<char>, int) {
    let k = last_index_of(base, ' ');
    if k >= 0 && decimal_u32(base.skip(k + 1)) is Some {
        (base.take(k), decimal_u32(base.skip(k + 1))->Some_0 + 1)
    } else {
        (base, 2)
    }
}

/// The first number from `k` on whose numbered name is free.
pub open spec fn first_free(names: Set<Seq<char>>, q: Seq<char>, k: int) -> int
    decreases u32::MAX - k,
{
    if k >= u32::MAX || !names.contains(numbered(q, k as nat)) {
        k
    } else {
        first_free(names, q, k + 1)
    }
}

/// Whether some number from `k0` up to `u32::MAX` gives a free name.
pub open spec fn has_free_number(names: Set<Seq<char>>, q: Seq<char>, k0: int) -> bool {
    exists|f: int| k0 <= f <= u32::MAX && !#[trigger] names.contains(numbered(q, f as nat))
}

/// Whether naming a zone after `base` stays within `u32` numbering.
pub open spec fn zone_name_fits(zones: Seq<SampleZone>, base: Seq<char>) -> bool {
    zone_name_set(zones).contains(base) ==> has_free_number(
        zone_name_set(zones),
        first_step(base).0,
        first_step(base).1,
    )
}

/// The name a new zone gets: `base` when no zone has it, else `base` with
/// the first free number.
pub open spec fn unique_name(zones: Seq<SampleZone>, base: Seq<char>) -> Seq<char> {
    let names = zone_name_set(zones);
    if !names.contains(base) {
        base
    } else {
        let (q, k0) = first_step(base);
        numbered(q, first_free(names, q, k0) as nat)
    }
}

proof fn lemma_first_free(names: Set<Seq<char>>, q: Seq<char>, k: int, f: int)
    requires
        k <= f <= u32::MAX,
        !names.contains(numbered(q, f as nat)),
    ensures
        k <= first_free(names, q, k) <= f,
        !names.contains(numbered(q, first_free(names, q, k) as nat)),
    decreases u32::MAX - k,
{
    if k < u32::MAX && names.contains(numbered(q, k as nat)) {
        lemma_first_free(names, q, k + 1, f);
    }
}

/// Whether some zone is named `name`.
fn name_taken(zones: &[SampleZone], name: &[char]) -> (r: bool)
    ensures
        r == zone_name_set(zones@).contains(name@),
{
    let mut i: usize = 0;
    while i < zones.len()
        invariant
            i <= zones@.len(),
            forall|j: int| 0 <= j < i ==> zones@[j].name@ != name@,
        decreases zones@.len() - i,
    {
        let zn = chars_of(zones[i].name.as_str());
        if chars_eq(zn.as_slice(), name) {
            assert(zone_name_set(zones@).contains(name@)) by {
                assert(zones@[i as int].name@ == name@);
            }
            return true;
        }
        i = i + 1;
    }
    false
}

/// A name for a new zone that no zone has yet: `base` if it is free, else
/// `base` numbered (`Zone 2`, `Zone 3`, ...), continuing from a number that
/// `base` already ends in.
pub fn unique_zone_name(zones: &[SampleZone], base: &str) -> (r: String)
    requires
        zone_name_fits(zones@, base@),
    ensures
        r@ == unique_name(zones@, base@),
{
    let chars = chars_of(base);
    let s = chars.as_slice();
    if !name_taken(zones, s) {
        return base.to_owned();
    }
    let ghost names = zone_name_set(zones@);
    let n = s.len();
    let (q, k0): (&[char], u64) = match last_index(s, n, ' ') {
        Some(k) => {
            proof {
                assert(s@.take(n as int) =~= s@);
                lemma_last_index_of(s@, ' ');
            }
            let suffix = &s[k + 1..n];
            assert(suffix@ =~= s@.skip(k + 1));
            match parse_u32(suffix) {
                Some(v) => {
                    let prefix = &s[0..k];
                    assert(prefix@ =~= s@.take(k as int));
                    (prefix, v as u64 + 1)
                },
                None => (s, 2),
            }
        },
        None => {
            assert(s@.take(n as int) =~= s@);
            (s, 2)
        },
    };
    assert(q@ == first_step(base@).0 && k0 == first_step(base@).1);
    let ghost f = choose|f: int| k0 <= f <= u32::MAX && !#[trigger] names.contains(numbered(q@, f as nat));
    proof {
        lemma_first_free(names, q@, k0 as int, f);
    }
    let mut k: u64 = k0;
    loop
        invariant
            names == zone_name_set(zones@),
            names.contains(base@),
            k0 <= k <= f <= u32::MAX,
            !names.contains(numbered(q@, f as nat)),
            q@ == first_step(base@).0,
            k0 == first_step(base@).1,
            first_free(names, q@, k0 as int) == first_free(names, q@, k as int),
        decreases u32::MAX - k,
    {
        let mut candidate: Vec<char> = Vec::new();
        let mut i: usize = 0;
        while i < q.len()
            invariant
                i <= q@.len(),
                candidate@ == q@.take(i as int),
            decreases q@.len() - i,
        {
            candidate.push(q[i]);
            i = i + 1;
            assert(candidate@ =~= q@.take(i as int));
        }
        assert(q@.take(q@.len() as int) =~= q@);
        candidate.push(' ');
        push_decimal(&mut candidate, k);
        assert(candidate@ =~= numbered(q@, k as nat));
        if !name_taken(zones, candidate.as_slice()) {
            return string_from_chars(candidate.as_slice());
        }
        assert(k < f);
        k = k + 1;
    }
}

/// The name given to a new zone is one that no existing zone has.
pub proof fn law_unique_zone_name_is_free(zones: Seq<SampleZone>, base: Seq<char>)
    requires
        zone_name_fits(zones, base),
    ensures
        !zone_name_set(zones).contains(unique_name(zones, base)),
{
    let names = zone_name_set(zones);
    if names.contains(base) {
        let (q, k0) = first_step(base);
        let f = choose|f: int| k0 <= f <= u32::MAX && !#[trigger] names.contains(numbered(q, f as nat));
        lemma_first_free(names, q, k0, f);
    }
}

} // verus!
