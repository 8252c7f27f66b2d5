//! The sampler's zone list and its saved form.

use vstd::prelude::*;

verus! {

broadcast use vstd::string::group_string_axioms;

/// The saved form of one zone of the sampler's zone list.
pub struct SamplerZoneState {
    pub name: String,
    pub files: Vec<String>,
    pub start_note: usize,
    pub end_note: usize,
    pub vel_low: u8,
    pub vel_high: u8,
    pub group: String,
}

/// One zone of the sampler's zone list: a note and velocity range that
/// plays one of its files, in a named group. File paths are held as text.
pub struct SampleZone {
    pub name: String,
    pub files: Vec<String>,
    pub start_note: usize,
    pub end_note: usize,
    pub vel_low: u8,
    pub vel_high: u8,
    pub group: String,
}

/// What a zone holds, as text.
pub ghost struct ZoneView {
    pub name: Seq<char>,
    pub files: Seq<Seq<char>>,
    pub start_note: usize,
    pub end_note: usize,
    pub vel_low: u8,
    pub vel_high: u8,
    pub group: Seq<char>,
}

impl View for SamplerZoneState {
    type V = ZoneView;

    open spec fn view(&self) -> ZoneView {
        ZoneView {
            name: self.name@,
            files: texts(self.files@),
            start_note: self.start_note,
            end_note: self.end_note,
            vel_low: self.vel_low,
            vel_high: self.vel_high,
            group: self.group@,
        }
    }
}

impl View for SampleZone {
    type V = ZoneView;

    open spec fn view(&self) -> ZoneView {
        ZoneView {
            name: self.name@,
            files: texts(self.files@),
            start_note: self.start_note,
            end_note: self.end_note,
            vel_low: self.vel_low,
            vel_high: self.vel_high,
            group: self.group@,
        }
    }
}

/// The zone that a saved form restores to.
pub open spec fn restored_zone(saved: ZoneView) -> ZoneView {
    ZoneView { group: restored_group(saved.group), ..saved }
}

/// The texts of a list of strings.
pub open spec fn texts(v: Seq<String>) -> Seq<Seq<char>> {
    v.map_values(|s: String| s@)
}

/// The group a restored zone lands in: its saved group, or `New Group`
/// when none was saved.
pub open spec fn restored_group(saved: Seq<char>) -> Seq<char> {
    if saved.len() == 0 {
        "New Group"@
    } else {
        saved
    }
}

fn clone_strings(v: &Vec<String>) -> (r: Vec<String>)
    ensures
        texts(r@) == texts(v@),
{
    let mut out: Vec<String> = Vec::new();
    let mut i: usize = 0;
    while i < v.len()
        invariant
            i <= v@.len(),
            out@.len() == i,
            forall|k: int| 0 <= k < i ==> #[trigger] out@[k]@ == v@[k]@,
        decreases v@.len() - i,
    {
        let c = v[i].clone();
        out.push(c);
        i = i + 1;
    }
    assert(texts(out@) =~= texts(v@));
    out
}

impl SampleZone {
    /// The saved form of this zone.
    pub fn to_state(&self) -> (r: SamplerZoneState)
        ensures
            r@ == self@,
    {
        SamplerZoneState {
            name: self.name.clone(),
            files: clone_strings(&self.files),
            start_note: self.start_note,
            end_note: self.end_note,
            vel_low: self.vel_low,
            vel_high: self.vel_high,
            group: self.group.clone(),
        }
    }

    /// The zone a saved form describes; a zone saved without a group lands
    /// in `New Group`.
    pub fn from_state(state: &SamplerZoneState) -> (r: Self)
        ensures
            r@ == restored_zone(state@),
    {
        SampleZone {
            name: state.name.clone(),
            files: clone_strings(&state.files),
            start_note: state.start_note,
            end_note: state.end_note,
            vel_low: state.vel_low,
            vel_high: state.vel_high,
            group: if state.group.as_str().is_empty() {
                "New Group".to_owned()
            } else {
                state.group.clone()
            },
        }
    }
}

/// Saving a zone that has a group name and restoring it gives back the
/// same zone; a zone without one comes back in `New Group`.
pub proof fn law_zone_state_roundtrip(z: ZoneView)
    ensures
        z.group.len() > 0 ==> restored_zone(z) == z,
        z.group.len() == 0 ==> restored_zone(z).group == "New Group"@,
{
}

} // verus!
