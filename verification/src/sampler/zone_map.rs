//! Editing the sampler's zone map: what dragging a zone's edge or body,
//! dropping a file on the map, deleting a selection and renaming a zone do
//! to the zone list, and how the zone list is shown by group.

use vstd::prelude::*;
use crate::common::text::{chars_eq, chars_of};
use crate::sampler::gui::{
    find_vertical_slot, unique_name, unique_zone_name, vertical_slot, zone_name_fits, ZoneEdge,
    ZoneListSelection,
};
use crate::sampler::state::{texts, SampleZone, ZoneView};

verus! {

broadcast use vstd::string::group_string_axioms;

/// The number of notes the zone map spans.
pub const SAMPLE_MAP_NOTES: usize = 128;

/// The views of a zone list.
pub open spec fn zone_views(zones: Seq<SampleZone>) -> Seq<ZoneView> {
    zones.map_values(|z: SampleZone| z@)
}

pub open spec fn min_int(a: int, b: int) -> int {
    if a <= b { a } else { b }
}

pub open spec fn max_int(a: int, b: int) -> int {
    if a >= b { a } else { b }
}

/// Whether a zone's note and velocity ranges run upwards.
pub open spec fn ranges_ordered(z: ZoneView) -> bool {
    z.start_note <= z.end_note && z.vel_low <= z.vel_high
}

// ---------------------------------------------------------------------------
// Edge and body drags
// ---------------------------------------------------------------------------

/// A zone after one of its edges is dragged to `note` / `velocity`: an edge
/// stops at the opposite one.
pub open spec fn dragged_edge(z: ZoneView, edge: ZoneEdge, note: usize, velocity: u8) -> ZoneView {
    match edge {
        ZoneEdge::Start => ZoneView { start_note: min_int(note as int, z.end_note as int) as usize, ..z },
        ZoneEdge::End => ZoneView { end_note: max_int(note as int, z.start_note as int) as usize, ..z },
        ZoneEdge::Top => ZoneView { vel_high: max_int(velocity as int, z.vel_low as int) as u8, ..z },
        ZoneEdge::Bottom => ZoneView { vel_low: min_int(velocity as int, z.vel_high as int) as u8, ..z },
    }
}

proof fn lemma_replace_at(zones: Seq<SampleZone>, index: int, z: SampleZone)
    requires
        0 <= index < zones.len(),
    ensures
        zone_views(zones.remove(index).insert(index, z)) == zone_views(zones).update(index, z@),
{
    assert(zone_views(zones.remove(index).insert(index, z)) =~= zone_views(zones).update(index, z@));
}

/// Drags one edge of the zone at `index` to the hovered note or velocity;
/// says whether there was such a zone.
pub fn drag_zone_edge(zones: &mut Vec<SampleZone>, index: usize, edge: ZoneEdge, note: usize, velocity: u8) -> (changed: bool)
    ensures
        changed == (index < old(zones)@.len()),
        changed ==> zone_views(final(zones)@) == zone_views(old(zones)@).update(
            index as int,
            dragged_edge(old(zones)@[index as int]@, edge, note, velocity),
        ),
        !changed ==> final(zones)@ == old(zones)@,
{
    if index >= zones.len() {
        return false;
    }
    let mut z = zones.remove(index);
    match edge {
        ZoneEdge::Start => {
            z.start_note = if note < z.end_note { note } else { z.end_note };
        },
        ZoneEdge::End => {
            z.end_note = if note > z.start_note { note } else { z.start_note };
        },
        ZoneEdge::Top => {
            z.vel_high = if velocity > z.vel_low { velocity } else { z.vel_low };
        },
        ZoneEdge::Bottom => {
            z.vel_low = if velocity < z.vel_high { velocity } else { z.vel_high };
        },
    }
    proof {
        lemma_replace_at(old(zones)@, index as int, z);
    }
    zones.insert(index, z);
    true
}

/// Dragging an edge never turns a zone's ranges upside down.
pub proof fn law_edge_drag_keeps_ranges_ordered(z: ZoneView, edge: ZoneEdge, note: usize, velocity: u8)
    requires
        ranges_ordered(z),
    ensures
        ranges_ordered(dragged_edge(z, edge, note, velocity)),
{
}

/// A zone moved so that it starts at note `start` and velocity `vel_low`,
/// keeping its width and height, and pushed back inside the map where it
/// would leave it at the top.
pub open spec fn moved_body(z: ZoneView, start: usize, vel_low: u8) -> ZoneView {
    let width = z.end_note - z.start_note;
    let height = z.vel_high - z.vel_low;
    let top = SAMPLE_MAP_NOTES - 1;
    let end = start + width;
    let (s, e) = if end > top { (max_int(top - width, 0), top as int) } else { (start as int, end) };
    let high = min_int(vel_low + height, 255);
    let (lo, hi) = if high > 127 { (max_int(127 - height, 0), 127int) } else { (vel_low as int, high) };
    ZoneView { start_note: s as usize, end_note: e as usize, vel_low: lo as u8, vel_high: hi as u8, ..z }
}

/// Moves the zone at `index` by its body so that it starts at note `start`
/// and velocity `vel_low`; says whether there was such a zone.
pub fn move_zone_body(zones: &mut Vec<SampleZone>, index: usize, start: usize, vel_low: u8) -> (changed: bool)
    requires
        index < old(zones)@.len() ==> ranges_ordered(old(zones)@[index as int]@),
        index < old(zones)@.len() ==> start + (old(zones)@[index as int].end_note
            - old(zones)@[index as int].start_note) <= usize::MAX,
    ensures
        changed == (index < old(zones)@.len()),
        changed ==> zone_views(final(zones)@) == zone_views(old(zones)@).update(
            index as int,
            moved_body(old(zones)@[index as int]@, start, vel_low),
        ),
        !changed ==> final(zones)@ == old(zones)@,
{
    if index >= zones.len() {
        return false;
    }
    let mut z = zones.remove(index);
    let width = z.end_note - z.start_note;
    let height = z.vel_high - z.vel_low;
    let mut new_start = start;
    let mut new_end = start + width;
    if new_end > SAMPLE_MAP_NOTES - 1 {
        new_end = SAMPLE_MAP_NOTES - 1;
        new_start = new_end.saturating_sub(width);
    }
    let mut new_low = vel_low;
    let mut new_high = vel_low.saturating_add(height);
    if new_high > 127 {
        new_high = 127;
        new_low = new_high.saturating_sub(height);
    }
    z.start_note = new_start;
    z.end_note = new_end;
    z.vel_low = new_low;
    z.vel_high = new_high;
    proof {
        lemma_replace_at(old(zones)@, index as int, z);
    }
    zones.insert(index, z);
    true
}

/// A moved zone stays inside the map, and keeps its width and height
/// wherever they fit in the map.
pub proof fn law_body_move_keeps_size(z: ZoneView, start: usize, vel_low: u8)
    requires
        ranges_ordered(z),
        start + (z.end_note - z.start_note) <= usize::MAX,
    ensures
        ranges_ordered(moved_body(z, start, vel_low)),
        moved_body(z, start, vel_low).end_note < SAMPLE_MAP_NOTES,
        moved_body(z, start, vel_low).vel_high <= 127,
        z.end_note - z.start_note < SAMPLE_MAP_NOTES ==> moved_body(z, start, vel_low).end_note
            - moved_body(z, start, vel_low).start_note == z.end_note - z.start_note,
        z.vel_high - z.vel_low <= 127 ==> moved_body(z, start, vel_low).vel_high
            - moved_body(z, start, vel_low).vel_low == z.vel_high - z.vel_low,
{
}

// ---------------------------------------------------------------------------
// Renaming
// ---------------------------------------------------------------------------

/// Gives the zone at `index` a new name; says whether there was such a zone.
pub fn rename_zone(zones: &mut Vec<SampleZone>, index: usize, name: String) -> (changed: bool)
    ensures
        changed == (index < old(zones)@.len()),
        changed ==> zone_views(final(zones)@) == zone_views(old(zones)@).update(
            index as int,
            ZoneView { name: name@, ..old(zones)@[index as int]@ },
        ),
        !changed ==> final(zones)@ == old(zones)@,
{
    if index >= zones.len() {
        return false;
    }
    let mut z = zones.remove(index);
    z.name = name;
    proof {
        lemma_replace_at(old(zones)@, index as int, z);
    }
    zones.insert(index, z);
    true
}

// ---------------------------------------------------------------------------
// Dropping a file on the map
// ---------------------------------------------------------------------------

/// Whether a zone covers a note and velocity.
pub open spec fn covers(z: ZoneView, note: usize, velocity: u8) -> bool {
    z.start_note <= note <= z.end_note && z.vel_low <= velocity <= z.vel_high
}

/// The position of the first zone from `i` on that covers a note and
/// velocity, or -1.
pub open spec fn first_cover_from(zs: Seq<ZoneView>, note: usize, velocity: u8, i: int) -> int
    decreases zs.len() - i,
{
    if i < 0 || i >= zs.len() {
        -1
    } else if covers(zs[i], note, velocity) {
        i
    } else {
        first_cover_from(zs, note, velocity, i + 1)
    }
}

/// The position of the first zone that covers a note and velocity, or -1.
pub open spec fn first_cover(zs: Seq<ZoneView>, note: usize, velocity: u8) -> int {
    first_cover_from(zs, note, velocity, 0)
}

proof fn lemma_first_cover_from(zs: Seq<ZoneView>, note: usize, velocity: u8, i: int)
    requires
        0 <= i,
    ensures
        -1 <= first_cover_from(zs, note, velocity, i) < zs.len(),
        first_cover_from(zs, note, velocity, i) >= 0 ==> i <= first_cover_from(zs, note, velocity, i)
            && covers(zs[first_cover_from(zs, note, velocity, i)], note, velocity),
        first_cover_from(zs, note, velocity, i) < 0 ==> forall|k: int|
            i <= k < zs.len() ==> !covers(#[trigger] zs[k], note, velocity),
    decreases zs.len() - i,
{
    if i < zs.len() && !covers(zs[i], note, velocity) {
        lemma_first_cover_from(zs, note, velocity, i + 1);
    }
}

/// The width in notes of a zone made by a drop: the width the drag height
/// gave, within one note and the whole map, or one note.
pub open spec fn drop_width(width: Option<usize>) -> int {
    match width {
        Some(w) => if w < 1 { 1 } else if w > SAMPLE_MAP_NOTES { SAMPLE_MAP_NOTES as int } else { w as int },
        None => 1,
    }
}

/// The note range of a zone made by a drop: `w` notes centred on `note`,
/// moved back inside the map at either end.
pub open spec fn drop_range(note: usize, w: int) -> (int, int) {
    let half = w / 2;
    let s0 = if note >= half { note - half } else { 0 };
    let e = min_int(s0 + w - 1, SAMPLE_MAP_NOTES - 1);
    let s = if e >= w - 1 { e - (w - 1) } else { 0 };
    (s, e)
}

/// The group a new zone joins: that of the last zone, unless it has none.
pub open spec fn new_zone_group(zones: Seq<SampleZone>) -> Seq<char> {
    if zones.len() > 0 && zones.last().group@.len() > 0 {
        zones.last().group@
    } else {
        "New Group"@
    }
}

/// The zone a drop on an empty spot makes.
pub open spec fn dropped_zone(zones: Seq<SampleZone>, file: Seq<char>, note: usize, velocity: u8, width: Option<usize>) -> ZoneView {
    let (s, e) = drop_range(note, drop_width(width));
    let (lo, hi) = vertical_slot(zones, s as usize, e as usize, velocity);
    ZoneView {
        name: unique_name(zones, "New Zone"@),
        files: seq![file],
        start_note: s as usize,
        end_note: e as usize,
        vel_low: lo,
        vel_high: hi,
        group: new_zone_group(zones),
    }
}

/// Drops an audio file on the map at a note and velocity: the first zone
/// that covers that spot gets the file, else a new zone is made there,
/// `width` notes wide (the width the drag height gave, if any), at a free
/// velocity slot, named after `New Zone` and in the group of the last zone.
pub fn drop_file_on_map(zones: &mut Vec<SampleZone>, file: String, note: usize, velocity: u8, width: Option<usize>)
    requires
        zone_name_fits(old(zones)@, "New Zone"@),
        note + SAMPLE_MAP_NOTES <= usize::MAX,
    ensures
        ({
            let i = first_cover(zone_views(old(zones)@), note, velocity);
            &&& i >= 0 ==> zone_views(final(zones)@) == zone_views(old(zones)@).update(
                i,
                ZoneView { files: old(zones)@[i]@.files.push(file@), ..old(zones)@[i]@ },
            )
            &&& i < 0 ==> zone_views(final(zones)@) == zone_views(old(zones)@).push(
                dropped_zone(old(zones)@, file@, note, velocity, width),
            )
        }),
{
    let ghost views = zone_views(zones@);
    proof {
        lemma_first_cover_from(views, note, velocity, 0);
    }
    let mut i: usize = 0;
    while i < zones.len()
        invariant
            i <= zones@.len(),
            zones@ == old(zones)@,
            views == zone_views(zones@),
            first_cover(views, note, velocity) == first_cover_from(views, note, velocity, i as int),
        decreases zones@.len() - i,
    {
        let z = &zones[i];
        if z.start_note <= note && note <= z.end_note && z.vel_low <= velocity && velocity <= z.vel_high {
            let mut hit = zones.remove(i);
            let ghost before = hit@;
            hit.files.push(file);
            assert(texts(hit.files@) =~= before.files.push(file@));
            proof {
                lemma_replace_at(old(zones)@, i as int, hit);
            }
            zones.insert(i, hit);
            return;
        }
        i = i + 1;
    }
    let name = unique_zone_name(zones.as_slice(), "New Zone");
    let w: usize = match width {
        Some(w) => if w < 1 { 1 } else if w > SAMPLE_MAP_NOTES { SAMPLE_MAP_NOTES } else { w },
        None => 1,
    };
    let half = w / 2;
    let s0 = note.saturating_sub(half);
    let e = if s0 + w - 1 < SAMPLE_MAP_NOTES - 1 { s0 + w - 1 } else { SAMPLE_MAP_NOTES - 1 };
    let s = e.saturating_sub(w - 1);
    let (lo, hi) = find_vertical_slot(zones.as_slice(), s, e, velocity);
    let n = zones.len();
    let group = if n > 0 && !zones[n - 1].group.as_str().is_empty() {
        zones[n - 1].group.clone()
    } else {
        "New Group".to_owned()
    };
    let mut files: Vec<String> = Vec::new();
    files.push(file);
    let z = SampleZone { name, files, start_note: s, end_note: e, vel_low: lo, vel_high: hi, group };
    assert(texts(z.files@) =~= seq![file@]);
    zones.push(z);
    assert(zone_views(zones@) =~= views.push(z@));
}

/// A zone made by a drop covers the note it was dropped on, and lies
/// inside the map.
pub proof fn law_dropped_zone_covers_note(note: usize, width: Option<usize>)
    requires
        note < SAMPLE_MAP_NOTES,
    ensures
        ({
            let (s, e) = drop_range(note, drop_width(width));
            0 <= s <= note <= e < SAMPLE_MAP_NOTES
        }),
{
}

// ---------------------------------------------------------------------------
// Deleting a selection
// ---------------------------------------------------------------------------

/// A zone list without the zones of one group.
pub open spec fn without_group(zs: Seq<ZoneView>, group: Seq<char>) -> Seq<ZoneView>
    decreases zs.len(),
{
    if zs.len() == 0 {
        zs
    } else {
        let rest = without_group(zs.drop_last(), group);
        if zs.last().group == group {
            rest
        } else {
            rest.push(zs.last())
        }
    }
}

/// Deletes what is selected in the zone list: one zone by position (if
/// there is one there), or every zone of a group.
pub fn delete_selection(zones: &mut Vec<SampleZone>, selection: &ZoneListSelection)
    ensures
        match selection {
            ZoneListSelection::Zone(index) => if *index < old(zones)@.len() {
                zone_views(final(zones)@) == zone_views(old(zones)@).remove(*index as int)
            } else {
                final(zones)@ == old(zones)@
            },
            ZoneListSelection::Group(name) => zone_views(final(zones)@) == without_group(
                zone_views(old(zones)@),
                name@,
            ),
        },
{
    match selection {
        ZoneListSelection::Zone(index) => {
            if *index < zones.len() {
                zones.remove(*index);
                assert(zone_views(zones@) =~= zone_views(old(zones)@).remove(*index as int));
            }
        },
        ZoneListSelection::Group(name) => {
            let mut rest: Vec<SampleZone> = Vec::new();
            std::mem::swap(zones, &mut rest);
            let ghost all = zone_views(rest@);
            let name_chars = chars_of(name.as_str());
            let total = rest.len();
            let mut k: usize = 0;
            while rest.len() > 0
                invariant
                    k + rest@.len() == all.len() == total,
                    zone_views(rest@) == all.skip(k as int),
                    zone_views(zones@) == without_group(all.take(k as int), name@),
                    name_chars@ == name@,
                decreases rest@.len(),
            {
                let ghost rest_before = rest@;
                let z = rest.remove(0);
                assert(all[k as int] == z@) by {
                    assert(zone_views(rest_before)[0] == z@);
                }
                assert(all.take(k + 1).drop_last() =~= all.take(k as int));
                let g = chars_of(z.group.as_str());
                if chars_eq(g.as_slice(), name_chars.as_slice()) {
                } else {
                    let ghost zs_before = zones@;
                    zones.push(z);
                    assert(zone_views(zones@) =~= zone_views(zs_before).push(all[k as int]));
                }
                assert(zone_views(rest@) =~= all.skip(k + 1)) by {
                    assert(rest@ =~= rest_before.skip(1));
                    assert(zone_views(rest_before.skip(1)) =~= zone_views(rest_before).skip(1));
                    assert(all.skip(k as int).skip(1) =~= all.skip(k + 1));
                }
                k = k + 1;
            }
            assert(all.take(k as int) =~= all);
        },
    }
}

// ---------------------------------------------------------------------------
// The zone list by group
// ---------------------------------------------------------------------------

/// The position of the first listed group with a name, or -1.
pub open spec fn group_position(gs: Seq<(Seq<char>, Seq<int>)>, name: Seq<char>) -> int
    decreases gs.len(),
{
    if gs.len() == 0 {
        -1
    } else if group_position(gs.drop_last(), name) >= 0 {
        group_position(gs.drop_last(), name)
    } else if gs.last().0 == name {
        gs.len() - 1
    } else {
        -1
    }
}

/// The groups with zone `i` of group `name` added: to that group's zones
/// when it is listed, else as a new group at the end.
pub open spec fn add_to_group(gs: Seq<(Seq<char>, Seq<int>)>, name: Seq<char>, i: int) -> Seq<(Seq<char>, Seq<int>)> {
    let k = group_position(gs, name);
    if k >= 0 {
        gs.update(k, (name, gs[k].1.push(i)))
    } else {
        gs.push((name, seq![i]))
    }
}

/// The zone list as the zones panel shows it: the groups in the order
/// their first zone comes, each with the positions of its zones in order.
pub open spec fn zone_groups(zones: Seq<ZoneView>) -> Seq<(Seq<char>, Seq<int>)>
    decreases zones.len(),
{
    if zones.len() == 0 {
        Seq::empty()
    } else {
        add_to_group(zone_groups(zones.drop_last()), zones.last().group, zones.len() - 1)
    }
}

/// The view of a grouped zone list.
pub open spec fn groups_view(gs: Seq<(String, Vec<usize>)>) -> Seq<(Seq<char>, Seq<int>)> {
    gs.map_values(|g: (String, Vec<usize>)| (g.0@, g.1@.map_values(|i: usize| i as int)))
}

proof fn lemma_group_position(gs: Seq<(Seq<char>, Seq<int>)>, name: Seq<char>)
    ensures
        -1 <= group_position(gs, name) < gs.len(),
        group_position(gs, name) >= 0 ==> gs[group_position(gs, name)].0 == name,
        group_position(gs, name) >= 0 ==> forall|k: int| 0 <= k < group_position(gs, name) ==> #[trigger] gs[k].0 != name,
        group_position(gs, name) < 0 ==> forall|k: int| 0 <= k < gs.len() ==> #[trigger] gs[k].0 != name,
    decreases gs.len(),
{
    if gs.len() > 0 {
        let d = gs.drop_last();
        lemma_group_position(d, name);
        assert forall|k: int| 0 <= k < d.len() implies #[trigger] gs[k] == d[k] by {}
        assert(gs.last() == gs[gs.len() - 1]);
    }
}

/// Lists the zones by group, in the order each group's first zone comes.
pub fn group_zone_list(zones: &[SampleZone]) -> (r: Vec<(String, Vec<usize>)>)
    ensures
        groups_view(r@) == zone_groups(zone_views(zones@)),
{
    let mut groups: Vec<(String, Vec<usize>)> = Vec::new();
    let mut i: usize = 0;
    while i < zones.len()
        invariant
            i <= zones@.len(),
            groups_view(groups@) == zone_groups(zone_views(zones@.take(i as int))),
        decreases zones@.len() - i,
    {
        let ghost gv = groups_view(groups@);
        let ghost prefix = zone_views(zones@.take(i + 1));
        assert(prefix.drop_last() =~= zone_views(zones@.take(i as int)));
        assert(prefix.last() == zones@[i as int]@);
        let name = chars_of(zones[i].group.as_str());
        proof {
            lemma_group_position(gv, name@);
        }
        let mut k: usize = 0;
        let mut found = false;
        while !found && k < groups.len()
            invariant
                k <= groups@.len(),
                gv == groups_view(groups@),
                gv.len() == groups@.len(),
                name@ == zones@[i as int].group@,
                found ==> k < groups@.len() && gv[k as int].0 == name@,
                forall|j: int| 0 <= j < k ==> #[trigger] gv[j].0 != name@,
            decreases groups@.len() - k + (if found { 0int } else { 1int }),
        {
            let g = chars_of(groups[k].0.as_str());
            if chars_eq(g.as_slice(), name.as_slice()) {
                assert(gv[k as int].0 == name@);
                found = true;
            } else {
                k = k + 1;
            }
        }
        if found {
            assert(group_position(gv, name@) == k as int);
            let mut entry = groups.remove(k);
            let ghost before = entry.1@;
            entry.1.push(i);
            assert(entry.1@.map_values(|x: usize| x as int) =~= before.map_values(|x: usize| x as int).push(i as int));
            let ghost removed = groups@;
            groups.insert(k, entry);
            assert(groups_view(groups@) =~= gv.update(k as int, (name@, gv[k as int].1.push(i as int))));
        } else {
            assert(group_position(gv, name@) < 0);
            let mut members: Vec<usize> = Vec::new();
            members.push(i);
            let group_name = zones[i].group.clone();
            let ghost before = groups@;
            groups.push((group_name, members));
            assert(members@.map_values(|x: usize| x as int) =~= seq![i as int]) by {
                assert(groups@.last().1@ == seq![i]);
            }
            assert(groups_view(groups@) =~= gv.push((name@, seq![i as int])));
        }
        i = i + 1;
    }
    assert(zones@.take(zones@.len() as int) =~= zones@);
    groups
}

/// In the grouped zone list each group is listed once, and every zone is
/// listed under its own group.
pub proof fn law_zone_groups_cover(zones: Seq<ZoneView>)
    ensures
        forall|a: int, b: int|
            0 <= a < b < zone_groups(zones).len() ==> #[trigger] zone_groups(zones)[a].0 != #[trigger] zone_groups(
                zones,
            )[b].0,
        forall|i: int|
            0 <= i < zones.len() ==> exists|k: int|
                0 <= k < zone_groups(zones).len() && zone_groups(zones)[k].0 == #[trigger] zones[i].group
                    && zone_groups(zones)[k].1.contains(i),
    decreases zones.len(),
{
    if zones.len() > 0 {
        let d = zones.drop_last();
        let g = zone_groups(d);
        let name = zones.last().group;
        let n = zones.len() - 1;
        law_zone_groups_cover(d);
        lemma_group_position(g, name);
        let g2 = zone_groups(zones);
        assert(g2 == add_to_group(g, name, n));
        let p = group_position(g, name);
        assert forall|a: int, b: int| 0 <= a < b < g2.len() implies #[trigger] g2[a].0 != #[trigger] g2[b].0 by {
            if p >= 0 {
                assert(g2[a].0 == g[a].0 && g2[b].0 == g[b].0);
            } else if b < g.len() {
                assert(g2[a] == g[a] && g2[b] == g[b]);
            } else {
                assert(g2[a] == g[a]);
                assert(g2[b].0 == name);
            }
        }
        assert forall|i: int| 0 <= i < zones.len() implies exists|k: int|
            0 <= k < g2.len() && g2[k].0 == #[trigger] zones[i].group && g2[k].1.contains(i) by {
            if i < n {
                assert(zones[i] == d[i]);
                let k = choose|k: int| 0 <= k < g.len() && g[k].0 == #[trigger] d[i].group && g[k].1.contains(i);
                if p >= 0 && k == p {
                    assert(g2[k].1 == g[k].1.push(n));
                    assert(g2[k].1.contains(i)) by {
                        let j = choose|j: int| 0 <= j < g[k].1.len() && g[k].1[j] == i;
                        assert(g2[k].1[j] == i);
                    }
                } else {
                    assert(g2[k] == g[k]);
                }
                assert(g2[k].0 == zones[i].group);
            } else {
                assert(zones[i] == zones.last());
                if p >= 0 {
                    assert(g2[p].1 == g[p].1.push(n));
                    assert(g2[p].1[g[p].1.len() as int] == n);
                    assert(g2[p].0 == zones[i].group);
                } else {
                    let last = g2.len() - 1;
                    assert(g2[last] == (name, seq![n]));
                    assert(g2[last].1[0] == n);
                    assert(g2[last].0 == zones[i].group);
                }
            }
        }
    }
}

} // verus!
