//! How the presets of a SoundFont 2 file become groups and zones: which
//! preset and instrument zones count, the generators each zone ends up
//! with, and the sample window and loop of each zone.

use std::collections::HashMap;
use vstd::prelude::*;
use crate::sampler::dsp::sf2::{
    combined, range_of, sample_is_right_linked, value_or, Bag, GeneratorSet, Generator, Instrument, Pdta,
    SampleHeader, GEN_END_ADDRS_COARSE_OFFSET, GEN_END_ADDRS_OFFSET, GEN_END_LOOP_ADDRS_COARSE_OFFSET,
    GEN_END_LOOP_ADDRS_OFFSET, GEN_EXCLUSIVE_CLASS, GEN_INSTRUMENT, GEN_KEY_RANGE,
    GEN_OVERRIDING_ROOT_KEY, GEN_SAMPLE_ID, GEN_SAMPLE_MODES, GEN_START_ADDRS_COARSE_OFFSET,
    GEN_START_ADDRS_OFFSET, GEN_START_LOOP_ADDRS_COARSE_OFFSET, GEN_START_LOOP_ADDRS_OFFSET,
    GEN_VEL_RANGE, SF2_SAMPLE_TYPE_LEFT, SF2_SAMPLE_TYPE_RIGHT,
};
use crate::sampler::dsp::zone::LoopMode;
use crate::sampler::dsp::mod_matrix::{ModSource, ModTarget};
use crate::sampler::dsp::sf2::{
    mod_source_of, parse_mod_source, parse_mod_target, Modulator, GEN_INITIAL_ATTENUATION,
    GEN_INITIAL_FILTER_FC, GEN_MOD_ENV_TO_FILTER_FC, GEN_MOD_ENV_TO_PITCH, GEN_MOD_LFO_TO_FILTER_FC,
    GEN_MOD_LFO_TO_PITCH, GEN_MOD_LFO_TO_VOLUME, GEN_PAN, GEN_VIB_LFO_TO_PITCH,
};

verus! {

broadcast use vstd::std_specs::hash::group_hash_axioms;

// ---------------------------------------------------------------------------
// Generators of one zone
// ---------------------------------------------------------------------------

/// The generators of `gens[from..to]`, a later one of the same operator
/// replacing an earlier one.
pub open spec fn gens_in(gens: Seq<Generator>, from: int, to: int) -> Map<u16, i16>
    decreases to - from,
{
    if to <= from {
        Map::empty()
    } else {
        gens_in(gens, from, to - 1).insert(gens[to - 1].op, gens[to - 1].amount)
    }
}

/// Where the generators of bag `b` end: where the next bag's start, or the
/// end of the list, capped at the list's length.
pub open spec fn gen_end(bags: Seq<Bag>, gens_len: int, b: int) -> int {
    let next = if b + 1 < bags.len() {
        bags[b + 1].gen_ndx as int
    } else {
        gens_len
    };
    if next < gens_len {
        next
    } else {
        gens_len
    }
}

/// The generators of a zone.
pub fn collect_gens(gens: &[Generator], from: usize, to: usize) -> (r: HashMap<u16, i16>)
    requires
        to <= gens@.len(),
    ensures
        r@ == gens_in(gens@, from as int, to as int),
{
    let mut m: HashMap<u16, i16> = HashMap::new();
    if to <= from {
        assert(m@ =~= gens_in(gens@, from as int, to as int));
        return m;
    }
    let mut i = from;
    assert(m@ =~= gens_in(gens@, from as int, from as int));
    while i < to
        invariant
            from <= i <= to <= gens@.len(),
            m@ == gens_in(gens@, from as int, i as int),
        decreases to - i,
    {
        m.insert(gens[i].op, gens[i].amount);
        i = i + 1;
    }
    m
}

// ---------------------------------------------------------------------------
// One zone
// ---------------------------------------------------------------------------

/// A zone as values: the sample, its window and loop in frames of that
/// sample, the key and velocity ranges, root key and loop mode, the merged
/// generators, and the range of the zone's modulators.
pub ghost struct ZoneView {
    pub sample_id: int,
    pub start: int,
    pub end: int,
    pub loop_start: Option<int>,
    pub loop_end: Option<int>,
    pub key: (u8, u8),
    pub vel: (u8, u8),
    pub root_key: u8,
    pub loop_mode: LoopMode,
    pub gens: Map<u16, i16>,
    pub mods: (int, int),
}

/// An `i32` result clamped to the type's range.
pub open spec fn sat_i32(v: int) -> int {
    if v > i32::MAX {
        i32::MAX as int
    } else if v < i32::MIN {
        i32::MIN as int
    } else {
        v
    }
}

pub open spec fn fits_i32(v: int) -> bool {
    i32::MIN <= v <= i32::MAX
}

pub open spec fn offset_of(g: Map<u16, i16>, fine: u16, coarse: u16) -> int {
    value_or(g, fine, 0) + 32768 * value_or(g, coarse, 0)
}

/// The loop mode that `sampleModes` selects: 1 and 3 loop, others do not.
pub open spec fn loop_mode_of_modes(m: i16) -> LoopMode {
    if m == 1 || m == 3 {
        LoopMode::DuringVoice
    } else {
        LoopMode::Off
    }
}

pub open spec fn right_linked(h: SampleHeader, hdrs: Seq<SampleHeader>) -> bool {
    h.sample_type == SF2_SAMPLE_TYPE_RIGHT && h.sample_link < hdrs.len()
        && hdrs[h.sample_link as int].sample_type == SF2_SAMPLE_TYPE_LEFT
}

/// Where the modulators of instrument bag `b` end.
pub open spec fn mod_end(bags: Seq<Bag>, mods_len: int, b: int) -> int {
    let next = if b + 1 < bags.len() {
        bags[b + 1].mod_ndx as int
    } else {
        mods_len
    };
    if next < mods_len {
        next
    } else {
        mods_len
    }
}

/// The zone that instrument bag `b` with merged generators `c` makes:
/// `Some(None)` when the zone names no usable sample (none, out of range, or
/// the right half of a stereo pair), `None` where reading the file fails
/// (an address or frame count that leaves `i32`, or a modulator range that
/// runs backwards).
pub open spec fn zone_for(pd: Pdta, frames: Seq<usize>, c: Map<u16, i16>, b: int) -> Option<Option<ZoneView>> {
    let hdrs = pd.sample_headers@;
    if !c.contains_key(GEN_SAMPLE_ID) {
        Some(None)
    } else {
        let v = c[GEN_SAMPLE_ID] as int;
        if v < 0 || v >= frames.len() || v >= hdrs.len() {
            Some(None)
        } else if right_linked(hdrs[v], hdrs) {
            Some(None)
        } else {
            let h = hdrs[v];
            let s32 = (h.start as i32) as int;
            let ps = s32 + offset_of(c, GEN_START_ADDRS_OFFSET, GEN_START_ADDRS_COARSE_OFFSET);
            let pe = (h.end as i32) as int + offset_of(c, GEN_END_ADDRS_OFFSET, GEN_END_ADDRS_COARSE_OFFSET);
            let pls = (h.start_loop as i32) as int + offset_of(
                c,
                GEN_START_LOOP_ADDRS_OFFSET,
                GEN_START_LOOP_ADDRS_COARSE_OFFSET,
            );
            let ple = (h.end_loop as i32) as int + offset_of(
                c,
                GEN_END_LOOP_ADDRS_OFFSET,
                GEN_END_LOOP_ADDRS_COARSE_OFFSET,
            );
            let fr = (frames[v] as i32) as int;
            let bags = pd.inst_bags@;
            let mlo = bags[b].mod_ndx as int;
            let mhi = mod_end(bags, pd.inst_mods@.len() as int, b);
            if !(fits_i32(ps) && fits_i32(pe) && fits_i32(pls) && fits_i32(ple)) || fr < 0 || mlo > mhi {
                None
            } else {
                let ls = if sat_i32(ps - s32) > 0 { sat_i32(ps - s32) } else { 0 };
                let le0 = sat_i32(pe - s32);
                let le = if le0 < 0 { 0 } else if le0 > fr { fr } else { le0 };
                let lls = if sat_i32(pls - s32) > 0 { sat_i32(pls - s32) } else { 0 };
                let lle = if sat_i32(ple - s32) > 0 { sat_i32(ple - s32) } else { 0 };
                Some(
                    Some(
                        ZoneView {
                            sample_id: v,
                            start: ls,
                            end: le,
                            loop_start: if lls < lle && lls < le {
                                Some(lls)
                            } else {
                                None
                            },
                            loop_end: if lle > lls && lle <= le {
                                Some(lle)
                            } else {
                                None
                            },
                            key: range_of(c, GEN_KEY_RANGE),
                            vel: range_of(c, GEN_VEL_RANGE),
                            root_key: if c.contains_key(GEN_OVERRIDING_ROOT_KEY) && 0 <= c[GEN_OVERRIDING_ROOT_KEY]
                                <= 127 {
                                c[GEN_OVERRIDING_ROOT_KEY] as u8
                            } else {
                                h.original_key
                            },
                            loop_mode: loop_mode_of_modes(value_or(c, GEN_SAMPLE_MODES, 0)),
                            gens: c,
                            mods: (mlo, mhi),
                        },
                    ),
                )
            }
        }
    }
}

/// A zone plays inside its sample: the window starts at or after the first
/// frame and ends at or before the last, and a loop bound that is kept lies
/// inside the window, the loop start before the loop end.
pub proof fn law_zone_window_in_sample(pd: Pdta, frames: Seq<usize>, c: Map<u16, i16>, b: int)
    requires
        zone_for(pd, frames, c, b) matches Some(Some(_)),
    ensures
        ({
            let z = zone_for(pd, frames, c, b)->Some_0->Some_0;
            &&& 0 <= z.sample_id < frames.len()
            &&& 0 <= z.start
            &&& 0 <= z.end <= frames[z.sample_id]
            &&& z.loop_start matches Some(ls) ==> 0 <= ls < z.end
            &&& z.loop_end matches Some(le) ==> 0 < le <= z.end
            &&& z.loop_start matches Some(ls) ==> (z.loop_end matches Some(le) ==> ls < le)
        }),
{
}

/// A zone ready to be built: see `ZoneView`.
pub struct ZonePlan {
    pub sample_id: usize,
    pub start: usize,
    pub end: usize,
    pub loop_start: Option<usize>,
    pub loop_end: Option<usize>,
    pub key_low: u8,
    pub key_high: u8,
    pub vel_low: u8,
    pub vel_high: u8,
    pub root_key: u8,
    pub loop_mode: LoopMode,
    pub generators: GeneratorSet,
    pub mod_start: usize,
    pub mod_end: usize,
}

pub open spec fn opt_int(o: Option<usize>) -> Option<int> {
    match o {
        Some(x) => Some(x as int),
        None => None,
    }
}

impl View for ZonePlan {
    type V = ZoneView;

    open spec fn view(&self) -> ZoneView {
        ZoneView {
            sample_id: self.sample_id as int,
            start: self.start as int,
            end: self.end as int,
            loop_start: opt_int(self.loop_start),
            loop_end: opt_int(self.loop_end),
            key: (self.key_low, self.key_high),
            vel: (self.vel_low, self.vel_high),
            root_key: self.root_key,
            loop_mode: self.loop_mode,
            gens: self.generators@,
            mods: (self.mod_start as int, self.mod_end as int),
        }
    }
}

fn sat_sub_i32(a: i32, b: i32) -> (r: i32)
    ensures
        r == sat_i32(a - b),
{
    let d = a as i64 - b as i64;
    if d > i32::MAX as i64 {
        i32::MAX
    } else if d < i32::MIN as i64 {
        i32::MIN
    } else {
        d as i32
    }
}

fn add_i32(a: i32, b: i32) -> (r: Option<i32>)
    ensures
        match r {
            Some(v) => fits_i32(a + b) && v == a + b,
            None => !fits_i32(a + b),
        },
{
    let s = a as i64 + b as i64;
    if s > i32::MAX as i64 || s < i32::MIN as i64 {
        None
    } else {
        Some(s as i32)
    }
}

/// The zone that instrument bag `b` makes from merged generators `c`.
pub fn plan_zone(pd: &Pdta, frames: &[usize], c: GeneratorSet, b: usize) -> (r: Option<Option<ZonePlan>>)
    requires
        b < pd.inst_bags@.len(),
    ensures
        match zone_for(*pd, frames@, c@, b as int) {
            None => r is None,
            Some(None) => r matches Some(None),
            Some(Some(z)) => r matches Some(Some(p)) && p@ == z,
        },
{
    let hdrs = &pd.sample_headers;
    let v = match c.get(GEN_SAMPLE_ID) {
        Some(v) => v,
        None => return Some(None),
    };
    if v < 0 || v as usize >= frames.len() || v as usize >= hdrs.len() {
        return Some(None);
    }
    let sid = v as usize;
    if sample_is_right_linked(&hdrs[sid], hdrs.as_slice()) {
        return Some(None);
    }
    let h = &hdrs[sid];
    let s32 = #[verifier::truncate] (h.start as i32);
    let ps = match add_i32(s32, c.start_offset()) {
        Some(x) => x,
        None => return None,
    };
    let pe = match add_i32(#[verifier::truncate] (h.end as i32), c.end_offset()) {
        Some(x) => x,
        None => return None,
    };
    let pls = match add_i32(#[verifier::truncate] (h.start_loop as i32), c.start_loop_offset()) {
        Some(x) => x,
        None => return None,
    };
    let ple = match add_i32(#[verifier::truncate] (h.end_loop as i32), c.end_loop_offset()) {
        Some(x) => x,
        None => return None,
    };
    let fr = #[verifier::truncate] (frames[sid] as i32);
    if fr < 0 {
        return None;
    }
    let bags = &pd.inst_bags;
    let mlo = bags[b].mod_ndx as usize;
    let next_mod = if b < bags.len() - 1 {
        bags[b + 1].mod_ndx as usize
    } else {
        pd.inst_mods.len()
    };
    let mhi = if next_mod < pd.inst_mods.len() {
        next_mod
    } else {
        pd.inst_mods.len()
    };
    if mlo > mhi {
        return None;
    }
    let d_start = sat_sub_i32(ps, s32);
    let ls: i32 = if d_start > 0 { d_start } else { 0 };
    let le0 = sat_sub_i32(pe, s32);
    let le: i32 = if le0 < 0 {
        0
    } else if le0 > fr {
        fr
    } else {
        le0
    };
    let d_ls = sat_sub_i32(pls, s32);
    let lls: i32 = if d_ls > 0 { d_ls } else { 0 };
    let d_le = sat_sub_i32(ple, s32);
    let lle: i32 = if d_le > 0 { d_le } else { 0 };
    let loop_start = if lls < lle && lls < le {
        Some(lls as usize)
    } else {
        None
    };
    let loop_end = if lle > lls && lle <= le {
        Some(lle as usize)
    } else {
        None
    };
    let (key_low, key_high) = c.key_range();
    let (vel_low, vel_high) = c.vel_range();
    let root_key = match c.root_key() {
        Some(k) => k,
        None => h.original_key,
    };
    let modes = match c.get(GEN_SAMPLE_MODES) {
        Some(m) => m,
        None => 0,
    };
    let loop_mode = if modes == 1 || modes == 3 {
        LoopMode::DuringVoice
    } else {
        LoopMode::Off
    };
    Some(
        Some(
            ZonePlan {
                sample_id: sid,
                start: ls as usize,
                end: le as usize,
                loop_start,
                loop_end,
                key_low,
                key_high,
                vel_low,
                vel_high,
                root_key,
                loop_mode,
                generators: c,
                mod_start: mlo,
                mod_end: mhi,
            },
        ),
    )
}


// ---------------------------------------------------------------------------
// One instrument
// ---------------------------------------------------------------------------

/// The bag index of the first instrument, from `j` on in list order, whose
/// bag index is above `x`; the number of instrument bags when there is none.
pub open spec fn next_inst_bag(insts: Seq<Instrument>, j: int, x: u16, nbags: int) -> int
    decreases insts.len() - j,
{
    if j < 0 || j >= insts.len() {
        nbags
    } else if insts[j].inst_bag_ndx > x {
        insts[j].inst_bag_ndx as int
    } else {
        next_inst_bag(insts, j + 1, x, nbags)
    }
}

/// The walk over instrument bags `b..end` under preset generators `preset`:
/// the first bag, when it names no sample, is the instrument's global zone;
/// every other bag merges the global zone with its own generators, then
/// with the preset's, and adds its zone when it makes one. Gives the zones
/// and the exclusive class of the last zone added, or `None` where reading
/// fails.
pub open spec fn inst_walk(
    pd: Pdta,
    frames: Seq<usize>,
    preset: Map<u16, i16>,
    start: int,
    b: int,
    end: int,
    global: Map<u16, i16>,
    zones: Seq<ZoneView>,
    excl: u8,
) -> Option<(Seq<ZoneView>, u8)>
    decreases end - b,
{
    if b >= end {
        Some((zones, excl))
    } else if b < 0 || b >= pd.inst_bags@.len() {
        None
    } else {
        let bags = pd.inst_bags@;
        let gens = pd.inst_gens@;
        let region = gens_in(gens, bags[b].gen_ndx as int, gen_end(bags, gens.len() as int, b));
        if b == start && !region.contains_key(GEN_SAMPLE_ID) {
            inst_walk(pd, frames, preset, start, b + 1, end, region, zones, excl)
        } else {
            let c = combined(global.union_prefer_right(region), preset);
            match zone_for(pd, frames, c, b) {
                None => None,
                Some(None) => inst_walk(pd, frames, preset, start, b + 1, end, global, zones, excl),
                Some(Some(z)) => inst_walk(
                    pd,
                    frames,
                    preset,
                    start,
                    b + 1,
                    end,
                    global,
                    zones.push(z),
                    value_or(c, GEN_EXCLUSIVE_CLASS, 0) as u8,
                ),
            }
        }
    }
}

/// A group as values: the instrument's name, the exclusive class, the zones.
pub ghost struct GroupView {
    pub name: Seq<char>,
    pub exclusive: u8,
    pub zones: Seq<ZoneView>,
}

/// The group that instrument `i` makes under preset generators `preset`.
pub open spec fn group_for(pd: Pdta, frames: Seq<usize>, i: int, preset: Map<u16, i16>) -> Option<GroupView> {
    let inst = pd.instruments@[i];
    let start = inst.inst_bag_ndx as int;
    let end = next_inst_bag(pd.instruments@, 0, inst.inst_bag_ndx, pd.inst_bags@.len() as int);
    match inst_walk(pd, frames, preset, start, start, end, Map::empty(), Seq::empty(), 0) {
        Some((zones, excl)) => Some(GroupView { name: inst.name@, exclusive: excl, zones }),
        None => None,
    }
}

/// A group ready to be built: see `GroupView`.
pub struct GroupPlan {
    pub name: String,
    pub exclusive_group: u8,
    pub zones: Vec<ZonePlan>,
}

pub open spec fn zone_views(v: Seq<ZonePlan>) -> Seq<ZoneView> {
    v.map_values(|z: ZonePlan| z@)
}

impl View for GroupPlan {
    type V = GroupView;

    open spec fn view(&self) -> GroupView {
        GroupView { name: self.name@, exclusive: self.exclusive_group, zones: zone_views(self.zones@) }
    }
}

fn next_instrument_bag(insts: &Vec<Instrument>, x: u16, nbags: usize) -> (r: usize)
    ensures
        r == next_inst_bag(insts@, 0, x, nbags as int),
{
    let mut j: usize = 0;
    while j < insts.len()
        invariant
            j <= insts@.len(),
            next_inst_bag(insts@, 0, x, nbags as int) == next_inst_bag(insts@, j as int, x, nbags as int),
        decreases insts@.len() - j,
    {
        if insts[j].inst_bag_ndx > x {
            return insts[j].inst_bag_ndx as usize;
        }
        j = j + 1;
    }
    nbags
}

/// The group that instrument `i` makes under the preset zone's generators.
pub fn plan_group(pd: &Pdta, frames: &[usize], i: usize, preset: &GeneratorSet) -> (r: Option<GroupPlan>)
    requires
        i < pd.instruments@.len(),
    ensures
        match group_for(*pd, frames@, i as int, preset@) {
            Some(g) => r matches Some(p) && p@ == g,
            None => r is None,
        },
{
    let inst = &pd.instruments[i];
    let start = inst.inst_bag_ndx as usize;
    let end = next_instrument_bag(&pd.instruments, inst.inst_bag_ndx, pd.inst_bags.len());
    let mut global: HashMap<u16, i16> = HashMap::new();
    let mut zones: Vec<ZonePlan> = Vec::new();
    let mut excl: u8 = 0;
    let mut b = start;
    proof {
        assert(global@ =~= Map::<u16, i16>::empty());
        assert(zone_views(zones@) =~= Seq::<ZoneView>::empty());
    }
    while b < end
        invariant
            i < pd.instruments@.len(),
            start == pd.instruments@[i as int].inst_bag_ndx,
            end == next_inst_bag(pd.instruments@, 0, pd.instruments@[i as int].inst_bag_ndx, pd.inst_bags@.len() as int),
            inst_walk(*pd, frames@, preset@, start as int, start as int, end as int, Map::empty(), Seq::empty(), 0)
                == inst_walk(*pd, frames@, preset@, start as int, b as int, end as int, global@, zone_views(zones@), excl),
        decreases end - b,
    {
        if b >= pd.inst_bags.len() {
            return None;
        }
        let bags = &pd.inst_bags;
        let gens = &pd.inst_gens;
        let from = bags[b].gen_ndx as usize;
        let next = if b < bags.len() - 1 {
            bags[b + 1].gen_ndx as usize
        } else {
            gens.len()
        };
        let to = if next < gens.len() { next } else { gens.len() };
        let region = collect_gens(gens.as_slice(), from, to);
        if b == start && !region.contains_key(&GEN_SAMPLE_ID) {
            global = region;
        } else {
            let inst_gens = GeneratorSet::from_global_and_zone(&global, &region);
            let c = GeneratorSet::combine_instrument_and_preset(&inst_gens, preset);
            let ghost cv = c@;
            let ex = #[verifier::truncate] (match c.get(GEN_EXCLUSIVE_CLASS) {
                Some(x) => x,
                None => 0,
            } as u8);
            match plan_zone(pd, frames, c, b) {
                None => {
                    return None;
                },
                Some(None) => {},
                Some(Some(z)) => {
                    let ghost before = zones@;
                    let ghost zv = z@;
                    zones.push(z);
                    assert(zone_views(zones@) =~= zone_views(before).push(zv));
                    excl = ex;
                },
            }
        }
        b = b + 1;
    }
    Some(GroupPlan { name: inst.name.clone(), exclusive_group: excl, zones })
}


// ---------------------------------------------------------------------------
// Presets
// ---------------------------------------------------------------------------

/// The walk over preset bags `b..end`: a bag that names no instrument
/// becomes the preset's global zone; a bag that names an existing
/// instrument adds that instrument's group under the global zone merged
/// with its own generators, when the group has zones. `None` where reading
/// fails.
pub open spec fn preset_walk(
    pd: Pdta,
    frames: Seq<usize>,
    b: int,
    end: int,
    global: Map<u16, i16>,
    groups: Seq<GroupView>,
) -> Option<Seq<GroupView>>
    decreases end - b,
{
    if b >= end {
        Some(groups)
    } else if b < 0 || b >= pd.preset_bags@.len() {
        None
    } else {
        let bags = pd.preset_bags@;
        let gens = pd.preset_gens@;
        let region = gens_in(gens, bags[b].gen_ndx as int, gen_end(bags, gens.len() as int, b));
        if !region.contains_key(GEN_INSTRUMENT) {
            preset_walk(pd, frames, b + 1, end, region, groups)
        } else {
            let id = region[GEN_INSTRUMENT] as int;
            if id < 0 || id >= pd.instruments@.len() {
                preset_walk(pd, frames, b + 1, end, global, groups)
            } else {
                match group_for(pd, frames, id, global.union_prefer_right(region)) {
                    None => None,
                    Some(g) => preset_walk(
                        pd,
                        frames,
                        b + 1,
                        end,
                        global,
                        if g.zones.len() > 0 {
                            groups.push(g)
                        } else {
                            groups
                        },
                    ),
                }
            }
        }
    }
}

/// A preset as values: name, bank, program and groups.
pub ghost struct PresetView {
    pub name: Seq<char>,
    pub bank: u16,
    pub preset: u16,
    pub groups: Seq<GroupView>,
}

/// The presets from header `pi` on, the last header being the terminal
/// record that ends the list.
pub open spec fn presets_from(pd: Pdta, frames: Seq<usize>, pi: int, acc: Seq<PresetView>) -> Option<Seq<PresetView>>
    decreases pd.presets@.len() - pi,
{
    let hs = pd.presets@;
    if pi < 0 || pi + 1 >= hs.len() {
        Some(acc)
    } else {
        match preset_walk(pd, frames, hs[pi].preset_bag_ndx as int, hs[pi + 1].preset_bag_ndx as int, Map::empty(), Seq::empty()) {
            None => None,
            Some(gs) => presets_from(
                pd,
                frames,
                pi + 1,
                acc.push(PresetView { name: hs[pi].name@, bank: hs[pi].bank, preset: hs[pi].preset, groups: gs }),
            ),
        }
    }
}

/// The presets of a file whose samples have `frames` frames each; `None`
/// where reading fails.
pub open spec fn sf2_presets(pd: Pdta, frames: Seq<usize>) -> Option<Seq<PresetView>> {
    presets_from(pd, frames, 0, Seq::empty())
}

/// A preset ready to be built: see `PresetView`.
pub struct PresetPlan {
    pub name: String,
    pub bank: u16,
    pub preset: u16,
    pub groups: Vec<GroupPlan>,
}

pub open spec fn group_views(v: Seq<GroupPlan>) -> Seq<GroupView> {
    v.map_values(|g: GroupPlan| g@)
}

impl View for PresetPlan {
    type V = PresetView;

    open spec fn view(&self) -> PresetView {
        PresetView { name: self.name@, bank: self.bank, preset: self.preset, groups: group_views(self.groups@) }
    }
}

pub open spec fn preset_views(v: Seq<PresetPlan>) -> Seq<PresetView> {
    v.map_values(|p: PresetPlan| p@)
}

fn plan_preset_groups(pd: &Pdta, frames: &[usize], start: usize, end: usize) -> (r: Option<Vec<GroupPlan>>)
    ensures
        match preset_walk(*pd, frames@, start as int, end as int, Map::empty(), Seq::empty()) {
            Some(g) => r matches Some(v) && group_views(v@) == g,
            None => r is None,
        },
{
    let mut global: HashMap<u16, i16> = HashMap::new();
    let mut groups: Vec<GroupPlan> = Vec::new();
    let mut b = start;
    proof {
        assert(global@ =~= Map::<u16, i16>::empty());
        assert(group_views(groups@) =~= Seq::<GroupView>::empty());
    }
    while b < end
        invariant
            preset_walk(*pd, frames@, start as int, end as int, Map::empty(), Seq::empty())
                == preset_walk(*pd, frames@, b as int, end as int, global@, group_views(groups@)),
        decreases end - b,
    {
        if b >= pd.preset_bags.len() {
            return None;
        }
        let bags = &pd.preset_bags;
        let gens = &pd.preset_gens;
        let from = bags[b].gen_ndx as usize;
        let next = if b < bags.len() - 1 {
            bags[b + 1].gen_ndx as usize
        } else {
            gens.len()
        };
        let to = if next < gens.len() { next } else { gens.len() };
        let region = collect_gens(gens.as_slice(), from, to);
        match region.get(&GEN_INSTRUMENT) {
            None => {
                global = region;
            },
            Some(id_ref) => {
                let id = *id_ref;
                if id >= 0 && (id as usize) < pd.instruments.len() {
                    let preset_gens = GeneratorSet::from_global_and_zone(&global, &region);
                    match plan_group(pd, frames, id as usize, &preset_gens) {
                        None => {
                            return None;
                        },
                        Some(g) => {
                            if g.zones.len() > 0 {
                                let ghost before = groups@;
                                let ghost gv = g@;
                                groups.push(g);
                                assert(group_views(groups@) =~= group_views(before).push(gv));
                            }
                        },
                    }
                }
            },
        }
        b = b + 1;
    }
    Some(groups)
}

/// The presets of a file, each with its groups and zones; `None` where
/// reading the file fails (a bag or modulator index out of order, or a
/// sample address out of `i32` range).
pub fn plan_presets(pd: &Pdta, frames: &[usize]) -> (r: Option<Vec<PresetPlan>>)
    ensures
        match sf2_presets(*pd, frames@) {
            Some(ps) => r matches Some(v) && preset_views(v@) == ps,
            None => r is None,
        },
{
    let mut out: Vec<PresetPlan> = Vec::new();
    let n = pd.presets.len();
    let mut pi: usize = 0;
    proof {
        assert(preset_views(out@) =~= Seq::<PresetView>::empty());
    }
    while pi < n && n - pi > 1
        invariant
            pi <= n,
            n == pd.presets@.len(),
            sf2_presets(*pd, frames@) == presets_from(*pd, frames@, pi as int, preset_views(out@)),
        decreases n - pi,
    {
        let h = &pd.presets[pi];
        let end = pd.presets[pi + 1].preset_bag_ndx as usize;
        match plan_preset_groups(pd, frames, h.preset_bag_ndx as usize, end) {
            None => {
                return None;
            },
            Some(groups) => {
                let plan = PresetPlan { name: h.name.clone(), bank: h.bank, preset: h.preset, groups };
                let ghost before = out@;
                let ghost pv = plan@;
                out.push(plan);
                assert(preset_views(out@) =~= preset_views(before).push(pv));
            },
        }
        pi = pi + 1;
    }
    Some(out)
}

/// The presets of a file that reads without failure.
pub fn build_presets(pd: &Pdta, frames: &[usize]) -> (r: Vec<PresetPlan>)
    requires
        sf2_presets(*pd, frames@) is Some,
    ensures
        preset_views(r@) == sf2_presets(*pd, frames@)->Some_0,
{
    match plan_presets(pd, frames) {
        Some(v) => v,
        None => Vec::new(),
    }
}


// ---------------------------------------------------------------------------
// Sample data windows
// ---------------------------------------------------------------------------

/// The frames of one channel of a sample header in a pool of `pool_len`
/// frames: from its start to its end or the pool's end, whichever comes
/// first. `Some(None)` when it starts past the pool; `None` when its end
/// comes before its start, where reading fails.
pub open spec fn channel_frames(start: u32, end: u32, pool_len: int) -> Option<Option<int>> {
    if start >= pool_len {
        Some(None)
    } else {
        let actual_end = if end < pool_len { end as int } else { pool_len };
        if actual_end < start {
            None
        } else {
            Some(Some(actual_end - start))
        }
    }
}

/// The frame count of each sample a file's headers make: the frames of its
/// channel, or one frame of silence when the header starts past the pool.
pub open spec fn frames_of_headers(hdrs: Seq<SampleHeader>, pool_len: int) -> Option<Seq<usize>>
    decreases hdrs.len(),
{
    if hdrs.len() == 0 {
        Some(Seq::empty())
    } else {
        match frames_of_headers(hdrs.drop_last(), pool_len) {
            None => None,
            Some(prev) => match channel_frames(hdrs.last().start, hdrs.last().end, pool_len) {
                None => None,
                Some(None) => Some(prev.push(1usize)),
                Some(Some(f)) => Some(prev.push(f as usize)),
            },
        }
    }
}

/// The frame count of each sample that the headers make from a pool of
/// `pool_len` frames; `None` where a header ends before it starts.
pub fn sample_frames(hdrs: &[SampleHeader], pool_len: usize) -> (r: Option<Vec<usize>>)
    ensures
        match frames_of_headers(hdrs@, pool_len as int) {
            Some(f) => r matches Some(v) && v@ == f,
            None => r is None,
        },
{
    let mut out: Vec<usize> = Vec::new();
    let mut i: usize = 0;
    while i < hdrs.len()
        invariant
            i <= hdrs@.len(),
            frames_of_headers(hdrs@.take(i as int), pool_len as int) == Some(out@),
        decreases hdrs@.len() - i,
    {
        proof {
            assert(hdrs@.take(i + 1).drop_last() =~= hdrs@.take(i as int));
            assert(hdrs@.take(i + 1).last() == hdrs@[i as int]);
        }
        let start = hdrs[i].start as usize;
        let end = hdrs[i].end as usize;
        if start >= pool_len {
            out.push(1);
        } else {
            let actual_end = if end < pool_len { end } else { pool_len };
            if actual_end < start {
                proof {
                    lemma_frames_none_extends(hdrs@, i as int + 1, pool_len as int);
                }
                return None;
            }
            out.push(actual_end - start);
        }
        i = i + 1;
    }
    assert(hdrs@.take(hdrs@.len() as int) =~= hdrs@);
    Some(out)
}

proof fn lemma_frames_none_extends(hdrs: Seq<SampleHeader>, k: int, pool_len: int)
    requires
        0 <= k <= hdrs.len(),
        frames_of_headers(hdrs.take(k), pool_len) is None,
    ensures
        frames_of_headers(hdrs, pool_len) is None,
    decreases hdrs.len() - k,
{
    if k < hdrs.len() {
        assert(hdrs.take(k + 1).drop_last() =~= hdrs.take(k));
        lemma_frames_none_extends(hdrs, k + 1, pool_len);
    } else {
        assert(hdrs.take(k) =~= hdrs);
    }
}

/// The right-channel header that a left-channel header pairs with.
pub open spec fn stereo_partner_of(hdrs: Seq<SampleHeader>, i: int) -> Option<int> {
    let h = hdrs[i];
    if h.sample_type == SF2_SAMPLE_TYPE_LEFT && h.sample_link < hdrs.len()
        && hdrs[h.sample_link as int].sample_type == SF2_SAMPLE_TYPE_RIGHT {
        Some(h.sample_link as int)
    } else {
        None
    }
}

pub fn stereo_partner(hdrs: &[SampleHeader], i: usize) -> (r: Option<usize>)
    requires
        i < hdrs@.len(),
    ensures
        r == match stereo_partner_of(hdrs@, i as int) {
            Some(k) => Some(k as usize),
            None => None::<usize>,
        },
{
    let h = &hdrs[i];
    let link = h.sample_link as usize;
    if h.sample_type == SF2_SAMPLE_TYPE_LEFT && link < hdrs.len() && hdrs[link].sample_type == SF2_SAMPLE_TYPE_RIGHT {
        Some(link)
    } else {
        None
    }
}

/// The loop a sample keeps from its header, relative to the sample's start:
/// only when it runs forwards inside the header's window (its end capped at
/// the pool, the pool's length taken as a `u32`).
pub open spec fn header_loop(h: SampleHeader, pool_len: usize) -> Option<(int, int)> {
    let pool32 = pool_len as u32;
    let actual_end = if h.end < pool32 { h.end } else { pool32 };
    if h.start_loop < h.end_loop && h.start_loop >= h.start && h.end_loop <= actual_end {
        Some((h.start_loop - h.start, h.end_loop - h.start))
    } else {
        None
    }
}

pub fn sample_loop(h: &SampleHeader, pool_len: usize) -> (r: Option<(usize, usize)>)
    ensures
        match header_loop(*h, pool_len) {
            Some((a, b)) => r == Some((a as usize, b as usize)),
            None => r is None,
        },
{
    let pool32 = #[verifier::truncate] (pool_len as u32);
    let actual_end = if h.end < pool32 { h.end } else { pool32 };
    if h.start_loop < h.end_loop && h.start_loop >= h.start && h.end_loop <= actual_end {
        Some(((h.start_loop - h.start) as usize, (h.end_loop - h.start) as usize))
    } else {
        None
    }
}

/// The value of one 24-bit sample frame: the `sm24` byte as the high,
/// signed part above the 16 bits of the `smpl` word.
pub open spec fn sample_word_value(low: i16, high: i8) -> int {
    high * 65536 + (low as u16)
}

/// Puts a frame's `smpl` word and `sm24` byte together as a 24-bit value.
pub fn sample_word(low: i16, high: i8) -> (r: i32)
    ensures
        r == sample_word_value(low, high),
        -8388608 <= r < 8388608,
{
    let h = high as i32;
    let l = (low as u16) as i32;
    assert(((h << 16u32) | l) == h * 65536 + l) by (bit_vector)
        requires
            -128 <= h < 128,
            0 <= l < 65536,
    ;
    (h << 16u32) | l
}

/// The part of a sample a zone plays: window start and length within the
/// sample's frames, and the loop bounds that still fall inside it.
pub ghost struct SliceView {
    pub start: int,
    pub frames: int,
    pub loop_start: Option<int>,
    pub loop_end: Option<int>,
}

pub open spec fn slice_of(frames: int, start: int, end: int, ls: Option<int>, le: Option<int>) -> SliceView {
    let s = if start < frames { start } else { frames };
    let e0 = if end > s { end } else { s };
    let e = if e0 < frames { e0 } else { frames };
    let n = e - s;
    SliceView {
        start: s,
        frames: n,
        loop_start: match ls {
            Some(l) => {
                let r = if l > s { l - s } else { 0 };
                if r < n {
                    Some(r)
                } else {
                    None
                }
            },
            None => None,
        },
        loop_end: match le {
            Some(l) => {
                let r = if l > s { l - s } else { 0 };
                if r <= n {
                    Some(r)
                } else {
                    None
                }
            },
            None => None,
        },
    }
}

/// Cuts a window out of a sample of `frames` frames.
pub fn slice_window(
    frames: usize,
    start: usize,
    end: usize,
    loop_start: Option<usize>,
    loop_end: Option<usize>,
) -> (r: (usize, usize, Option<usize>, Option<usize>))
    ensures
        ({
            let v = slice_of(frames as int, start as int, end as int, opt_int(loop_start), opt_int(loop_end));
            &&& r.0 == v.start
            &&& r.1 == v.frames
            &&& opt_int(r.2) == v.loop_start
            &&& opt_int(r.3) == v.loop_end
        }),
{
    let s = if start < frames { start } else { frames };
    let e0 = if end > s { end } else { s };
    let e = if e0 < frames { e0 } else { frames };
    let n = e - s;
    let ls = match loop_start {
        Some(l) => {
            let r = if l > s { l - s } else { 0 };
            if r < n {
                Some(r)
            } else {
                None
            }
        },
        None => None,
    };
    let le = match loop_end {
        Some(l) => {
            let r = if l > s { l - s } else { 0 };
            if r <= n {
                Some(r)
            } else {
                None
            }
        },
        None => None,
    };
    (s, n, ls, le)
}


// ---------------------------------------------------------------------------
// Modulation routes
// ---------------------------------------------------------------------------

/// The number of routes in a zone's modulation matrix.
pub const ROUTE_COUNT: usize = 16;

/// A route's depth: an amount over a divisor, its negation, full or none.
/// The depth in use is this value clamped to -1..1.
#[derive(Debug, Clone, Copy, PartialEq, Eq, Structural)]
pub enum Depth {
    Ratio(i16, u16),
    NegRatio(i16, u16),
    Full,
    Off,
}

/// One route of a modulation matrix; it is active when it has a source and
/// a target.
#[derive(Debug, Clone, Copy, PartialEq, Eq, Structural)]
pub struct RoutePlan {
    pub source: ModSource,
    pub target: ModTarget,
    pub depth: Depth,
    pub active: bool,
}

pub open spec fn route(source: ModSource, target: ModTarget, depth: Depth) -> RoutePlan {
    RoutePlan {
        source,
        target,
        depth,
        active: source != ModSource::NoSource && target != ModTarget::NoTarget,
    }
}

pub open spec fn empty_route() -> RoutePlan {
    RoutePlan { source: ModSource::NoSource, target: ModTarget::NoTarget, depth: Depth::Off, active: false }
}

/// The depth of a modulator amount for its destination generator:
/// attenuation over -960, filter cutoff over 2400, pan over 500, anything
/// else over 100.
pub open spec fn depth_for(dest: u16, amount: i16) -> Depth {
    if dest == GEN_INITIAL_ATTENUATION {
        Depth::NegRatio(amount, 960)
    } else if dest == GEN_INITIAL_FILTER_FC {
        Depth::Ratio(amount, 2400)
    } else if dest == GEN_PAN {
        Depth::Ratio(amount, 500)
    } else {
        Depth::Ratio(amount, 100)
    }
}

pub open spec fn target_for(dest: u16) -> Option<ModTarget> {
    if dest == GEN_INITIAL_ATTENUATION {
        Some(ModTarget::Amplitude)
    } else if dest == GEN_INITIAL_FILTER_FC {
        Some(ModTarget::FilterCutoff)
    } else if dest == GEN_PAN {
        Some(ModTarget::Pan)
    } else if dest == GEN_MOD_LFO_TO_PITCH || dest == GEN_VIB_LFO_TO_PITCH {
        Some(ModTarget::Pitch)
    } else {
        None
    }
}

/// The routes that a zone's modulators make, in order, at most sixteen;
/// modulators whose destination has no target are skipped. With no route
/// at all, the default routes velocity → amplitude (full) and key →
/// filter cutoff (none) stand in.
pub open spec fn modulator_routes(mods: Seq<Modulator>) -> Seq<RoutePlan> {
    let (table, count) = fill_routes(mods, 0, Seq::new(16, |i: int| empty_route()), 0);
    if count == 0 {
        table.update(0, route(ModSource::Velocity, ModTarget::Amplitude, Depth::Full)).update(
            1,
            route(ModSource::KeyTrack, ModTarget::FilterCutoff, Depth::Off),
        )
    } else {
        table
    }
}

pub open spec fn fill_routes(mods: Seq<Modulator>, i: int, table: Seq<RoutePlan>, count: int) -> (Seq<RoutePlan>, int)
    decreases mods.len() - i,
{
    if i < 0 || i >= mods.len() || count >= 16 {
        (table, count)
    } else {
        let m = mods[i];
        match target_for(m.dest_oper) {
            Some(t) => fill_routes(
                mods,
                i + 1,
                table.update(count, route(mod_source_of(m.src_oper), t, depth_for(m.dest_oper, m.amount))),
                count + 1,
            ),
            None => fill_routes(mods, i + 1, table, count),
        }
    }
}

fn make_route(source: ModSource, target: ModTarget, depth: Depth) -> (r: RoutePlan)
    ensures
        r == route(source, target, depth),
{
    let active = !(source == ModSource::NoSource) && !(target == ModTarget::NoTarget);
    RoutePlan { source, target, depth, active }
}

fn modulator_depth(dest: u16, amount: i16) -> (r: Depth)
    ensures
        r == depth_for(dest, amount),
{
    if dest == GEN_INITIAL_ATTENUATION {
        Depth::NegRatio(amount, 960)
    } else if dest == GEN_INITIAL_FILTER_FC {
        Depth::Ratio(amount, 2400)
    } else if dest == GEN_PAN {
        Depth::Ratio(amount, 500)
    } else {
        Depth::Ratio(amount, 100)
    }
}

/// The source, target and depth of a modulator, when its destination has a
/// target.
pub fn map_modulator(m: &Modulator) -> (r: Option<(ModSource, ModTarget, Depth)>)
    ensures
        r == match target_for(m.dest_oper) {
            Some(t) => Some((mod_source_of(m.src_oper), t, depth_for(m.dest_oper, m.amount))),
            None => None::<(ModSource, ModTarget, Depth)>,
        },
{
    let source = parse_mod_source(m.src_oper);
    match parse_mod_target(m.dest_oper) {
        Some(t) => Some((source, t, modulator_depth(m.dest_oper, m.amount))),
        None => None,
    }
}

/// The modulation routes of a zone's modulators.
pub fn build_mod_matrix(mods: &[Modulator]) -> (r: Vec<RoutePlan>)
    ensures
        r@ == modulator_routes(mods@),
{
    let mut table: Vec<RoutePlan> = Vec::new();
    let mut k: usize = 0;
    while k < ROUTE_COUNT
        invariant
            k <= 16,
            table@ == Seq::new(k as nat, |i: int| empty_route()),
        decreases 16 - k,
    {
        table.push(RoutePlan { source: ModSource::NoSource, target: ModTarget::NoTarget, depth: Depth::Off, active: false });
        k = k + 1;
        assert(table@ =~= Seq::new(k as nat, |i: int| empty_route()));
    }
    let mut count: usize = 0;
    let mut i: usize = 0;
    while i < mods.len() && count < ROUTE_COUNT
        invariant
            i <= mods@.len(),
            count <= 16,
            table@.len() == 16,
            fill_routes(mods@, 0, Seq::new(16, |i: int| empty_route()), 0) == fill_routes(mods@, i as int, table@, count as int),
        decreases mods@.len() - i,
    {
        match map_modulator(&mods[i]) {
            Some((source, target, depth)) => {
                table.set(count, make_route(source, target, depth));
                count = count + 1;
            },
            None => {},
        }
        i = i + 1;
    }
    if count == 0 {
        table.set(0, make_route(ModSource::Velocity, ModTarget::Amplitude, Depth::Full));
        table.set(1, make_route(ModSource::KeyTrack, ModTarget::FilterCutoff, Depth::Off));
    }
    table
}

/// The generator-driven routes appended after the first inactive route:
/// modulation LFO → pitch, vibrato LFO → pitch, modulation envelope →
/// pitch (over 100), LFO → filter cutoff, envelope → filter cutoff (over
/// 2400), LFO → volume (over 100), each when its generator is set and a
/// route is left.
pub open spec fn generator_routes(table: Seq<RoutePlan>, g: Map<u16, i16>) -> Seq<RoutePlan> {
    let r0 = first_inactive(table, 0);
    let (t1, r1) = add_gen_route(table, r0, g, GEN_MOD_LFO_TO_PITCH, ModSource::Lfo1, ModTarget::Pitch, 100);
    let (t2, r2) = add_gen_route(t1, r1, g, GEN_VIB_LFO_TO_PITCH, ModSource::Lfo2, ModTarget::Pitch, 100);
    let (t3, r3) = add_gen_route(t2, r2, g, GEN_MOD_ENV_TO_PITCH, ModSource::Eg2, ModTarget::Pitch, 100);
    let (t4, r4) = add_gen_route(t3, r3, g, GEN_MOD_LFO_TO_FILTER_FC, ModSource::Lfo1, ModTarget::FilterCutoff, 2400);
    let (t5, r5) = add_gen_route(t4, r4, g, GEN_MOD_ENV_TO_FILTER_FC, ModSource::Eg2, ModTarget::FilterCutoff, 2400);
    add_gen_route(t5, r5, g, GEN_MOD_LFO_TO_VOLUME, ModSource::Lfo1, ModTarget::Amplitude, 100).0
}

/// Index of the first inactive route from `i` on, or the table's length.
pub open spec fn first_inactive(table: Seq<RoutePlan>, i: int) -> int
    decreases table.len() - i,
{
    if i < 0 || i >= table.len() || !table[i].active {
        i
    } else {
        first_inactive(table, i + 1)
    }
}

pub open spec fn add_gen_route(
    table: Seq<RoutePlan>,
    r: int,
    g: Map<u16, i16>,
    op: u16,
    source: ModSource,
    target: ModTarget,
    divisor: u16,
) -> (Seq<RoutePlan>, int) {
    if g.contains_key(op) && 0 <= r < table.len() {
        (table.update(r, route(source, target, Depth::Ratio(g[op], divisor))), r + 1)
    } else {
        (table, r)
    }
}

fn add_route_for(
    table: &mut Vec<RoutePlan>,
    r: usize,
    gens: &GeneratorSet,
    op: u16,
    source: ModSource,
    target: ModTarget,
    divisor: u16,
) -> (next: usize)
    requires
        r <= old(table)@.len(),
    ensures
        (final(table)@, next as int) == add_gen_route(old(table)@, r as int, gens@, op, source, target, divisor),
        next <= final(table)@.len() == old(table)@.len(),
{
    match gens.get(op) {
        Some(amount) => {
            if r < table.len() {
                table.set(r, make_route(source, target, Depth::Ratio(amount, divisor)));
                r + 1
            } else {
                r
            }
        },
        None => r,
    }
}

/// Adds the routes that a zone's generators call for.
pub fn apply_generator_mod_routes(table: &mut Vec<RoutePlan>, gens: &GeneratorSet)
    ensures
        final(table)@ == generator_routes(old(table)@, gens@),
{
    let mut r: usize = 0;
    while r < table.len() && table[r].active
        invariant
            r <= table@.len(),
            table@ == old(table)@,
            first_inactive(table@, 0) == first_inactive(table@, r as int),
        decreases table@.len() - r,
    {
        r = r + 1;
    }
    r = add_route_for(table, r, gens, GEN_MOD_LFO_TO_PITCH, ModSource::Lfo1, ModTarget::Pitch, 100);
    r = add_route_for(table, r, gens, GEN_VIB_LFO_TO_PITCH, ModSource::Lfo2, ModTarget::Pitch, 100);
    r = add_route_for(table, r, gens, GEN_MOD_ENV_TO_PITCH, ModSource::Eg2, ModTarget::Pitch, 100);
    r = add_route_for(table, r, gens, GEN_MOD_LFO_TO_FILTER_FC, ModSource::Lfo1, ModTarget::FilterCutoff, 2400);
    r = add_route_for(table, r, gens, GEN_MOD_ENV_TO_FILTER_FC, ModSource::Eg2, ModTarget::FilterCutoff, 2400);
    let _ = add_route_for(table, r, gens, GEN_MOD_LFO_TO_VOLUME, ModSource::Lfo1, ModTarget::Amplitude, 100);
}

proof fn lemma_fill_routes_len(mods: Seq<Modulator>, i: int, table: Seq<RoutePlan>, count: int)
    requires
        0 <= count <= 16,
        table.len() == 16,
    ensures
        fill_routes(mods, i, table, count).0.len() == 16,
    decreases mods.len() - i,
{
    if !(i < 0 || i >= mods.len() || count >= 16) {
        let m = mods[i];
        match target_for(m.dest_oper) {
            Some(t) => {
                lemma_fill_routes_len(
                    mods,
                    i + 1,
                    table.update(count, route(mod_source_of(m.src_oper), t, depth_for(m.dest_oper, m.amount))),
                    count + 1,
                );
            },
            None => lemma_fill_routes_len(mods, i + 1, table, count),
        }
    }
}

/// A zone's modulation matrix always has sixteen routes, before and after
/// the generator-driven routes are added.
pub proof fn law_route_table_size(mods: Seq<Modulator>, g: Map<u16, i16>)
    ensures
        modulator_routes(mods).len() == ROUTE_COUNT,
        generator_routes(modulator_routes(mods), g).len() == ROUTE_COUNT,
{
    lemma_fill_routes_len(mods, 0, Seq::new(16, |i: int| empty_route()), 0);
}

} // verus!
