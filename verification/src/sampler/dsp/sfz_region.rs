//! The key, velocity, fade, playback and loop settings of an SFZ region,
//! from its opcodes. Levels, tuning and other decimal settings are read
//! elsewhere.

use vstd::prelude::*;
use crate::common::text::{ascii_case_eq, eq_ignore_ascii_case, trim};
use crate::sampler::dsp::sfz::{
    curve_type_of, get_bool, loop_direction_of, loop_mode_of, note_arith_fits, opcode_bool, parse_curve_type,
    parse_loop_direction, parse_loop_mode, parse_trigger_mode, trigger_mode_of, OpcodeMap,
};
use crate::common::text::unicode_lower;
use crate::sampler::dsp::zone::{CurveType, LoopDirection, LoopMode, SamplePlayMode, VariantMode};

verus! {

broadcast use vstd::string::group_string_axioms;

/// The whole-number opcodes of a region as its opcode values read: a note
/// (names included) for the keys, an integer for the rest; none where the
/// opcode is absent or not a number.
#[derive(Debug, Clone, Copy, PartialEq, Eq)]
pub struct RegionNumbers {
    pub key: Option<u8>,
    pub lokey: Option<u8>,
    pub hikey: Option<u8>,
    pub pitch_keycenter: Option<u8>,
    pub lovel: Option<i32>,
    pub hivel: Option<i32>,
    pub xfin_lokey: Option<i32>,
    pub xfin_hikey: Option<i32>,
    pub xfout_lokey: Option<i32>,
    pub xfout_hikey: Option<i32>,
    pub offset: Option<i32>,
    pub loop_start: Option<i32>,
    pub loop_end: Option<i32>,
    pub loop_crossfade: Option<i32>,
    pub loop_count: Option<i32>,
    pub seq_length: Option<i32>,
}

/// The key, velocity, fade, playback and loop settings of a region.
#[derive(Debug, Clone, Copy, PartialEq, Eq)]
pub struct RegionLayout {
    pub key_low: u8,
    pub key_high: u8,
    pub root_key: u8,
    pub vel_low: u8,
    pub vel_high: u8,
    pub key_fade_low: u8,
    pub key_fade_high: u8,
    pub velocity_curve: CurveType,
    pub reverse: bool,
    pub play_mode: SamplePlayMode,
    pub loop_mode: LoopMode,
    pub loop_direction: LoopDirection,
    pub start_offset: usize,
    pub loop_start: usize,
    pub loop_end: usize,
    pub loop_crossfade: usize,
    pub loop_count: u32,
    pub variant_mode: VariantMode,
}

/// A number kept within 0 to 127.
pub open spec fn clamp_127(v: i32) -> u8 {
    if v < 0 { 0 } else if v > 127 { 127 } else { v as u8 }
}

/// `a - b`, or 0 when `b` is larger.
pub open spec fn sat_sub(a: u8, b: u8) -> u8 {
    if a >= b { (a - b) as u8 } else { 0 }
}

/// A number, or 0 when it is negative.
pub open spec fn non_negative(v: i32) -> nat {
    if v < 0 { 0 } else { v as nat }
}

pub open spec fn or_default<T>(v: Option<T>, d: T) -> T {
    match v {
        Some(x) => x,
        None => d,
    }
}

/// Whether an opcode value is the word `one_shot`, in any case.
pub open spec fn is_one_shot(v: Seq<char>) -> bool {
    ascii_case_eq(v, "one_shot"@)
}

/// How a region plays: its `trigger`, turned to one-shot when `loop_mode`
/// reads as true or is `one_shot`.
pub open spec fn region_play_mode(m: Map<Seq<char>, Seq<char>>) -> SamplePlayMode {
    let by_trigger = if m.contains_key("trigger"@) {
        trigger_mode_of(unicode_lower(m["trigger"@]))
    } else {
        SamplePlayMode::Normal
    };
    let one_shot = m.contains_key("loop_mode"@) && match opcode_bool(m["loop_mode"@]) {
        Some(b) => b,
        None => is_one_shot(m["loop_mode"@]),
    };
    if one_shot || (m.contains_key("loop_mode"@) && is_one_shot(m["loop_mode"@])) {
        SamplePlayMode::OneShot
    } else {
        by_trigger
    }
}

/// The settings of a region from its opcodes and their whole-number values:
/// `key` sets both key bounds and the root unless `lokey`, `hikey` or
/// `pitch_keycenter` say otherwise (defaults 0, 127 and 60); velocities
/// are kept within 0 to 127; the fade-in width comes from `xfin_hikey` or
/// else `xfin_lokey`, the fade-out width from `xfout_hikey` or else
/// `xfout_lokey`; offsets and loop points are at least 0; random variants
/// (`lorand`/`hirand`) come before round robin (`seq_length` above 1).
pub open spec fn region_layout(m: Map<Seq<char>, Seq<char>>, n: RegionNumbers) -> RegionLayout {
    let key_low = or_default(n.lokey, or_default(n.key, 0u8));
    let key_high = or_default(n.hikey, or_default(n.key, 127u8));
    RegionLayout {
        key_low,
        key_high,
        root_key: or_default(n.pitch_keycenter, or_default(n.key, 60u8)),
        vel_low: match n.lovel {
            Some(v) => clamp_127(v),
            None => 0,
        },
        vel_high: match n.hivel {
            Some(v) => clamp_127(v),
            None => 127,
        },
        key_fade_low: match n.xfin_hikey {
            Some(v) => sat_sub(clamp_127(v), key_low),
            None => match n.xfin_lokey {
                Some(v) => sat_sub(key_low, clamp_127(v)),
                None => 0,
            },
        },
        key_fade_high: match n.xfout_hikey {
            Some(v) => sat_sub(clamp_127(v), key_high),
            None => match n.xfout_lokey {
                Some(v) => sat_sub(key_high, clamp_127(v)),
                None => 0,
            },
        },
        velocity_curve: if m.contains_key("velcurve"@) {
            curve_type_of(unicode_lower(m["velcurve"@]))
        } else {
            CurveType::Linear
        },
        reverse: m.contains_key("direction"@) && ascii_case_eq(m["direction"@], "reverse"@),
        play_mode: region_play_mode(m),
        loop_mode: if m.contains_key("loop_mode"@) {
            loop_mode_of(unicode_lower(m["loop_mode"@]))
        } else {
            LoopMode::Off
        },
        loop_direction: if m.contains_key("loop_direction"@) {
            loop_direction_of(unicode_lower(m["loop_direction"@]))
        } else {
            LoopDirection::Forward
        },
        start_offset: match n.offset {
            Some(v) => non_negative(v) as usize,
            None => 0,
        },
        loop_start: match n.loop_start {
            Some(v) => non_negative(v) as usize,
            None => 0,
        },
        loop_end: match n.loop_end {
            Some(v) => non_negative(v) as usize,
            None => 0,
        },
        loop_crossfade: match n.loop_crossfade {
            Some(v) => non_negative(v) as usize,
            None => 0,
        },
        loop_count: match n.loop_count {
            Some(v) => non_negative(v) as u32,
            None => 0,
        },
        variant_mode: if m.contains_key("lorand"@) || m.contains_key("hirand"@) {
            VariantMode::Random
        } else if n.seq_length matches Some(v) && v > 1 {
            VariantMode::RoundRobin
        } else {
            VariantMode::First
        },
    }
}

fn clamp_vel(v: i32) -> (r: u8)
    ensures
        r == clamp_127(v),
{
    if v < 0 {
        0
    } else if v > 127 {
        127
    } else {
        v as u8
    }
}

fn saturating_sub(a: u8, b: u8) -> (r: u8)
    ensures
        r == sat_sub(a, b),
{
    if a >= b {
        a - b
    } else {
        0
    }
}

fn count_of(v: Option<i32>) -> (r: usize)
    ensures
        r == (match v {
            Some(x) => non_negative(x) as usize,
            None => 0usize,
        }),
{
    match v {
        Some(x) => if x < 0 {
            0
        } else {
            x as usize
        },
        None => 0,
    }
}

fn play_mode_of(opcodes: &OpcodeMap) -> (r: SamplePlayMode)
    requires
        opcodes@.contains_key("loop_mode"@) ==> note_arith_fits(trim(opcodes@["loop_mode"@])),
    ensures
        r == region_play_mode(opcodes@),
{
    let mut mode = match opcodes.get("trigger") {
        Some(t) => parse_trigger_mode(t),
        None => SamplePlayMode::Normal,
    };
    let one_shot = match get_bool(opcodes, "loop_mode") {
        Some(b) => b,
        None => match opcodes.get("loop_mode") {
            Some(v) => eq_ignore_ascii_case(v, "one_shot"),
            None => false,
        },
    };
    if one_shot {
        mode = SamplePlayMode::OneShot;
    }
    match opcodes.get("loop_mode") {
        Some(v) => {
            if eq_ignore_ascii_case(v, "one_shot") {
                mode = SamplePlayMode::OneShot;
            }
        },
        None => {},
    }
    mode
}

/// Reads the key, velocity, fade, playback and loop settings of a region
/// from its opcodes and their whole-number values.
pub fn region_settings(opcodes: &OpcodeMap, numbers: &RegionNumbers) -> (r: RegionLayout)
    requires
        opcodes@.contains_key("loop_mode"@) ==> note_arith_fits(trim(opcodes@["loop_mode"@])),
    ensures
        r == region_layout(opcodes@, *numbers),
{
    let key_low = match numbers.lokey {
        Some(k) => k,
        None => match numbers.key {
            Some(k) => k,
            None => 0,
        },
    };
    let key_high = match numbers.hikey {
        Some(k) => k,
        None => match numbers.key {
            Some(k) => k,
            None => 127,
        },
    };
    let root_key = match numbers.pitch_keycenter {
        Some(k) => k,
        None => match numbers.key {
            Some(k) => k,
            None => 60,
        },
    };
    let vel_low = match numbers.lovel {
        Some(v) => clamp_vel(v),
        None => 0,
    };
    let vel_high = match numbers.hivel {
        Some(v) => clamp_vel(v),
        None => 127,
    };
    let key_fade_low = match numbers.xfin_hikey {
        Some(v) => saturating_sub(clamp_vel(v), key_low),
        None => match numbers.xfin_lokey {
            Some(v) => saturating_sub(key_low, clamp_vel(v)),
            None => 0,
        },
    };
    let key_fade_high = match numbers.xfout_hikey {
        Some(v) => saturating_sub(clamp_vel(v), key_high),
        None => match numbers.xfout_lokey {
            Some(v) => saturating_sub(key_high, clamp_vel(v)),
            None => 0,
        },
    };
    let velocity_curve = match opcodes.get("velcurve") {
        Some(c) => parse_curve_type(c),
        None => CurveType::Linear,
    };
    let reverse = match opcodes.get("direction") {
        Some(d) => eq_ignore_ascii_case(d, "reverse"),
        None => false,
    };
    let play_mode = play_mode_of(opcodes);
    let loop_mode = match opcodes.get("loop_mode") {
        Some(v) => parse_loop_mode(v),
        None => LoopMode::Off,
    };
    let loop_direction = match opcodes.get("loop_direction") {
        Some(v) => parse_loop_direction(v),
        None => LoopDirection::Forward,
    };
    let loop_count: u32 = match numbers.loop_count {
        Some(v) => if v < 0 {
            0
        } else {
            v as u32
        },
        None => 0,
    };
    let variant_mode = if opcodes.get("lorand").is_some() || opcodes.get("hirand").is_some() {
        VariantMode::Random
    } else {
        match numbers.seq_length {
            Some(v) => if v > 1 {
                VariantMode::RoundRobin
            } else {
                VariantMode::First
            },
            None => VariantMode::First,
        }
    };
    RegionLayout {
        key_low,
        key_high,
        root_key,
        vel_low,
        vel_high,
        key_fade_low,
        key_fade_high,
        velocity_curve,
        reverse,
        play_mode,
        loop_mode,
        loop_direction,
        start_offset: count_of(numbers.offset),
        loop_start: count_of(numbers.loop_start),
        loop_end: count_of(numbers.loop_end),
        loop_crossfade: count_of(numbers.loop_crossfade),
        loop_count,
        variant_mode,
    }
}

/// The key fades of a region: a fade-out given by `xfout_lokey` (without
/// `xfout_hikey`) spans from that key up to the region's high key, and one
/// given by `xfout_hikey` from the high key up to that key; a fade-in given
/// by `xfin_hikey` spans from the low key up to that key, and one given by
/// `xfin_lokey` (without `xfin_hikey`) from that key up to the low key. A
/// fade key on the wrong side of its bound (a MIDI key) gives no fade, and
/// one below 0 or above 127 counts as 0 or 127.
pub proof fn law_region_key_fades(m: Map<Seq<char>, Seq<char>>, n: RegionNumbers)
    ensures
        ({
            let r = region_layout(m, n);
            &&& n.xfout_hikey is None && n.xfout_lokey is None ==> r.key_fade_high == 0
            &&& n.xfout_hikey is None ==> (n.xfout_lokey matches Some(v) ==> (
                (0 <= v <= r.key_high && v <= 127 ==> r.key_fade_high == r.key_high - v)
                && (v < 0 ==> r.key_fade_high == r.key_high)
                && (v >= r.key_high && r.key_high <= 127 ==> r.key_fade_high == 0)))
            &&& n.xfout_hikey matches Some(v) ==> (
                (r.key_high <= v <= 127 ==> r.key_fade_high == v - r.key_high)
                && (v > 127 && r.key_high <= 127 ==> r.key_fade_high == 127 - r.key_high)
                && (v <= r.key_high ==> r.key_fade_high == 0))
            &&& n.xfin_hikey is None && n.xfin_lokey is None ==> r.key_fade_low == 0
            &&& n.xfin_hikey is None ==> (n.xfin_lokey matches Some(v) ==> (
                (0 <= v <= r.key_low && v <= 127 ==> r.key_fade_low == r.key_low - v)
                && (v < 0 ==> r.key_fade_low == r.key_low)
                && (v >= r.key_low && r.key_low <= 127 ==> r.key_fade_low == 0)))
            &&& n.xfin_hikey matches Some(v) ==> (
                (r.key_low <= v <= 127 ==> r.key_fade_low == v - r.key_low)
                && (v > 127 && r.key_low <= 127 ==> r.key_fade_low == 127 - r.key_low)
                && (v <= r.key_low ==> r.key_fade_low == 0))
        }),
{
}

/// A region's keys are `lokey`, `hikey` and `pitch_keycenter` when given,
/// else `key` for all three, else 0, 127 and 60; its velocities are
/// `lovel` and `hivel` brought within 0 to 127, else 0 and 127.
pub proof fn law_region_key_and_velocity_bounds(m: Map<Seq<char>, Seq<char>>, n: RegionNumbers)
    ensures
        ({
            let r = region_layout(m, n);
            &&& n.lokey matches Some(k) ==> r.key_low == k
            &&& n.hikey matches Some(k) ==> r.key_high == k
            &&& n.pitch_keycenter matches Some(k) ==> r.root_key == k
            &&& (n.lokey is None ==> (n.key matches Some(k) ==> r.key_low == k))
            &&& (n.hikey is None ==> (n.key matches Some(k) ==> r.key_high == k))
            &&& (n.pitch_keycenter is None ==> (n.key matches Some(k) ==> r.root_key == k))
            &&& (n.lokey is None && n.key is None ==> r.key_low == 0)
            &&& (n.hikey is None && n.key is None ==> r.key_high == 127)
            &&& (n.pitch_keycenter is None && n.key is None ==> r.root_key == 60)
            &&& r.vel_low <= 127 && r.vel_high <= 127
            &&& (n.lovel matches Some(v) ==> (0 <= v <= 127 ==> r.vel_low == v) && (v < 0 ==> r.vel_low == 0) && (v
                > 127 ==> r.vel_low == 127))
            &&& (n.hivel matches Some(v) ==> (0 <= v <= 127 ==> r.vel_high == v) && (v < 0 ==> r.vel_high == 0) && (v
                > 127 ==> r.vel_high == 127))
            &&& (n.lovel is None ==> r.vel_low == 0)
            &&& (n.hivel is None ==> r.vel_high == 127)
        }),
{
}

} // verus!
