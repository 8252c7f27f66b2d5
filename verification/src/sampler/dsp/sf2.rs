//! SoundFont 2 (`sfbk` RIFF) reading: the chunk walk, the INFO, sample-data
//! and preset-data (`pdta`) chunks, and the generator precedence rules that
//! merge instrument and preset zones.

use std::collections::HashMap;
use vstd::prelude::*;
use vstd::std_specs::iter::IteratorSpec;
use crate::common::byte_reader::{
    as_signed16, as_signed8, before_nul, find_nul, fourcc, fourcc_is, get_u16, get_u32, records,
    u16_at, u16_to_i16, u32_at, u8_to_i8, ByteReader,
};
use crate::sampler::dsp::mod_matrix::{ModSource, ModTarget};
use crate::common::text::{chars_of, decode_utf8_lossy, string_from_chars, trim, trim_chars, utf8_lossy};

verus! {

broadcast use vstd::std_specs::hash::group_hash_axioms;

// ---------------------------------------------------------------------------
// Generator operators
// ---------------------------------------------------------------------------

pub const GEN_START_ADDRS_OFFSET: u16 = 0;
pub const GEN_END_ADDRS_OFFSET: u16 = 1;
pub const GEN_START_LOOP_ADDRS_OFFSET: u16 = 2;
pub const GEN_END_LOOP_ADDRS_OFFSET: u16 = 3;
pub const GEN_START_ADDRS_COARSE_OFFSET: u16 = 4;
pub const GEN_MOD_LFO_TO_PITCH: u16 = 5;
pub const GEN_VIB_LFO_TO_PITCH: u16 = 6;
pub const GEN_MOD_ENV_TO_PITCH: u16 = 7;
pub const GEN_INITIAL_FILTER_FC: u16 = 8;
pub const GEN_INITIAL_FILTER_Q: u16 = 9;
pub const GEN_MOD_LFO_TO_FILTER_FC: u16 = 10;
pub const GEN_MOD_ENV_TO_FILTER_FC: u16 = 11;
pub const GEN_END_ADDRS_COARSE_OFFSET: u16 = 12;
pub const GEN_MOD_LFO_TO_VOLUME: u16 = 13;
pub const GEN_CHORUS_EFFECTS_SEND: u16 = 15;
pub const GEN_REVERB_EFFECTS_SEND: u16 = 16;
pub const GEN_PAN: u16 = 17;
pub const GEN_DELAY_MOD_LFO: u16 = 21;
pub const GEN_FREQ_MOD_LFO: u16 = 22;
pub const GEN_DELAY_VIB_LFO: u16 = 23;
pub const GEN_FREQ_VIB_LFO: u16 = 24;
pub const GEN_DELAY_MOD_ENV: u16 = 25;
pub const GEN_ATTACK_MOD_ENV: u16 = 26;
pub const GEN_HOLD_MOD_ENV: u16 = 27;
pub const GEN_DECAY_MOD_ENV: u16 = 28;
pub const GEN_SUSTAIN_MOD_ENV: u16 = 29;
pub const GEN_RELEASE_MOD_ENV: u16 = 30;
pub const GEN_KEYNUM_TO_MOD_ENV_HOLD: u16 = 31;
pub const GEN_KEYNUM_TO_MOD_ENV_DECAY: u16 = 32;
pub const GEN_DELAY_VOL_ENV: u16 = 33;
pub const GEN_ATTACK_VOL_ENV: u16 = 34;
pub const GEN_HOLD_VOL_ENV: u16 = 35;
pub const GEN_DECAY_VOL_ENV: u16 = 36;
pub const GEN_SUSTAIN_VOL_ENV: u16 = 37;
pub const GEN_RELEASE_VOL_ENV: u16 = 38;
pub const GEN_KEYNUM_TO_VOL_ENV_HOLD: u16 = 39;
pub const GEN_KEYNUM_TO_VOL_ENV_DECAY: u16 = 40;
pub const GEN_INSTRUMENT: u16 = 41;
pub const GEN_KEY_RANGE: u16 = 43;
pub const GEN_VEL_RANGE: u16 = 44;
pub const GEN_START_LOOP_ADDRS_COARSE_OFFSET: u16 = 45;
pub const GEN_INITIAL_ATTENUATION: u16 = 48;
pub const GEN_END_LOOP_ADDRS_COARSE_OFFSET: u16 = 50;
pub const GEN_COARSE_TUNE: u16 = 51;
pub const GEN_FINE_TUNE: u16 = 52;
pub const GEN_SAMPLE_ID: u16 = 53;
pub const GEN_SAMPLE_MODES: u16 = 54;
pub const GEN_SCALE_TUNING: u16 = 56;
pub const GEN_EXCLUSIVE_CLASS: u16 = 57;
pub const GEN_OVERRIDING_ROOT_KEY: u16 = 58;

/// Generators whose preset-zone value is added to the instrument-zone value.
pub open spec fn is_additive(op: u16) -> bool {
    ||| (5 <= op <= 11)
    ||| op == 13
    ||| op == 15
    ||| op == 16
    ||| op == 17
    ||| (21 <= op <= 40)
    ||| op == 48
    ||| op == 51
    ||| op == 52
    ||| op == 56
}

/// Generators whose preset-zone value replaces the instrument-zone value:
/// the sample address offsets.
pub open spec fn is_preset_override(op: u16) -> bool {
    ||| (0 <= op <= 4)
    ||| op == 12
    ||| op == 45
    ||| op == 50
}

fn additive_generator(op: u16) -> (r: bool)
    ensures
        r == is_additive(op),
{
    (5 <= op && op <= 11) || op == 13 || op == 15 || op == 16 || op == 17 || (21 <= op && op <= 40)
        || op == 48 || op == 51 || op == 52 || op == 56
}

fn preset_override_generator(op: u16) -> (r: bool)
    ensures
        r == is_preset_override(op),
{
    op <= 4 || op == 12 || op == 45 || op == 50
}

// ---------------------------------------------------------------------------
// Ranges
// ---------------------------------------------------------------------------

/// The 16-bit pattern of a generator amount.
pub open spec fn amount_bits(v: i16) -> int {
    if v >= 0 { v as int } else { v + 65536 }
}

/// A (low, high) byte pair packed into a generator amount.
pub open spec fn packed(lo: u8, hi: u8) -> int {
    let u = lo + 256 * hi;
    if u < 32768 { u } else { u - 65536 }
}

/// The (low, high) bytes of a generator amount.
pub open spec fn unpacked(v: i16) -> (u8, u8) {
    ((amount_bits(v) % 256) as u8, (amount_bits(v) / 256) as u8)
}

/// Intersects two note or velocity ranges.
pub fn intersect_range(a: (u8, u8), b: (u8, u8)) -> (r: (u8, u8))
    ensures
        r.0 == if a.0 >= b.0 { a.0 } else { b.0 },
        r.1 == if a.1 <= b.1 { a.1 } else { b.1 },
{
    (if a.0 >= b.0 { a.0 } else { b.0 }, if a.1 <= b.1 { a.1 } else { b.1 })
}

/// Packs a (low, high) range into the 16-bit generator amount format.
pub fn pack_range(range: (u8, u8)) -> (r: i16)
    ensures
        r == packed(range.0, range.1),
{
    let u: u32 = range.0 as u32 + 256 * range.1 as u32;
    if u < 32768 {
        u as i16
    } else {
        (u as i32 - 65536) as i16
    }
}

fn unpack_range(v: i16) -> (r: (u8, u8))
    ensures
        r == unpacked(v),
{
    let u: u32 = if v >= 0 { v as u32 } else { (v as i32 + 65536) as u32 };
    ((u % 256) as u8, (u / 256) as u8)
}

/// Unpacking a packed range gives the range back.
pub proof fn law_range_pack_roundtrip(lo: u8, hi: u8)
    ensures
        unpacked(packed(lo, hi) as i16) == (lo, hi),
{
    let u = lo + 256 * hi;
    assert(0 <= u < 65536);
    assert(amount_bits(packed(lo, hi) as i16) == u);
    assert(u % 256 == lo && u / 256 == hi) by (nonlinear_arith)
        requires
            u == lo + 256 * hi,
            0 <= lo < 256,
    ;
}

/// `i16` addition clamped at the type's bounds.
pub fn saturating_add16(a: i16, b: i16) -> (r: i16)
    ensures
        r == sat_add16(a, b),
{
    let sum: i32 = a as i32 + b as i32;
    if sum > 32767 {
        32767
    } else if sum < -32768 {
        -32768
    } else {
        sum as i16
    }
}

// ---------------------------------------------------------------------------
// GeneratorSet
// ---------------------------------------------------------------------------

/// A merged set of SoundFont 2 generators for a single zone.
pub struct GeneratorSet {
    pub values: HashMap<u16, i16>,
}

/// The value of `op` in `m`, or `d` when absent.
pub open spec fn value_or(m: Map<u16, i16>, op: u16, d: i16) -> i16 {
    if m.contains_key(op) { m[op] } else { d }
}

/// The range stored under `op`, or the full MIDI range when absent.
pub open spec fn range_of(m: Map<u16, i16>, op: u16) -> (u8, u8) {
    if m.contains_key(op) { unpacked(m[op]) } else { (0u8, 127u8) }
}

/// `i16` addition that clamps at the type's bounds.
pub open spec fn sat_add16(a: i16, b: i16) -> i16 {
    if a + b > i16::MAX { i16::MAX } else if a + b < i16::MIN { i16::MIN } else { (a + b) as i16 }
}

/// The intersection of two ranges, packed.
pub open spec fn packed_intersection(a: (u8, u8), b: (u8, u8)) -> i16 {
    packed(if a.0 >= b.0 { a.0 } else { b.0 }, if a.1 <= b.1 { a.1 } else { b.1 }) as i16
}

/// SoundFont 2 precedence for an instrument zone under a preset zone:
/// additive generators sum, offset generators take the preset value, key and
/// velocity ranges intersect, and every other generator keeps the
/// instrument value.
pub open spec fn combined(inst: Map<u16, i16>, preset: Map<u16, i16>) -> Map<u16, i16> {
    Map::new(
        |op: u16|
            inst.contains_key(op) || op == GEN_KEY_RANGE || op == GEN_VEL_RANGE || ((is_additive(op)
                || is_preset_override(op)) && preset.contains_key(op)),
        |op: u16|
            if op == GEN_KEY_RANGE {
                packed_intersection(range_of(inst, GEN_KEY_RANGE), range_of(preset, GEN_KEY_RANGE))
            } else if op == GEN_VEL_RANGE {
                packed_intersection(range_of(inst, GEN_VEL_RANGE), range_of(preset, GEN_VEL_RANGE))
            } else if is_preset_override(op) && preset.contains_key(op) {
                preset[op]
            } else if is_additive(op) && preset.contains_key(op) {
                sat_add16(value_or(inst, op, 0), preset[op])
            } else {
                inst[op]
            },
    )
}

impl View for GeneratorSet {
    type V = Map<u16, i16>;

    open spec fn view(&self) -> Map<u16, i16> {
        self.values@
    }
}

impl GeneratorSet {
    pub fn new() -> (r: Self)
        ensures
            r@ == Map::<u16, i16>::empty(),
    {
        GeneratorSet { values: HashMap::new() }
    }

    pub fn set(&mut self, op: u16, value: i16)
        ensures
            final(self)@ == old(self)@.insert(op, value),
    {
        self.values.insert(op, value);
    }

    pub fn get(&self, op: u16) -> (r: Option<i16>)
        ensures
            r == if self@.contains_key(op) { Some(self@[op]) } else { None::<i16> },
    {
        match self.values.get(&op) {
            Some(v) => Some(*v),
            None => None,
        }
    }

    /// Merges a global zone with a zone: zone values override globals.
    pub fn from_global_and_zone(global: &HashMap<u16, i16>, zone: &HashMap<u16, i16>) -> (r: Self)
        ensures
            r@ == global@.union_prefer_right(zone@),
    {
        let mut values: HashMap<u16, i16> = global.clone();
        let ghost g = global@;
        let ghost z = zone@;
        let ghost sq = vstd::std_specs::hash::spec_hash_map_iter(zone).remaining();
        let ghost mut seen: Set<u16> = Set::empty();
        proof {
            assert forall|k: u16| z.contains_key(k) implies exists|j: int| 0 <= j < sq.len() && *sq[j].0 == k by {
                assert(sq.contains((&k, &z[k])));
            }
        }
        for kv in it: zone.iter()
            invariant
                it.seq() == sq,
                g == global@,
                z == zone@,
                forall|j: int| 0 <= j < sq.len() ==> z.contains_key(*sq[j].0) && z[*sq[j].0] == *sq[j].1,
                forall|k: u16| seen.contains(k) ==> z.contains_key(k),
                forall|j: int| 0 <= j < it.index() ==> seen.contains(*sq[j].0),
                forall|k: u16| z.contains_key(k) && !seen.contains(k) ==> exists|j: int|
                    it.index() <= j < sq.len() && *sq[j].0 == k,
                forall|k: u16| #[trigger] values@.contains_key(k) <==> (g.contains_key(k) || seen.contains(k)),
                forall|k: u16| seen.contains(k) ==> values@[k] == z[k],
                forall|k: u16| g.contains_key(k) && !seen.contains(k) ==> values@[k] == g[k],
        {
            let (k, v) = kv;
            values.insert(*k, *v);
            proof {
                seen = seen.insert(*k);
            }
        }
        proof {
            assert(values@ =~= g.union_prefer_right(z));
        }
        GeneratorSet { values }
    }

    /// Combines an instrument-zone set with a preset-zone set by the
    /// SoundFont 2 precedence rules.
    pub fn combine_instrument_and_preset(instrument: &Self, preset: &Self) -> (r: Self)
        ensures
            r@ == combined(instrument@, preset@),
    {
        let mut values: HashMap<u16, i16> = instrument.values.clone();
        let ghost inst = instrument@;
        let ghost pre = preset@;
        let mut op: u16 = 0;
        while op <= 58
            invariant
                op <= 59,
                inst == instrument@,
                pre == preset@,
                forall|k: u16| #[trigger] values@.contains_key(k) <==> (inst.contains_key(k) || (k < op
                    && (is_additive(k) || is_preset_override(k)) && pre.contains_key(k))),
                forall|k: u16| #[trigger] values@.contains_key(k) ==> values@[k] == (if k < op
                    && is_preset_override(k) && pre.contains_key(k) {
                    pre[k]
                } else if k < op && is_additive(k) && pre.contains_key(k) {
                    sat_add16(value_or(inst, k, 0), pre[k])
                } else {
                    inst[k]
                }),
            decreases 59 - op,
        {
            if additive_generator(op) {
                if let Some(pv) = preset.values.get(&op) {
                    let iv: i16 = match values.get(&op) {
                        Some(v) => *v,
                        None => 0,
                    };
                    values.insert(op, saturating_add16(iv, *pv));
                }
            } else if preset_override_generator(op) {
                if let Some(pv) = preset.values.get(&op) {
                    values.insert(op, *pv);
                }
            }
            op = op + 1;
        }
        let key = pack_range(intersect_range(instrument.key_range(), preset.key_range()));
        values.insert(GEN_KEY_RANGE, key);
        let vel = pack_range(intersect_range(instrument.vel_range(), preset.vel_range()));
        values.insert(GEN_VEL_RANGE, vel);
        proof {
            assert forall|k: u16| (is_additive(k) || is_preset_override(k)) implies k <= 58 by {}
            assert(values@ =~= combined(inst, pre));
        }
        GeneratorSet { values }
    }

    /// The key range, `(0, 127)` when not set.
    pub fn key_range(&self) -> (r: (u8, u8))
        ensures
            r == range_of(self@, GEN_KEY_RANGE),
    {
        match self.get(GEN_KEY_RANGE) {
            Some(v) => unpack_range(v),
            None => (0, 127),
        }
    }

    /// The velocity range, `(0, 127)` when not set.
    pub fn vel_range(&self) -> (r: (u8, u8))
        ensures
            r == range_of(self@, GEN_VEL_RANGE),
    {
        match self.get(GEN_VEL_RANGE) {
            Some(v) => unpack_range(v),
            None => (0, 127),
        }
    }

    /// The overriding root key when it is set to a MIDI note.
    pub fn root_key(&self) -> (r: Option<u8>)
        ensures
            r == if self@.contains_key(GEN_OVERRIDING_ROOT_KEY) && 0 <= self@[GEN_OVERRIDING_ROOT_KEY]
                <= 127 {
                Some(self@[GEN_OVERRIDING_ROOT_KEY] as u8)
            } else {
                None::<u8>
            },
    {
        match self.get(GEN_OVERRIDING_ROOT_KEY) {
            Some(v) => {
                if 0 <= v && v <= 127 {
                    Some(v as u8)
                } else {
                    None
                }
            },
            None => None,
        }
    }

    pub fn coarse_tune(&self) -> (r: i16)
        ensures
            r == value_or(self@, GEN_COARSE_TUNE, 0),
    {
        match self.get(GEN_COARSE_TUNE) {
            Some(v) => v,
            None => 0,
        }
    }

    pub fn fine_tune(&self) -> (r: i16)
        ensures
            r == value_or(self@, GEN_FINE_TUNE, 0),
    {
        match self.get(GEN_FINE_TUNE) {
            Some(v) => v,
            None => 0,
        }
    }

    pub fn initial_attenuation_centibels(&self) -> (r: i16)
        ensures
            r == value_or(self@, GEN_INITIAL_ATTENUATION, 0),
    {
        match self.get(GEN_INITIAL_ATTENUATION) {
            Some(v) => v,
            None => 0,
        }
    }

    pub fn pan_tenths(&self) -> (r: i16)
        ensures
            r == value_or(self@, GEN_PAN, 0),
    {
        match self.get(GEN_PAN) {
            Some(v) => v,
            None => 0,
        }
    }

    pub fn sample_modes(&self) -> (r: i16)
        ensures
            r == value_or(self@, GEN_SAMPLE_MODES, 0),
    {
        match self.get(GEN_SAMPLE_MODES) {
            Some(v) => v,
            None => 0,
        }
    }

    /// Key tracking in cents per key, 100 when not set.
    pub fn scale_tuning(&self) -> (r: i16)
        ensures
            r == value_or(self@, GEN_SCALE_TUNING, 100),
    {
        match self.get(GEN_SCALE_TUNING) {
            Some(v) => v,
            None => 100,
        }
    }

    pub fn exclusive_class(&self) -> (r: i16)
        ensures
            r == value_or(self@, GEN_EXCLUSIVE_CLASS, 0),
    {
        match self.get(GEN_EXCLUSIVE_CLASS) {
            Some(v) => v,
            None => 0,
        }
    }

    /// A sample address offset: the fine part plus 32768 times the coarse part.
    pub fn offset(&self, fine: u16, coarse: u16) -> (r: i32)
        ensures
            r == value_or(self@, fine, 0) + 32768 * value_or(self@, coarse, 0),
    {
        let f = match self.get(fine) {
            Some(v) => v as i32,
            None => 0,
        };
        let c = match self.get(coarse) {
            Some(v) => v as i32,
            None => 0,
        };
        f + c * 32768
    }

    pub fn start_offset(&self) -> (r: i32)
        ensures
            r == value_or(self@, GEN_START_ADDRS_OFFSET, 0) + 32768 * value_or(
                self@,
                GEN_START_ADDRS_COARSE_OFFSET,
                0,
            ),
    {
        self.offset(GEN_START_ADDRS_OFFSET, GEN_START_ADDRS_COARSE_OFFSET)
    }

    pub fn end_offset(&self) -> (r: i32)
        ensures
            r == value_or(self@, GEN_END_ADDRS_OFFSET, 0) + 32768 * value_or(
                self@,
                GEN_END_ADDRS_COARSE_OFFSET,
                0,
            ),
    {
        self.offset(GEN_END_ADDRS_OFFSET, GEN_END_ADDRS_COARSE_OFFSET)
    }

    pub fn start_loop_offset(&self) -> (r: i32)
        ensures
            r == value_or(self@, GEN_START_LOOP_ADDRS_OFFSET, 0) + 32768 * value_or(
                self@,
                GEN_START_LOOP_ADDRS_COARSE_OFFSET,
                0,
            ),
    {
        self.offset(GEN_START_LOOP_ADDRS_OFFSET, GEN_START_LOOP_ADDRS_COARSE_OFFSET)
    }

    pub fn end_loop_offset(&self) -> (r: i32)
        ensures
            r == value_or(self@, GEN_END_LOOP_ADDRS_OFFSET, 0) + 32768 * value_or(
                self@,
                GEN_END_LOOP_ADDRS_COARSE_OFFSET,
                0,
            ),
    {
        self.offset(GEN_END_LOOP_ADDRS_OFFSET, GEN_END_LOOP_ADDRS_COARSE_OFFSET)
    }
}

// ---------------------------------------------------------------------------
// Text fields
// ---------------------------------------------------------------------------

/// The text of a fixed-size, zero-terminated name field: the bytes before
/// the first zero (within `max_len`), decoded as UTF-8 and trimmed.
pub open spec fn field_text(data: Seq<u8>, max_len: int) -> Seq<char> {
    let len = if data.len() < max_len { data.len() as int } else { max_len };
    trim(utf8_lossy(before_nul(data.take(len))))
}

/// Reads a zero-terminated text field of at most `max_len` bytes.
pub fn read_null_terminated(data: &[u8], max_len: usize) -> (r: String)
    ensures
        r@ == field_text(data@, max_len as int),
{
    let len = if data.len() < max_len { data.len() } else { max_len };
    let field = &data[0..len];
    assert(field@ == data@.take(len as int));
    let end = find_nul(field);
    proof { crate::common::byte_reader::lemma_first_nul(field@); }
    let text_bytes = &field[0..end];
    assert(text_bytes@ == before_nul(field@));
    let decoded = decode_utf8_lossy(text_bytes);
    let chars = chars_of(decoded.as_str());
    let trimmed = trim_chars(chars.as_slice());
    string_from_chars(trimmed.as_slice())
}

// ---------------------------------------------------------------------------
// Preset data records
// ---------------------------------------------------------------------------

/// A `phdr` record.
pub struct PresetHeader {
    pub name: String,
    pub preset: u16,
    pub bank: u16,
    pub preset_bag_ndx: u16,
    pub library: u32,
    pub genre: u32,
    pub morphology: u32,
}

/// A `pbag` or `ibag` record: where a zone's generators and modulators start.
pub struct Bag {
    pub gen_ndx: u16,
    pub mod_ndx: u16,
}

/// A `pgen` or `igen` record.
pub struct Generator {
    pub op: u16,
    pub amount: i16,
}

/// A `pmod` or `imod` record.
pub struct Modulator {
    pub src_oper: u16,
    pub dest_oper: u16,
    pub amount: i16,
    pub amt_src_oper: u16,
    pub trans_oper: u16,
}

/// An `inst` record.
pub struct Instrument {
    pub name: String,
    pub inst_bag_ndx: u16,
}

/// An `shdr` record.
pub struct SampleHeader {
    pub name: String,
    pub start: u32,
    pub end: u32,
    pub start_loop: u32,
    pub end_loop: u32,
    pub sample_rate: u32,
    pub original_key: u8,
    pub correction: i8,
    pub sample_link: u16,
    pub sample_type: u16,
}

pub const PHDR_SIZE: usize = 38;
pub const BAG_SIZE: usize = 4;
pub const GEN_SIZE: usize = 4;
pub const MOD_SIZE: usize = 10;
pub const INST_SIZE: usize = 22;
pub const SHDR_SIZE: usize = 46;

impl PresetHeader {
    pub open spec fn decodes(&self, rec: Seq<u8>) -> bool {
        &&& rec.len() == PHDR_SIZE
        &&& self.name@ == field_text(rec.take(20), 20)
        &&& self.preset == u16_at(rec, 20)
        &&& self.bank == u16_at(rec, 22)
        &&& self.preset_bag_ndx == u16_at(rec, 24)
        &&& self.library == u32_at(rec, 26)
        &&& self.genre == u32_at(rec, 30)
        &&& self.morphology == u32_at(rec, 34)
    }
}

impl Bag {
    pub open spec fn decodes(&self, rec: Seq<u8>) -> bool {
        &&& rec.len() == BAG_SIZE
        &&& self.gen_ndx == u16_at(rec, 0)
        &&& self.mod_ndx == u16_at(rec, 2)
    }
}

impl Generator {
    pub open spec fn decodes(&self, rec: Seq<u8>) -> bool {
        &&& rec.len() == GEN_SIZE
        &&& self.op == u16_at(rec, 0)
        &&& self.amount == as_signed16(u16_at(rec, 2))
    }
}

impl Modulator {
    pub open spec fn decodes(&self, rec: Seq<u8>) -> bool {
        &&& rec.len() == MOD_SIZE
        &&& self.src_oper == u16_at(rec, 0)
        &&& self.dest_oper == u16_at(rec, 2)
        &&& self.amount == as_signed16(u16_at(rec, 4))
        &&& self.amt_src_oper == u16_at(rec, 6)
        &&& self.trans_oper == u16_at(rec, 8)
    }
}

impl Instrument {
    pub open spec fn decodes(&self, rec: Seq<u8>) -> bool {
        &&& rec.len() == INST_SIZE
        &&& self.name@ == field_text(rec.take(20), 20)
        &&& self.inst_bag_ndx == u16_at(rec, 20)
    }
}

impl SampleHeader {
    pub open spec fn decodes(&self, rec: Seq<u8>) -> bool {
        &&& rec.len() == SHDR_SIZE
        &&& self.name@ == field_text(rec.take(20), 20)
        &&& self.start == u32_at(rec, 20)
        &&& self.end == u32_at(rec, 24)
        &&& self.start_loop == u32_at(rec, 28)
        &&& self.end_loop == u32_at(rec, 32)
        &&& self.sample_rate == u32_at(rec, 36)
        &&& self.original_key == rec[40]
        &&& self.correction == as_signed8(rec[41] as int)
        &&& self.sample_link == u16_at(rec, 42)
        &&& self.sample_type == u16_at(rec, 44)
    }
}

fn decode_preset_header(rec: &[u8]) -> (r: PresetHeader)
    requires
        rec@.len() == PHDR_SIZE,
    ensures
        r.decodes(rec@),
{
    let name = read_null_terminated(&rec[0..20], 20);
    assert(rec@.subrange(0, 20) == rec@.take(20));
    PresetHeader {
        name,
        preset: get_u16(rec, 20),
        bank: get_u16(rec, 22),
        preset_bag_ndx: get_u16(rec, 24),
        library: get_u32(rec, 26),
        genre: get_u32(rec, 30),
        morphology: get_u32(rec, 34),
    }
}

fn decode_bag(rec: &[u8]) -> (r: Bag)
    requires
        rec@.len() == BAG_SIZE,
    ensures
        r.decodes(rec@),
{
    Bag { gen_ndx: get_u16(rec, 0), mod_ndx: get_u16(rec, 2) }
}

fn decode_generator(rec: &[u8]) -> (r: Generator)
    requires
        rec@.len() == GEN_SIZE,
    ensures
        r.decodes(rec@),
{
    Generator { op: get_u16(rec, 0), amount: u16_to_i16(get_u16(rec, 2)) }
}

fn decode_modulator(rec: &[u8]) -> (r: Modulator)
    requires
        rec@.len() == MOD_SIZE,
    ensures
        r.decodes(rec@),
{
    Modulator {
        src_oper: get_u16(rec, 0),
        dest_oper: get_u16(rec, 2),
        amount: u16_to_i16(get_u16(rec, 4)),
        amt_src_oper: get_u16(rec, 6),
        trans_oper: get_u16(rec, 8),
    }
}

fn decode_instrument(rec: &[u8]) -> (r: Instrument)
    requires
        rec@.len() == INST_SIZE,
    ensures
        r.decodes(rec@),
{
    let name = read_null_terminated(&rec[0..20], 20);
    assert(rec@.subrange(0, 20) == rec@.take(20));
    Instrument { name, inst_bag_ndx: get_u16(rec, 20) }
}

fn decode_sample_header(rec: &[u8]) -> (r: SampleHeader)
    requires
        rec@.len() == SHDR_SIZE,
    ensures
        r.decodes(rec@),
{
    let name = read_null_terminated(&rec[0..20], 20);
    assert(rec@.subrange(0, 20) == rec@.take(20));
    SampleHeader {
        name,
        start: get_u32(rec, 20),
        end: get_u32(rec, 24),
        start_loop: get_u32(rec, 28),
        end_loop: get_u32(rec, 32),
        sample_rate: get_u32(rec, 36),
        original_key: rec[40],
        correction: u8_to_i8(rec[41]),
        sample_link: get_u16(rec, 42),
        sample_type: get_u16(rec, 44),
    }
}

/// Appends the decoded whole `PresetHeader` records of `body` to `out`.
fn push_preset_headers(body: &[u8], out: &mut Vec<PresetHeader>)
    ensures
        final(out)@.len() == old(out)@.len() + records(body@, PHDR_SIZE as int).len(),
        forall|j: int| 0 <= j < old(out)@.len() ==> final(out)@[j] == old(out)@[j],
        forall|j: int|
            0 <= j < records(body@, PHDR_SIZE as int).len() ==> #[trigger] final(out)@[old(out)@.len() + j].decodes(
                records(body@, PHDR_SIZE as int)[j],
            ),
        final(out)@ == old(out)@ + final(out)@.skip(old(out)@.len() as int),
        decoded_as(final(out)@.skip(old(out)@.len() as int), records(body@, PHDR_SIZE as int), |x: PresetHeader, b: Seq<u8>| x.decodes(b)),
{
    let ghost out0 = out@;
    let ghost recs = records(body@, PHDR_SIZE as int);
    let mut pos: usize = 0;
    let ghost mut i: int = 0;
    while body.len() - pos >= PHDR_SIZE
        invariant
            pos <= body@.len(),
            pos == PHDR_SIZE * i,
            0 <= i <= recs.len(),
            recs == records(body@, PHDR_SIZE as int),
            out@.len() == out0.len() + i,
            forall|j: int| 0 <= j < out0.len() ==> out@[j] == out0[j],
            forall|j: int| 0 <= j < i ==> #[trigger] out@[out0.len() + j].decodes(recs[j]),
        decreases body@.len() - pos,
    {
        let rec = &body[pos..pos + PHDR_SIZE];
        assert(rec@ == recs[i]);
        out.push(decode_preset_header(rec));
        pos = pos + PHDR_SIZE;
        proof {
            i = i + 1;
        }
    }
    proof {
        let added = out@.skip(out0.len() as int);
        assert(out@ =~= out0 + added);
        assert forall|j: int| 0 <= j < recs.len() implies #[trigger] added[j].decodes(recs[j]) by {
            assert(added[j] == out@[out0.len() + j]);
        }
    }
}

/// Appends the decoded whole `Bag` records of `body` to `out`.
fn push_bags(body: &[u8], out: &mut Vec<Bag>)
    ensures
        final(out)@.len() == old(out)@.len() + records(body@, BAG_SIZE as int).len(),
        forall|j: int| 0 <= j < old(out)@.len() ==> final(out)@[j] == old(out)@[j],
        forall|j: int|
            0 <= j < records(body@, BAG_SIZE as int).len() ==> #[trigger] final(out)@[old(out)@.len() + j].decodes(
                records(body@, BAG_SIZE as int)[j],
            ),
        final(out)@ == old(out)@ + final(out)@.skip(old(out)@.len() as int),
        decoded_as(final(out)@.skip(old(out)@.len() as int), records(body@, BAG_SIZE as int), |x: Bag, b: Seq<u8>| x.decodes(b)),
{
    let ghost out0 = out@;
    let ghost recs = records(body@, BAG_SIZE as int);
    let mut pos: usize = 0;
    let ghost mut i: int = 0;
    while body.len() - pos >= BAG_SIZE
        invariant
            pos <= body@.len(),
            pos == BAG_SIZE * i,
            0 <= i <= recs.len(),
            recs == records(body@, BAG_SIZE as int),
            out@.len() == out0.len() + i,
            forall|j: int| 0 <= j < out0.len() ==> out@[j] == out0[j],
            forall|j: int| 0 <= j < i ==> #[trigger] out@[out0.len() + j].decodes(recs[j]),
        decreases body@.len() - pos,
    {
        let rec = &body[pos..pos + BAG_SIZE];
        assert(rec@ == recs[i]);
        out.push(decode_bag(rec));
        pos = pos + BAG_SIZE;
        proof {
            i = i + 1;
        }
    }
    proof {
        let added = out@.skip(out0.len() as int);
        assert(out@ =~= out0 + added);
        assert forall|j: int| 0 <= j < recs.len() implies #[trigger] added[j].decodes(recs[j]) by {
            assert(added[j] == out@[out0.len() + j]);
        }
    }
}

/// Appends the decoded whole `Generator` records of `body` to `out`.
fn push_generators(body: &[u8], out: &mut Vec<Generator>)
    ensures
        final(out)@.len() == old(out)@.len() + records(body@, GEN_SIZE as int).len(),
        forall|j: int| 0 <= j < old(out)@.len() ==> final(out)@[j] == old(out)@[j],
        forall|j: int|
            0 <= j < records(body@, GEN_SIZE as int).len() ==> #[trigger] final(out)@[old(out)@.len() + j].decodes(
                records(body@, GEN_SIZE as int)[j],
            ),
        final(out)@ == old(out)@ + final(out)@.skip(old(out)@.len() as int),
        decoded_as(final(out)@.skip(old(out)@.len() as int), records(body@, GEN_SIZE as int), |x: Generator, b: Seq<u8>| x.decodes(b)),
{
    let ghost out0 = out@;
    let ghost recs = records(body@, GEN_SIZE as int);
    let mut pos: usize = 0;
    let ghost mut i: int = 0;
    while body.len() - pos >= GEN_SIZE
        invariant
            pos <= body@.len(),
            pos == GEN_SIZE * i,
            0 <= i <= recs.len(),
            recs == records(body@, GEN_SIZE as int),
            out@.len() == out0.len() + i,
            forall|j: int| 0 <= j < out0.len() ==> out@[j] == out0[j],
            forall|j: int| 0 <= j < i ==> #[trigger] out@[out0.len() + j].decodes(recs[j]),
        decreases body@.len() - pos,
    {
        let rec = &body[pos..pos + GEN_SIZE];
        assert(rec@ == recs[i]);
        out.push(decode_generator(rec));
        pos = pos + GEN_SIZE;
        proof {
            i = i + 1;
        }
    }
    proof {
        let added = out@.skip(out0.len() as int);
        assert(out@ =~= out0 + added);
        assert forall|j: int| 0 <= j < recs.len() implies #[trigger] added[j].decodes(recs[j]) by {
            assert(added[j] == out@[out0.len() + j]);
        }
    }
}

/// Appends the decoded whole `Modulator` records of `body` to `out`.
fn push_modulators(body: &[u8], out: &mut Vec<Modulator>)
    ensures
        final(out)@.len() == old(out)@.len() + records(body@, MOD_SIZE as int).len(),
        forall|j: int| 0 <= j < old(out)@.len() ==> final(out)@[j] == old(out)@[j],
        forall|j: int|
            0 <= j < records(body@, MOD_SIZE as int).len() ==> #[trigger] final(out)@[old(out)@.len() + j].decodes(
                records(body@, MOD_SIZE as int)[j],
            ),
        final(out)@ == old(out)@ + final(out)@.skip(old(out)@.len() as int),
        decoded_as(final(out)@.skip(old(out)@.len() as int), records(body@, MOD_SIZE as int), |x: Modulator, b: Seq<u8>| x.decodes(b)),
{
    let ghost out0 = out@;
    let ghost recs = records(body@, MOD_SIZE as int);
    let mut pos: usize = 0;
    let ghost mut i: int = 0;
    while body.len() - pos >= MOD_SIZE
        invariant
            pos <= body@.len(),
            pos == MOD_SIZE * i,
            0 <= i <= recs.len(),
            recs == records(body@, MOD_SIZE as int),
            out@.len() == out0.len() + i,
            forall|j: int| 0 <= j < out0.len() ==> out@[j] == out0[j],
            forall|j: int| 0 <= j < i ==> #[trigger] out@[out0.len() + j].decodes(recs[j]),
        decreases body@.len() - pos,
    {
        let rec = &body[pos..pos + MOD_SIZE];
        assert(rec@ == recs[i]);
        out.push(decode_modulator(rec));
        pos = pos + MOD_SIZE;
        proof {
            i = i + 1;
        }
    }
    proof {
        let added = out@.skip(out0.len() as int);
        assert(out@ =~= out0 + added);
        assert forall|j: int| 0 <= j < recs.len() implies #[trigger] added[j].decodes(recs[j]) by {
            assert(added[j] == out@[out0.len() + j]);
        }
    }
}

/// Appends the decoded whole `Instrument` records of `body` to `out`.
fn push_instruments(body: &[u8], out: &mut Vec<Instrument>)
    ensures
        final(out)@.len() == old(out)@.len() + records(body@, INST_SIZE as int).len(),
        forall|j: int| 0 <= j < old(out)@.len() ==> final(out)@[j] == old(out)@[j],
        forall|j: int|
            0 <= j < records(body@, INST_SIZE as int).len() ==> #[trigger] final(out)@[old(out)@.len() + j].decodes(
                records(body@, INST_SIZE as int)[j],
            ),
        final(out)@ == old(out)@ + final(out)@.skip(old(out)@.len() as int),
        decoded_as(final(out)@.skip(old(out)@.len() as int), records(body@, INST_SIZE as int), |x: Instrument, b: Seq<u8>| x.decodes(b)),
{
    let ghost out0 = out@;
    let ghost recs = records(body@, INST_SIZE as int);
    let mut pos: usize = 0;
    let ghost mut i: int = 0;
    while body.len() - pos >= INST_SIZE
        invariant
            pos <= body@.len(),
            pos == INST_SIZE * i,
            0 <= i <= recs.len(),
            recs == records(body@, INST_SIZE as int),
            out@.len() == out0.len() + i,
            forall|j: int| 0 <= j < out0.len() ==> out@[j] == out0[j],
            forall|j: int| 0 <= j < i ==> #[trigger] out@[out0.len() + j].decodes(recs[j]),
        decreases body@.len() - pos,
    {
        let rec = &body[pos..pos + INST_SIZE];
        assert(rec@ == recs[i]);
        out.push(decode_instrument(rec));
        pos = pos + INST_SIZE;
        proof {
            i = i + 1;
        }
    }
    proof {
        let added = out@.skip(out0.len() as int);
        assert(out@ =~= out0 + added);
        assert forall|j: int| 0 <= j < recs.len() implies #[trigger] added[j].decodes(recs[j]) by {
            assert(added[j] == out@[out0.len() + j]);
        }
    }
}

/// Appends the decoded whole `SampleHeader` records of `body` to `out`.
fn push_sample_headers(body: &[u8], out: &mut Vec<SampleHeader>)
    ensures
        final(out)@.len() == old(out)@.len() + records(body@, SHDR_SIZE as int).len(),
        forall|j: int| 0 <= j < old(out)@.len() ==> final(out)@[j] == old(out)@[j],
        forall|j: int|
            0 <= j < records(body@, SHDR_SIZE as int).len() ==> #[trigger] final(out)@[old(out)@.len() + j].decodes(
                records(body@, SHDR_SIZE as int)[j],
            ),
        final(out)@ == old(out)@ + final(out)@.skip(old(out)@.len() as int),
        decoded_as(final(out)@.skip(old(out)@.len() as int), records(body@, SHDR_SIZE as int), |x: SampleHeader, b: Seq<u8>| x.decodes(b)),
{
    let ghost out0 = out@;
    let ghost recs = records(body@, SHDR_SIZE as int);
    let mut pos: usize = 0;
    let ghost mut i: int = 0;
    while body.len() - pos >= SHDR_SIZE
        invariant
            pos <= body@.len(),
            pos == SHDR_SIZE * i,
            0 <= i <= recs.len(),
            recs == records(body@, SHDR_SIZE as int),
            out@.len() == out0.len() + i,
            forall|j: int| 0 <= j < out0.len() ==> out@[j] == out0[j],
            forall|j: int| 0 <= j < i ==> #[trigger] out@[out0.len() + j].decodes(recs[j]),
        decreases body@.len() - pos,
    {
        let rec = &body[pos..pos + SHDR_SIZE];
        assert(rec@ == recs[i]);
        out.push(decode_sample_header(rec));
        pos = pos + SHDR_SIZE;
        proof {
            i = i + 1;
        }
    }
    proof {
        let added = out@.skip(out0.len() as int);
        assert(out@ =~= out0 + added);
        assert forall|j: int| 0 <= j < recs.len() implies #[trigger] added[j].decodes(recs[j]) by {
            assert(added[j] == out@[out0.len() + j]);
        }
    }
}

/// `v` holds one element per record of `r`, each decoded from its record.
pub open spec fn decoded_as<T>(v: Seq<T>, r: Seq<Seq<u8>>, dec: spec_fn(T, Seq<u8>) -> bool) -> bool {
    &&& v.len() == r.len()
    &&& forall|i: int| 0 <= i < r.len() ==> #[trigger] dec(v[i], r[i])
}

proof fn lemma_decoded_concat<T>(
    a: Seq<T>,
    ra: Seq<Seq<u8>>,
    b: Seq<T>,
    rb: Seq<Seq<u8>>,
    dec: spec_fn(T, Seq<u8>) -> bool,
)
    requires
        decoded_as(a, ra, dec),
        decoded_as(b, rb, dec),
    ensures
        decoded_as(a + b, ra + rb, dec),
{
    assert forall|i: int| 0 <= i < (ra + rb).len() implies #[trigger] dec((a + b)[i], (ra + rb)[i]) by {
        if i >= ra.len() {
            assert(dec(b[i - ra.len()], rb[i - ra.len()]));
        } else {
            assert(dec(a[i], ra[i]));
        }
    }
}

/// The raw records of a `pdta` list, by kind, in file order.
#[verifier::ext_equal]
pub ghost struct PdtaRecords {
    pub phdr: Seq<Seq<u8>>,
    pub pbag: Seq<Seq<u8>>,
    pub pgen: Seq<Seq<u8>>,
    pub pmod: Seq<Seq<u8>>,
    pub inst: Seq<Seq<u8>>,
    pub ibag: Seq<Seq<u8>>,
    pub igen: Seq<Seq<u8>>,
    pub imod: Seq<Seq<u8>>,
    pub shdr: Seq<Seq<u8>>,
}

pub open spec fn no_records() -> PdtaRecords {
    PdtaRecords {
        phdr: Seq::empty(),
        pbag: Seq::empty(),
        pgen: Seq::empty(),
        pmod: Seq::empty(),
        inst: Seq::empty(),
        ibag: Seq::empty(),
        igen: Seq::empty(),
        imod: Seq::empty(),
        shdr: Seq::empty(),
    }
}

pub open spec fn join_records(a: PdtaRecords, b: PdtaRecords) -> PdtaRecords {
    PdtaRecords {
        phdr: a.phdr + b.phdr,
        pbag: a.pbag + b.pbag,
        pgen: a.pgen + b.pgen,
        pmod: a.pmod + b.pmod,
        inst: a.inst + b.inst,
        ibag: a.ibag + b.ibag,
        igen: a.igen + b.igen,
        imod: a.imod + b.imod,
        shdr: a.shdr + b.shdr,
    }
}

/// The records one sub-chunk of `pdta` contributes, or `None` when the chunk
/// is malformed: a `phdr` shorter than one record, or another record chunk
/// whose size is not a whole number of records. Unknown chunks add nothing.
pub open spec fn chunk_records(id: Seq<u8>, body: Seq<u8>) -> Option<PdtaRecords> {
    let e = no_records();
    if id == fourcc(0x70, 0x68, 0x64, 0x72) {
        if body.len() < PHDR_SIZE { None } else { Some(PdtaRecords { phdr: records(body, PHDR_SIZE as int), ..e }) }
    } else if id == fourcc(0x70, 0x62, 0x61, 0x67) {
        if body.len() % 4 != 0 { None } else { Some(PdtaRecords { pbag: records(body, 4), ..e }) }
    } else if id == fourcc(0x70, 0x67, 0x65, 0x6e) {
        if body.len() % 4 != 0 { None } else { Some(PdtaRecords { pgen: records(body, 4), ..e }) }
    } else if id == fourcc(0x70, 0x6d, 0x6f, 0x64) {
        if body.len() % 10 != 0 { None } else { Some(PdtaRecords { pmod: records(body, 10), ..e }) }
    } else if id == fourcc(0x69, 0x6e, 0x73, 0x74) {
        if body.len() % 22 != 0 { None } else { Some(PdtaRecords { inst: records(body, 22), ..e }) }
    } else if id == fourcc(0x69, 0x62, 0x61, 0x67) {
        if body.len() % 4 != 0 { None } else { Some(PdtaRecords { ibag: records(body, 4), ..e }) }
    } else if id == fourcc(0x69, 0x67, 0x65, 0x6e) {
        if body.len() % 4 != 0 { None } else { Some(PdtaRecords { igen: records(body, 4), ..e }) }
    } else if id == fourcc(0x69, 0x6d, 0x6f, 0x64) {
        if body.len() % 10 != 0 { None } else { Some(PdtaRecords { imod: records(body, 10), ..e }) }
    } else if id == fourcc(0x73, 0x68, 0x64, 0x72) {
        if body.len() % 46 != 0 { None } else { Some(PdtaRecords { shdr: records(body, 46), ..e }) }
    } else {
        Some(e)
    }
}

/// The records of a `pdta` payload: its sub-chunks in order (an 8-byte
/// header, identifier and little-endian size, then the body), until fewer
/// than 8 bytes remain. `None` when a body runs past the end or a chunk is
/// malformed.
pub open spec fn pdta_walk(s: Seq<u8>) -> Option<PdtaRecords>
    decreases s.len(),
{
    if s.len() < 8 {
        Some(no_records())
    } else {
        let size = u32_at(s, 4);
        if 8 + size > s.len() {
            None
        } else {
            match (
                chunk_records(s.take(4), s.subrange(8, 8 + size)),
                pdta_walk(s.subrange(8 + size, s.len() as int)),
            ) {
                (Some(head), Some(rest)) => Some(join_records(head, rest)),
                _ => None,
            }
        }
    }
}

/// `acc` followed by the records of `rest`, or `None` when `rest` fails.
pub open spec fn after(acc: PdtaRecords, rest: Option<PdtaRecords>) -> Option<PdtaRecords> {
    match rest {
        Some(r) => Some(join_records(acc, r)),
        None => None,
    }
}

/// The parsed `pdta` list of a SoundFont.
pub struct Pdta {
    pub presets: Vec<PresetHeader>,
    pub preset_bags: Vec<Bag>,
    pub preset_gens: Vec<Generator>,
    pub preset_mods: Vec<Modulator>,
    pub instruments: Vec<Instrument>,
    pub inst_bags: Vec<Bag>,
    pub inst_gens: Vec<Generator>,
    pub inst_mods: Vec<Modulator>,
    pub sample_headers: Vec<SampleHeader>,
}

impl Pdta {
    /// Every list holds exactly the decoded records of `r`.
    pub open spec fn holds(&self, r: PdtaRecords) -> bool {
        &&& decoded_as(self.presets@, r.phdr, |x: PresetHeader, b: Seq<u8>| x.decodes(b))
        &&& decoded_as(self.preset_bags@, r.pbag, |x: Bag, b: Seq<u8>| x.decodes(b))
        &&& decoded_as(self.preset_gens@, r.pgen, |x: Generator, b: Seq<u8>| x.decodes(b))
        &&& decoded_as(self.preset_mods@, r.pmod, |x: Modulator, b: Seq<u8>| x.decodes(b))
        &&& decoded_as(self.instruments@, r.inst, |x: Instrument, b: Seq<u8>| x.decodes(b))
        &&& decoded_as(self.inst_bags@, r.ibag, |x: Bag, b: Seq<u8>| x.decodes(b))
        &&& decoded_as(self.inst_gens@, r.igen, |x: Generator, b: Seq<u8>| x.decodes(b))
        &&& decoded_as(self.inst_mods@, r.imod, |x: Modulator, b: Seq<u8>| x.decodes(b))
        &&& decoded_as(self.sample_headers@, r.shdr, |x: SampleHeader, b: Seq<u8>| x.decodes(b))
    }

    /// Parses the payload of a `pdta` list.
    pub fn parse(data: &[u8]) -> (r: Result<Pdta, String>)
        ensures
            r is Ok <==> pdta_walk(data@) is Some,
            r is Ok ==> r->Ok_0.holds(pdta_walk(data@)->Some_0),
    {
        let mut pdta = Pdta {
            presets: Vec::new(),
            preset_bags: Vec::new(),
            preset_gens: Vec::new(),
            preset_mods: Vec::new(),
            instruments: Vec::new(),
            inst_bags: Vec::new(),
            inst_gens: Vec::new(),
            inst_mods: Vec::new(),
            sample_headers: Vec::new(),
        };
        let mut reader = ByteReader::new(data);
        let ghost mut acc = no_records();
        let n = data.len();
        proof {
            assert(data@.subrange(0, n as int) =~= data@);
            lemma_join_none(pdta_walk(data@));
        }
        while n - reader.pos >= 8
            invariant
                reader.wf(),
                reader.data@ == data@,
                n == data@.len(),
                pdta_walk(data@) == after(acc, pdta_walk(data@.subrange(reader.pos as int, n as int))),
                pdta.holds(acc),
            decreases n - reader.pos,
        {
            let ghost p0 = reader.pos as int;
            let ghost tail = data@.subrange(p0, n as int);
            let id = reader.read_fourcc()?;
            let size = reader.read_u32()?;
            assert(size == u32_at(tail, 4));
            assert(id@ == tail.take(4));
            let body = match reader.read_bytes(size as usize) {
                Ok(b) => b,
                Err(e) => {
                    assert(8 + size > tail.len());
                    return Err(e);
                },
            };
            assert(body@ == tail.subrange(8, 8 + size));
            assert(data@.subrange(reader.pos as int, n as int) == tail.subrange(8 + size, tail.len() as int));
            let ghost head = chunk_records(id@, body@);
            let ghost old_pdta = pdta;
            if fourcc_is(&id, 0x70, 0x68, 0x64, 0x72) {
                if body.len() < PHDR_SIZE {
                    return Err(String::from_str("phdr chunk too small"));
                }
                push_preset_headers(body, &mut pdta.presets);
            } else if fourcc_is(&id, 0x70, 0x62, 0x61, 0x67) {
                if body.len() % 4 != 0 {
                    return Err(String::from_str("pbag chunk size not a multiple of 4"));
                }
                push_bags(body, &mut pdta.preset_bags);
            } else if fourcc_is(&id, 0x70, 0x67, 0x65, 0x6e) {
                if body.len() % 4 != 0 {
                    return Err(String::from_str("pgen chunk size not a multiple of 4"));
                }
                push_generators(body, &mut pdta.preset_gens);
            } else if fourcc_is(&id, 0x70, 0x6d, 0x6f, 0x64) {
                if body.len() % 10 != 0 {
                    return Err(String::from_str("pmod chunk size not a multiple of 10"));
                }
                push_modulators(body, &mut pdta.preset_mods);
            } else if fourcc_is(&id, 0x69, 0x6e, 0x73, 0x74) {
                if body.len() % 22 != 0 {
                    return Err(String::from_str("inst chunk size not a multiple of 22"));
                }
                push_instruments(body, &mut pdta.instruments);
            } else if fourcc_is(&id, 0x69, 0x62, 0x61, 0x67) {
                if body.len() % 4 != 0 {
                    return Err(String::from_str("ibag chunk size not a multiple of 4"));
                }
                push_bags(body, &mut pdta.inst_bags);
            } else if fourcc_is(&id, 0x69, 0x67, 0x65, 0x6e) {
                if body.len() % 4 != 0 {
                    return Err(String::from_str("igen chunk size not a multiple of 4"));
                }
                push_generators(body, &mut pdta.inst_gens);
            } else if fourcc_is(&id, 0x69, 0x6d, 0x6f, 0x64) {
                if body.len() % 10 != 0 {
                    return Err(String::from_str("imod chunk size not a multiple of 10"));
                }
                push_modulators(body, &mut pdta.inst_mods);
            } else if fourcc_is(&id, 0x73, 0x68, 0x64, 0x72) {
                if body.len() % 46 != 0 {
                    return Err(String::from_str("shdr chunk size not a multiple of 46"));
                }
                push_sample_headers(body, &mut pdta.sample_headers);
            }
            proof {
                let h = head->Some_0;
                lemma_join_assoc(acc, h, pdta_walk(data@.subrange(reader.pos as int, n as int)));
                lemma_holds_join(old_pdta, pdta, acc, h);
                acc = join_records(acc, h);
            }
        }
        proof {
            let rest = data@.subrange(reader.pos as int, n as int);
            assert(pdta_walk(rest) == Some(no_records()));
            assert(join_records(acc, no_records()) =~= acc);
        }
        Ok(pdta)
    }
}

/// Each list of `new` is the same list of `old` followed by elements
/// decoded from the matching records of `h`.
pub open spec fn extends_by(old: Pdta, new: Pdta, h: PdtaRecords) -> bool {
    &&& new.presets@ == old.presets@ + new.presets@.skip(old.presets@.len() as int)
    &&& decoded_as(new.presets@.skip(old.presets@.len() as int), h.phdr, |x: PresetHeader, b: Seq<u8>| x.decodes(b))
    &&& new.preset_bags@ == old.preset_bags@ + new.preset_bags@.skip(old.preset_bags@.len() as int)
    &&& decoded_as(new.preset_bags@.skip(old.preset_bags@.len() as int), h.pbag, |x: Bag, b: Seq<u8>| x.decodes(b))
    &&& new.preset_gens@ == old.preset_gens@ + new.preset_gens@.skip(old.preset_gens@.len() as int)
    &&& decoded_as(new.preset_gens@.skip(old.preset_gens@.len() as int), h.pgen, |x: Generator, b: Seq<u8>| x.decodes(b))
    &&& new.preset_mods@ == old.preset_mods@ + new.preset_mods@.skip(old.preset_mods@.len() as int)
    &&& decoded_as(new.preset_mods@.skip(old.preset_mods@.len() as int), h.pmod, |x: Modulator, b: Seq<u8>| x.decodes(b))
    &&& new.instruments@ == old.instruments@ + new.instruments@.skip(old.instruments@.len() as int)
    &&& decoded_as(new.instruments@.skip(old.instruments@.len() as int), h.inst, |x: Instrument, b: Seq<u8>| x.decodes(b))
    &&& new.inst_bags@ == old.inst_bags@ + new.inst_bags@.skip(old.inst_bags@.len() as int)
    &&& decoded_as(new.inst_bags@.skip(old.inst_bags@.len() as int), h.ibag, |x: Bag, b: Seq<u8>| x.decodes(b))
    &&& new.inst_gens@ == old.inst_gens@ + new.inst_gens@.skip(old.inst_gens@.len() as int)
    &&& decoded_as(new.inst_gens@.skip(old.inst_gens@.len() as int), h.igen, |x: Generator, b: Seq<u8>| x.decodes(b))
    &&& new.inst_mods@ == old.inst_mods@ + new.inst_mods@.skip(old.inst_mods@.len() as int)
    &&& decoded_as(new.inst_mods@.skip(old.inst_mods@.len() as int), h.imod, |x: Modulator, b: Seq<u8>| x.decodes(b))
    &&& new.sample_headers@ == old.sample_headers@ + new.sample_headers@.skip(old.sample_headers@.len() as int)
    &&& decoded_as(new.sample_headers@.skip(old.sample_headers@.len() as int), h.shdr, |x: SampleHeader, b: Seq<u8>| x.decodes(b))
}

proof fn lemma_holds_join(old: Pdta, new: Pdta, acc: PdtaRecords, h: PdtaRecords)
    requires
        old.holds(acc),
        extends_by(old, new, h),
    ensures
        new.holds(join_records(acc, h)),
{
    lemma_decoded_concat(old.presets@, acc.phdr, new.presets@.skip(old.presets@.len() as int), h.phdr, |x: PresetHeader, b: Seq<u8>| x.decodes(b));
    lemma_decoded_concat(old.preset_bags@, acc.pbag, new.preset_bags@.skip(old.preset_bags@.len() as int), h.pbag, |x: Bag, b: Seq<u8>| x.decodes(b));
    lemma_decoded_concat(old.preset_gens@, acc.pgen, new.preset_gens@.skip(old.preset_gens@.len() as int), h.pgen, |x: Generator, b: Seq<u8>| x.decodes(b));
    lemma_decoded_concat(old.preset_mods@, acc.pmod, new.preset_mods@.skip(old.preset_mods@.len() as int), h.pmod, |x: Modulator, b: Seq<u8>| x.decodes(b));
    lemma_decoded_concat(old.instruments@, acc.inst, new.instruments@.skip(old.instruments@.len() as int), h.inst, |x: Instrument, b: Seq<u8>| x.decodes(b));
    lemma_decoded_concat(old.inst_bags@, acc.ibag, new.inst_bags@.skip(old.inst_bags@.len() as int), h.ibag, |x: Bag, b: Seq<u8>| x.decodes(b));
    lemma_decoded_concat(old.inst_gens@, acc.igen, new.inst_gens@.skip(old.inst_gens@.len() as int), h.igen, |x: Generator, b: Seq<u8>| x.decodes(b));
    lemma_decoded_concat(old.inst_mods@, acc.imod, new.inst_mods@.skip(old.inst_mods@.len() as int), h.imod, |x: Modulator, b: Seq<u8>| x.decodes(b));
    lemma_decoded_concat(old.sample_headers@, acc.shdr, new.sample_headers@.skip(old.sample_headers@.len() as int), h.shdr, |x: SampleHeader, b: Seq<u8>| x.decodes(b));
}

/// One sub-chunk of a `pdta` list as it stands in the file: a 4-byte
/// identifier, a 4-byte little-endian size and the body.
pub ghost struct RawChunk {
    pub id: Seq<u8>,
    pub size: Seq<u8>,
    pub body: Seq<u8>,
}

/// Whether a sub-chunk is complete: a 4-byte identifier and a size field
/// that reads as the body's length.
pub open spec fn complete_chunk(c: RawChunk) -> bool {
    c.id.len() == 4 && c.size.len() == 4 && u32_at(c.size, 0) == c.body.len()
}

/// The bytes of sub-chunks one after another, with no padding.
pub open spec fn chunks_bytes(cs: Seq<RawChunk>) -> Seq<u8>
    decreases cs.len(),
{
    if cs.len() == 0 {
        Seq::empty()
    } else {
        cs[0].id + cs[0].size + cs[0].body + chunks_bytes(cs.drop_first())
    }
}

/// The records of sub-chunks, or `None` when one of them is malformed.
pub open spec fn chunks_records(cs: Seq<RawChunk>) -> Option<PdtaRecords>
    decreases cs.len(),
{
    if cs.len() == 0 {
        Some(no_records())
    } else {
        match (chunk_records(cs[0].id, cs[0].body), chunks_records(cs.drop_first())) {
            (Some(head), Some(rest)) => Some(join_records(head, rest)),
            _ => None,
        }
    }
}

/// The number of whole `size`-byte records in the sub-chunks named `tag`.
pub open spec fn tag_count(cs: Seq<RawChunk>, tag: Seq<u8>, size: int) -> int
    decreases cs.len(),
{
    if cs.len() == 0 {
        0
    } else {
        (if cs[0].id == tag { (cs[0].body.len() as int) / size } else { 0 }) + tag_count(cs.drop_first(), tag, size)
    }
}

proof fn lemma_walk_chunks(cs: Seq<RawChunk>)
    requires
        forall|k: int| 0 <= k < cs.len() ==> complete_chunk(#[trigger] cs[k]),
    ensures
        pdta_walk(chunks_bytes(cs)) == chunks_records(cs),
    decreases cs.len(),
{
    if cs.len() > 0 {
        let c = cs[0];
        assert(complete_chunk(cs[0]));
        let rest = cs.drop_first();
        assert forall|k: int| 0 <= k < rest.len() implies complete_chunk(#[trigger] rest[k]) by {
            assert(rest[k] == cs[k + 1]);
        }
        lemma_walk_chunks(rest);
        let s = chunks_bytes(cs);
        let t = chunks_bytes(rest);
        let n = c.body.len() as int;
        assert(s == c.id + c.size + c.body + t);
        assert(s.len() == 8 + n + t.len());
        assert(s[4] == c.size[0] && s[5] == c.size[1] && s[6] == c.size[2] && s[7] == c.size[3]);
        assert(u32_at(s, 4) == n);
        assert(s.take(4) =~= c.id);
        assert(s.subrange(8, 8 + n) =~= c.body);
        assert(s.subrange(8 + n, s.len() as int) =~= t);
    }
}

proof fn lemma_records_counts(cs: Seq<RawChunk>)
    requires
        chunks_records(cs) is Some,
    ensures
        ({
            let r = chunks_records(cs)->Some_0;
            &&& r.phdr.len() == tag_count(cs, fourcc(0x70, 0x68, 0x64, 0x72), PHDR_SIZE as int)
            &&& r.pbag.len() == tag_count(cs, fourcc(0x70, 0x62, 0x61, 0x67), 4)
            &&& r.pgen.len() == tag_count(cs, fourcc(0x70, 0x67, 0x65, 0x6e), 4)
            &&& r.pmod.len() == tag_count(cs, fourcc(0x70, 0x6d, 0x6f, 0x64), 10)
            &&& r.inst.len() == tag_count(cs, fourcc(0x69, 0x6e, 0x73, 0x74), 22)
            &&& r.ibag.len() == tag_count(cs, fourcc(0x69, 0x62, 0x61, 0x67), 4)
            &&& r.igen.len() == tag_count(cs, fourcc(0x69, 0x67, 0x65, 0x6e), 4)
            &&& r.imod.len() == tag_count(cs, fourcc(0x69, 0x6d, 0x6f, 0x64), 10)
            &&& r.shdr.len() == tag_count(cs, fourcc(0x73, 0x68, 0x64, 0x72), 46)
        }),
    decreases cs.len(),
{
    if cs.len() > 0 {
        lemma_records_counts(cs.drop_first());
    }
}

proof fn lemma_records_fail(cs: Seq<RawChunk>)
    ensures
        chunks_records(cs) is None <==> exists|k: int| 0 <= k < cs.len() && chunk_records(#[trigger] cs[k].id, cs[k].body) is None,
    decreases cs.len(),
{
    if cs.len() > 0 {
        let rest = cs.drop_first();
        lemma_records_fail(rest);
        if chunks_records(rest) is None {
            let k = choose|k: int| 0 <= k < rest.len() && chunk_records(#[trigger] rest[k].id, rest[k].body) is None;
            assert(cs[k + 1] == rest[k]);
        }
        if exists|k: int| 0 <= k < cs.len() && chunk_records(#[trigger] cs[k].id, cs[k].body) is None {
            let k = choose|k: int| 0 <= k < cs.len() && chunk_records(#[trigger] cs[k].id, cs[k].body) is None;
            if k > 0 {
                assert(rest[k - 1] == cs[k]);
            }
        }
    }
}

/// For a `pdta` payload made of complete sub-chunks and nothing else,
/// parsing fails exactly when some sub-chunk is malformed (a `phdr` shorter
/// than 38 bytes, a `pbag`/`pgen`/`ibag`/`igen` not a multiple of 4, a
/// `pmod`/`imod` not a multiple of 10, an `inst` not a multiple of 22, a
/// `shdr` not a multiple of 46; other identifiers never fail), and on
/// success each list holds the whole records of its sub-chunks, in file
/// order and in number the sum of their body sizes over the record size.
pub proof fn law_pdta_chunks(cs: Seq<RawChunk>)
    requires
        forall|k: int| 0 <= k < cs.len() ==> complete_chunk(#[trigger] cs[k]),
    ensures
        pdta_walk(chunks_bytes(cs)) == chunks_records(cs),
        pdta_walk(chunks_bytes(cs)) is None <==> exists|k: int|
            0 <= k < cs.len() && chunk_records(#[trigger] cs[k].id, cs[k].body) is None,
        pdta_walk(chunks_bytes(cs)) is Some ==> ({
            let r = pdta_walk(chunks_bytes(cs))->Some_0;
            &&& r.phdr.len() == tag_count(cs, fourcc(0x70, 0x68, 0x64, 0x72), PHDR_SIZE as int)
            &&& r.pbag.len() == tag_count(cs, fourcc(0x70, 0x62, 0x61, 0x67), 4)
            &&& r.pgen.len() == tag_count(cs, fourcc(0x70, 0x67, 0x65, 0x6e), 4)
            &&& r.pmod.len() == tag_count(cs, fourcc(0x70, 0x6d, 0x6f, 0x64), 10)
            &&& r.inst.len() == tag_count(cs, fourcc(0x69, 0x6e, 0x73, 0x74), 22)
            &&& r.ibag.len() == tag_count(cs, fourcc(0x69, 0x62, 0x61, 0x67), 4)
            &&& r.igen.len() == tag_count(cs, fourcc(0x69, 0x67, 0x65, 0x6e), 4)
            &&& r.imod.len() == tag_count(cs, fourcc(0x69, 0x6d, 0x6f, 0x64), 10)
            &&& r.shdr.len() == tag_count(cs, fourcc(0x73, 0x68, 0x64, 0x72), 46)
        }),
{
    lemma_walk_chunks(cs);
    lemma_records_fail(cs);
    if chunks_records(cs) is Some {
        lemma_records_counts(cs);
    }
}

proof fn lemma_join_none(r: Option<PdtaRecords>)
    ensures
        after(no_records(), r) == r,
{
    if let Some(x) = r {
        assert(join_records(no_records(), x) =~= x);
    }
}

proof fn lemma_join_assoc(a: PdtaRecords, b: PdtaRecords, rest: Option<PdtaRecords>)
    ensures
        after(a, after(b, rest)) == after(join_records(a, b), rest),
{
    if let Some(r) = rest {
        assert(join_records(a, join_records(b, r)) =~= join_records(join_records(a, b), r));
    }
}

// ---------------------------------------------------------------------------
// Top-level RIFF structure
// ---------------------------------------------------------------------------

pub open spec fn tag_riff() -> Seq<u8> { fourcc(0x52, 0x49, 0x46, 0x46) }
pub open spec fn tag_sfbk() -> Seq<u8> { fourcc(0x73, 0x66, 0x62, 0x6b) }
pub open spec fn tag_list() -> Seq<u8> { fourcc(0x4c, 0x49, 0x53, 0x54) }
pub open spec fn tag_info() -> Seq<u8> { fourcc(0x49, 0x4e, 0x46, 0x4f) }
pub open spec fn tag_sdta() -> Seq<u8> { fourcc(0x73, 0x64, 0x74, 0x61) }
pub open spec fn tag_pdta() -> Seq<u8> { fourcc(0x70, 0x64, 0x74, 0x61) }
pub open spec fn tag_inam() -> Seq<u8> { fourcc(0x49, 0x4e, 0x41, 0x4d) }
pub open spec fn tag_smpl() -> Seq<u8> { fourcc(0x73, 0x6d, 0x70, 0x6c) }
pub open spec fn tag_sm24() -> Seq<u8> { fourcc(0x73, 0x6d, 0x32, 0x34) }

/// The three lists of an `sfbk` body (INFO, sdta, pdta), each without its
/// list type.
pub ghost struct Sf2Lists {
    pub info: Seq<u8>,
    pub sdta: Seq<u8>,
    pub pdta: Seq<u8>,
}

/// Walks the chunks of `data` from `pos` while a whole chunk header fits
/// before `end`. A chunk whose body runs past the data is an error; a `LIST`
/// of type INFO, sdta or pdta replaces the list of that type seen before.
pub open spec fn sfbk_walk(data: Seq<u8>, pos: int, end: int, acc: Sf2Lists) -> Option<Sf2Lists>
    decreases data.len() - pos,
{
    if pos < 0 || pos + 8 > end || end > data.len() {
        Some(acc)
    } else {
        let size = u32_at(data, pos + 4);
        if pos + 8 + size > data.len() {
            None
        } else {
            let body = data.subrange(pos + 8, pos + 8 + size);
            let next = pos + 8 + size;
            proof {
                assert(size >= 0);
            }
            let acc2 = if data.subrange(pos, pos + 4) == tag_list() && body.len() >= 4 {
                let kind = body.take(4);
                if kind == tag_info() {
                    Sf2Lists { info: body.skip(4), ..acc }
                } else if kind == tag_sdta() {
                    Sf2Lists { sdta: body.skip(4), ..acc }
                } else if kind == tag_pdta() {
                    Sf2Lists { pdta: body.skip(4), ..acc }
                } else {
                    acc
                }
            } else {
                acc
            };
            sfbk_walk(data, next, end, acc2)
        }
    }
}

/// The lists of a SoundFont file: a `RIFF` header whose size fits the data,
/// form type `sfbk`, then the chunks up to the RIFF end.
pub open spec fn sf2_lists(data: Seq<u8>) -> Option<Sf2Lists> {
    if data.len() < 12 || data.take(4) != tag_riff() || 8 + u32_at(data, 4) > data.len()
        || data.subrange(8, 12) != tag_sfbk() {
        None
    } else {
        sfbk_walk(
            data,
            12,
            8 + u32_at(data, 4),
            Sf2Lists { info: Seq::empty(), sdta: Seq::empty(), pdta: Seq::empty() },
        )
    }
}

/// The SoundFont name from an INFO list: the text of its last `INAM` chunk,
/// or empty; `None` when a chunk runs past the end.
pub open spec fn info_walk(s: Seq<u8>, pos: int, name: Seq<char>) -> Option<Seq<char>>
    decreases s.len() - pos,
{
    if pos < 0 || pos + 8 > s.len() {
        Some(name)
    } else {
        let size = u32_at(s, pos + 4);
        if pos + 8 + size > s.len() {
            None
        } else {
            let body = s.subrange(pos + 8, pos + 8 + size);
            info_walk(
                s,
                pos + 8 + size,
                if s.subrange(pos, pos + 4) == tag_inam() { field_text(body, 256) } else { name },
            )
        }
    }
}

/// The body of the first chunk tagged `tag` in `s` from `pos` on:
/// `Some(None)` when there is none, `None` when a chunk before it, or it,
/// runs past the end.
pub open spec fn find_chunk(s: Seq<u8>, pos: int, tag: Seq<u8>) -> Option<Option<Seq<u8>>>
    decreases s.len() - pos,
{
    if pos < 0 || pos + 8 > s.len() {
        Some(None)
    } else {
        let size = u32_at(s, pos + 4);
        if pos + 8 + size > s.len() {
            None
        } else if s.subrange(pos, pos + 4) == tag {
            Some(Some(s.subrange(pos + 8, pos + 8 + size)))
        } else {
            find_chunk(s, pos + 8 + size, tag)
        }
    }
}

/// The text fields of an INFO list.
pub struct InfoChunk {
    pub name: String,
}

/// Reads the INFO list: the `INAM` name.
pub fn parse_info(data: &[u8]) -> (r: Result<InfoChunk, String>)
    ensures
        r is Ok <==> info_walk(data@, 0, Seq::empty()) is Some,
        r is Ok ==> r->Ok_0.name@ == info_walk(data@, 0, Seq::empty())->Some_0,
{
    let mut reader = ByteReader::new(data);
    let mut name = String::new();
    let n = data.len();
    while n - reader.pos >= 8
        invariant
            reader.wf(),
            reader.data@ == data@,
            n == data@.len(),
            info_walk(data@, 0, Seq::empty()) == info_walk(data@, reader.pos as int, name@),
        decreases n - reader.pos,
    {
        let id = reader.read_fourcc()?;
        let size = reader.read_u32()?;
        let chunk = match reader.read_bytes(size as usize) {
            Ok(c) => c,
            Err(e) => return Err(e),
        };
        if fourcc_is(&id, 0x49, 0x4e, 0x41, 0x4d) {
            name = read_null_terminated(chunk, 256);
        }
    }
    Ok(InfoChunk { name })
}

/// Decoded 16-bit samples: one per whole byte pair, little-endian.
pub open spec fn pcm16(body: Seq<u8>) -> Seq<i16> {
    Seq::new(((body.len() as int) / 2) as nat, |i: int| as_signed16(u16_at(body, 2 * i)) as i16)
}

/// Decoded low bytes of 24-bit samples.
pub open spec fn pcm8(body: Seq<u8>) -> Seq<i8> {
    Seq::new(body.len(), |i: int| as_signed8(body[i] as int) as i8)
}

/// Finds the first chunk tagged with the given identifier.
fn find_chunk_body<'a>(sdta: &'a [u8], a: u8, b: u8, c: u8, d: u8) -> (r: Result<Option<&'a [u8]>, String>)
    ensures
        r is Ok <==> find_chunk(sdta@, 0, fourcc(a, b, c, d)) is Some,
        r is Ok ==> match (r->Ok_0, find_chunk(sdta@, 0, fourcc(a, b, c, d))->Some_0) {
            (Some(x), Some(y)) => x@ == y,
            (None, None) => true,
            _ => false,
        },
{
    let mut reader = ByteReader::new(sdta);
    let n = sdta.len();
    while n - reader.pos >= 8
        invariant
            reader.wf(),
            reader.data@ == sdta@,
            n == sdta@.len(),
            find_chunk(sdta@, 0, fourcc(a, b, c, d)) == find_chunk(sdta@, reader.pos as int, fourcc(a, b, c, d)),
        decreases n - reader.pos,
    {
        let id = reader.read_fourcc()?;
        let size = reader.read_u32()?;
        if fourcc_is(&id, a, b, c, d) {
            let body = reader.read_bytes(size as usize)?;
            return Ok(Some(body));
        } else {
            reader.skip(size as usize)?;
        }
    }
    Ok(None)
}

/// Reads the 16-bit sample pool (`smpl`) from the sdta list; empty when absent.
pub fn extract_smpl(sdta: &[u8]) -> (r: Result<Vec<i16>, String>)
    ensures
        r is Ok <==> find_chunk(sdta@, 0, tag_smpl()) is Some,
        r is Ok ==> r->Ok_0@ == match find_chunk(sdta@, 0, tag_smpl())->Some_0 {
            Some(body) => pcm16(body),
            None => Seq::<i16>::empty(),
        },
{
    match find_chunk_body(sdta, 0x73, 0x6d, 0x70, 0x6c)? {
        Some(bytes) => {
            let mut samples: Vec<i16> = Vec::new();
            let mut i: usize = 0;
            while bytes.len() - 2 * i >= 2
                invariant
                    2 * i <= bytes@.len(),
                    samples@ == pcm16(bytes@).take(i as int),
                decreases bytes@.len() - 2 * i,
            {
                samples.push(u16_to_i16(get_u16(bytes, 2 * i)));
                i = i + 1;
                assert(samples@ =~= pcm16(bytes@).take(i as int));
            }
            assert(samples@ =~= pcm16(bytes@));
            Ok(samples)
        },
        None => Ok(Vec::new()),
    }
}

/// Reads the 24-bit extension bytes (`sm24`) from the sdta list; empty when absent.
pub fn extract_smpl24(sdta: &[u8]) -> (r: Result<Vec<i8>, String>)
    ensures
        r is Ok <==> find_chunk(sdta@, 0, tag_sm24()) is Some,
        r is Ok ==> r->Ok_0@ == match find_chunk(sdta@, 0, tag_sm24())->Some_0 {
            Some(body) => pcm8(body),
            None => Seq::<i8>::empty(),
        },
{
    match find_chunk_body(sdta, 0x73, 0x6d, 0x32, 0x34)? {
        Some(bytes) => {
            let mut samples: Vec<i8> = Vec::new();
            let mut i: usize = 0;
            while i < bytes.len()
                invariant
                    i <= bytes@.len(),
                    samples@ == pcm8(bytes@).take(i as int),
                decreases bytes@.len() - i,
            {
                samples.push(u8_to_i8(bytes[i]));
                i = i + 1;
                assert(samples@ =~= pcm8(bytes@).take(i as int));
            }
            assert(samples@ =~= pcm8(bytes@));
            Ok(samples)
        },
        None => Ok(Vec::new()),
    }
}

/// The integer content of a SoundFont file: its name, the sample pool and
/// the parsed preset data.
pub struct Sf2Data {
    pub name: String,
    pub smpl: Vec<i16>,
    pub smpl24: Vec<i8>,
    pub pdta: Pdta,
}

/// The sample pool of an sdta list, or `None` when its chunks are malformed.
pub open spec fn pool16(sdta: Seq<u8>) -> Option<Seq<i16>> {
    match find_chunk(sdta, 0, tag_smpl()) {
        Some(Some(body)) => Some(pcm16(body)),
        Some(None) => Some(Seq::empty()),
        None => None,
    }
}

pub open spec fn pool8(sdta: Seq<u8>) -> Option<Seq<i8>> {
    match find_chunk(sdta, 0, tag_sm24()) {
        Some(Some(body)) => Some(pcm8(body)),
        Some(None) => Some(Seq::empty()),
        None => None,
    }
}

/// A SoundFont file reads without error.
pub open spec fn sf2_readable(data: Seq<u8>) -> bool {
    &&& sf2_lists(data) is Some
    &&& info_walk(sf2_lists(data)->Some_0.info, 0, Seq::empty()) is Some
    &&& pool16(sf2_lists(data)->Some_0.sdta) is Some
    &&& pool8(sf2_lists(data)->Some_0.sdta) is Some
    &&& pdta_walk(sf2_lists(data)->Some_0.pdta) is Some
}

/// Reads a SoundFont file's chunk structure, name, sample pool and preset data.
pub fn parse_sf2_instrument_data(data: &[u8]) -> (r: Result<Sf2Data, String>)
    ensures
        r is Ok <==> sf2_readable(data@),
        r is Ok ==> {
            let lists = sf2_lists(data@)->Some_0;
            &&& r->Ok_0.name@ == info_walk(lists.info, 0, Seq::empty())->Some_0
            &&& r->Ok_0.smpl@ == pool16(lists.sdta)->Some_0
            &&& r->Ok_0.smpl24@ == pool8(lists.sdta)->Some_0
            &&& r->Ok_0.pdta.holds(pdta_walk(lists.pdta)->Some_0)
        },
{
    if data.len() < 12 {
        return Err(String::from_str("SF2 file too small"));
    }
    let mut reader = ByteReader::new(data);
    let riff = reader.read_fourcc()?;
    if !fourcc_is(&riff, 0x52, 0x49, 0x46, 0x46) {
        return Err(String::from_str("Expected RIFF"));
    }
    let file_size = reader.read_u32()?;
    let n = data.len();
    if n - 8 < file_size as usize {
        return Err(String::from_str("RIFF size exceeds file length"));
    }
    let end_pos = 8 + file_size as usize;
    let sfbk = reader.read_fourcc()?;
    if !fourcc_is(&sfbk, 0x73, 0x66, 0x62, 0x6b) {
        return Err(String::from_str("Expected sfbk"));
    }
    assert(riff@ == data@.take(4));
    assert(sfbk@ == data@.subrange(8, 12));
    let mut info_data: &[u8] = &data[0..0];
    let mut sdta_data: &[u8] = &data[0..0];
    let mut pdta_data: &[u8] = &data[0..0];
    let ghost start = Sf2Lists { info: Seq::empty(), sdta: Seq::empty(), pdta: Seq::empty() };
    assert(info_data@ =~= Seq::<u8>::empty());
    assert(sf2_lists(data@) == sfbk_walk(data@, 12, end_pos as int, start));
    while reader.pos <= end_pos && end_pos - reader.pos >= 8
        invariant
            reader.wf(),
            reader.data@ == data@,
            n == data@.len(),
            8 <= end_pos <= n,
            end_pos == 8 + u32_at(data@, 4),
            sf2_lists(data@) == sfbk_walk(data@, 12, end_pos as int, start),
            sfbk_walk(data@, 12, end_pos as int, start) == sfbk_walk(
                data@,
                reader.pos as int,
                end_pos as int,
                Sf2Lists { info: info_data@, sdta: sdta_data@, pdta: pdta_data@ },
            ),
        decreases n - reader.pos,
    {
        let ghost p = reader.pos as int;
        let id = reader.read_fourcc()?;
        let size = reader.read_u32()?;
        assert(id@ == data@.subrange(p, p + 4));
        assert(size == u32_at(data@, p + 4));
        let chunk = match reader.read_bytes(size as usize) {
            Ok(c) => c,
            Err(e) => {
                assert(sfbk_walk(data@, p, end_pos as int, Sf2Lists { info: info_data@, sdta: sdta_data@, pdta: pdta_data@ }) is None);
                return Err(e);
            },
        };
        if fourcc_is(&id, 0x4c, 0x49, 0x53, 0x54) && chunk.len() >= 4 {
            let kind: [u8; 4] = [chunk[0], chunk[1], chunk[2], chunk[3]];
            assert(kind@ =~= chunk@.take(4));
            let rest = &chunk[4..chunk.len()];
            assert(rest@ =~= chunk@.skip(4));
            if fourcc_is(&kind, 0x49, 0x4e, 0x46, 0x4f) {
                info_data = rest;
            } else if fourcc_is(&kind, 0x73, 0x64, 0x74, 0x61) {
                sdta_data = rest;
            } else if fourcc_is(&kind, 0x70, 0x64, 0x74, 0x61) {
                pdta_data = rest;
            }
        }
    }
    assert(sf2_lists(data@) == Some(Sf2Lists { info: info_data@, sdta: sdta_data@, pdta: pdta_data@ }));
    let info = parse_info(info_data)?;
    let smpl = extract_smpl(sdta_data)?;
    let smpl24 = extract_smpl24(sdta_data)?;
    let pdta = Pdta::parse(pdta_data)?;
    Ok(Sf2Data { name: info.name, smpl, smpl24, pdta })
}

// ---------------------------------------------------------------------------
// Sample links and modulators
// ---------------------------------------------------------------------------

pub const SF2_SAMPLE_TYPE_RIGHT: u16 = 2;
pub const SF2_SAMPLE_TYPE_LEFT: u16 = 4;

/// A right-channel sample whose link points at a left-channel sample: it
/// plays as the right half of that stereo pair.
pub fn sample_is_right_linked(header: &SampleHeader, headers: &[SampleHeader]) -> (r: bool)
    ensures
        r == (header.sample_type == SF2_SAMPLE_TYPE_RIGHT && header.sample_link < headers@.len()
            && headers@[header.sample_link as int].sample_type == SF2_SAMPLE_TYPE_LEFT),
{
    header.sample_type == SF2_SAMPLE_TYPE_RIGHT && (header.sample_link as usize) < headers.len()
        && headers[header.sample_link as usize].sample_type == SF2_SAMPLE_TYPE_LEFT
}

/// The modulation source of an SF2 modulator source operand: bit 10 selects
/// a MIDI controller (index in the low 7 bits) over a general source.
pub open spec fn mod_source_of(src_oper: u16) -> ModSource {
    let index = src_oper % 128;
    if (src_oper / 1024) % 2 == 0 {
        if index == 2 {
            ModSource::Velocity
        } else if index == 3 {
            ModSource::KeyTrack
        } else if index == 10 {
            ModSource::Pressure
        } else if index == 13 {
            ModSource::ChannelPressure
        } else if index == 14 {
            ModSource::PitchBend
        } else {
            ModSource::NoSource
        }
    } else {
        if index == 1 {
            ModSource::ModWheel
        } else if index == 7 {
            ModSource::ChannelVolume
        } else if index == 10 {
            ModSource::Cc10Pan
        } else if index == 11 {
            ModSource::Expression
        } else {
            ModSource::NoSource
        }
    }
}

pub fn parse_mod_source(src_oper: u16) -> (r: ModSource)
    ensures
        r == mod_source_of(src_oper),
{
    let cc_flag = (src_oper / 1024) % 2;
    let cc_index = src_oper % 128;
    if cc_flag == 0 {
        match cc_index {
            2 => ModSource::Velocity,
            3 => ModSource::KeyTrack,
            10 => ModSource::Pressure,
            13 => ModSource::ChannelPressure,
            14 => ModSource::PitchBend,
            _ => ModSource::NoSource,
        }
    } else {
        match cc_index {
            1 => ModSource::ModWheel,
            7 => ModSource::ChannelVolume,
            10 => ModSource::Cc10Pan,
            11 => ModSource::Expression,
            _ => ModSource::NoSource,
        }
    }
}

/// The modulation target for an SF2 modulator's destination generator.
pub fn parse_mod_target(dest_oper: u16) -> (r: Option<ModTarget>)
    ensures
        r == if dest_oper == GEN_INITIAL_ATTENUATION {
            Some(ModTarget::Amplitude)
        } else if dest_oper == GEN_INITIAL_FILTER_FC {
            Some(ModTarget::FilterCutoff)
        } else if dest_oper == GEN_PAN {
            Some(ModTarget::Pan)
        } else if dest_oper == GEN_MOD_LFO_TO_PITCH || dest_oper == GEN_VIB_LFO_TO_PITCH {
            Some(ModTarget::Pitch)
        } else {
            None::<ModTarget>
        },
{
    match dest_oper {
        48 => Some(ModTarget::Amplitude),
        8 => Some(ModTarget::FilterCutoff),
        17 => Some(ModTarget::Pan),
        5 | 6 => Some(ModTarget::Pitch),
        _ => None,
    }
}

// ---------------------------------------------------------------------------
// Laws of zone combination
// ---------------------------------------------------------------------------

/// An integer kept within the range of `i16`.
pub open spec fn clamp_i16(v: int) -> int {
    if v > 32767 {
        32767
    } else if v < -32768 {
        -32768
    } else {
        v
    }
}

/// The SoundFont 2 generators that a preset zone adjusts by adding its
/// amount: the modulation and filter amounts (5-11), LFO-to-volume (13),
/// the effect sends and pan (15-17), the LFO and envelope times and key
/// scalings (21-40), initial attenuation (48), coarse and fine tune (51,
/// 52) and scale tuning (56).
pub open spec fn sf2_summed_generator(op: u16) -> bool {
    (5 <= op <= 11) || op == 13 || op == 15 || op == 16 || op == 17 || (21 <= op <= 40) || op == 48
        || op == 51 || op == 52 || op == 56
}

/// For each summed generator that the preset zone sets, the combined zone
/// holds the instrument amount (0 when the instrument does not set it) plus
/// the preset amount, kept within `i16`; a summed generator the preset zone
/// does not set keeps the instrument amount, or stays unset.
pub proof fn law_preset_amounts_add(inst: Map<u16, i16>, preset: Map<u16, i16>, op: u16)
    requires
        sf2_summed_generator(op),
    ensures
        preset.contains_key(op) ==> combined(inst, preset).contains_key(op) && combined(inst, preset)[op]
            == clamp_i16((if inst.contains_key(op) { inst[op] as int } else { 0 }) + preset[op]),
        !preset.contains_key(op) ==> (combined(inst, preset).contains_key(op) == inst.contains_key(op)
            && (inst.contains_key(op) ==> combined(inst, preset)[op] == inst[op])),
{
}

/// The tuning of a combined zone is the instrument's coarse and fine tune
/// (0 when unset) plus the preset's, each kept within `i16`.
pub proof fn law_combined_tuning(inst: Map<u16, i16>, preset: Map<u16, i16>)
    ensures
        value_or(combined(inst, preset), GEN_COARSE_TUNE, 0) == clamp_i16(
            value_or(inst, GEN_COARSE_TUNE, 0) + value_or(preset, GEN_COARSE_TUNE, 0),
        ),
        value_or(combined(inst, preset), GEN_FINE_TUNE, 0) == clamp_i16(
            value_or(inst, GEN_FINE_TUNE, 0) + value_or(preset, GEN_FINE_TUNE, 0),
        ),
{
    law_preset_amounts_add(inst, preset, GEN_COARSE_TUNE);
    law_preset_amounts_add(inst, preset, GEN_FINE_TUNE);
}

/// The sample address offsets (0-4, 12, 45, 50) that a preset zone sets
/// replace the instrument's.
pub proof fn law_preset_offsets_replace(inst: Map<u16, i16>, preset: Map<u16, i16>, op: u16)
    requires
        op <= 4 || op == 12 || op == 45 || op == 50,
        preset.contains_key(op),
    ensures
        combined(inst, preset).contains_key(op) && combined(inst, preset)[op] == preset[op],
{
}

/// The sample, its modes, the exclusive class and the overriding root key
/// come from the instrument zone alone: the preset zone cannot set them.
pub proof fn law_instrument_only_generators(inst: Map<u16, i16>, preset: Map<u16, i16>, op: u16)
    requires
        op == GEN_SAMPLE_ID || op == GEN_SAMPLE_MODES || op == GEN_EXCLUSIVE_CLASS || op
            == GEN_OVERRIDING_ROOT_KEY,
    ensures
        combined(inst, preset).contains_key(op) == inst.contains_key(op),
        inst.contains_key(op) ==> combined(inst, preset)[op] == inst[op],
{
}

/// The combined key and velocity ranges are the intersections of the
/// instrument's and the preset's (each the full range when unset): the
/// larger of the low bounds and the smaller of the high bounds.
pub proof fn law_combined_ranges_intersect(inst: Map<u16, i16>, preset: Map<u16, i16>, op: u16)
    requires
        op == GEN_KEY_RANGE || op == GEN_VEL_RANGE,
    ensures
        combined(inst, preset).contains_key(op),
        range_of(combined(inst, preset), op).0 == (if range_of(inst, op).0 >= range_of(preset, op).0 {
            range_of(inst, op).0
        } else {
            range_of(preset, op).0
        }),
        range_of(combined(inst, preset), op).1 == (if range_of(inst, op).1 <= range_of(preset, op).1 {
            range_of(inst, op).1
        } else {
            range_of(preset, op).1
        }),
{
    let a = range_of(inst, op);
    let b = range_of(preset, op);
    let lo = if a.0 >= b.0 { a.0 } else { b.0 };
    let hi = if a.1 <= b.1 { a.1 } else { b.1 };
    law_range_pack_roundtrip(lo, hi);
}

} // verus!
