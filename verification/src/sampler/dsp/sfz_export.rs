//! Writing a patch out as an SFZ instrument: the SFZ text, the names of the
//! exported sample files and the header of each 32-bit float stereo WAV
//! file. Opcode values that are decimal fractions arrive already written
//! out.

use vstd::prelude::*;
use crate::common::text::{chars_of, decimal_text, push_decimal, string_from_chars};
use crate::sampler::dsp::sfz::{export_name, sanitize_export_name};

verus! {

broadcast use vstd::string::group_string_axioms;

// ---------------------------------------------------------------------------
// WAV header
// ---------------------------------------------------------------------------

/// A number as two little-endian bytes.
pub open spec fn le16(v: nat) -> Seq<u8> {
    seq![(v % 256) as u8, ((v / 256) % 256) as u8]
}

/// A number as four little-endian bytes.
pub open spec fn le32(v: nat) -> Seq<u8> {
    seq![(v % 256) as u8, ((v / 256) % 256) as u8, ((v / 65536) % 256) as u8, ((v / 16777216) % 256) as u8]
}

/// The size field of the data chunk: eight bytes a frame, as a `u32`.
pub open spec fn wav_data_size(frames: usize) -> nat {
    ((frames * 8) as u32) as nat
}

/// The 44-byte header of a stereo WAV file of 32-bit float samples:
/// the RIFF chunk, a 16-byte `fmt ` chunk (format 3, two channels, the
/// sample rate, the byte rate, block align 8, 32 bits) and the data chunk's
/// header.
pub open spec fn wav_header_bytes(sample_rate: u32, frames: usize) -> Seq<u8> {
    let data_size = wav_data_size(frames);
    seq![82u8, 73, 70, 70] + le32(36 + data_size) + seq![87u8, 65, 86, 69] + seq![102u8, 109, 116, 32]
        + le32(16) + le16(3) + le16(2) + le32(sample_rate as nat) + le32((sample_rate * 8) as nat) + le16(8)
        + le16(32) + seq![100u8, 97, 116, 97] + le32(data_size)
}

fn push_le16(out: &mut Vec<u8>, v: u16)
    ensures
        final(out)@ == old(out)@ + le16(v as nat),
{
    out.push((v % 256) as u8);
    out.push(((v / 256) % 256) as u8);
    assert(final(out)@ =~= old(out)@ + le16(v as nat));
}

fn push_le32(out: &mut Vec<u8>, v: u32)
    ensures
        final(out)@ == old(out)@ + le32(v as nat),
{
    out.push((v % 256) as u8);
    out.push(((v / 256) % 256) as u8);
    out.push(((v / 65536) % 256) as u8);
    out.push(((v / 16777216) % 256) as u8);
    assert(final(out)@ =~= old(out)@ + le32(v as nat));
}

fn push_tag(out: &mut Vec<u8>, a: u8, b: u8, c: u8, d: u8)
    ensures
        final(out)@ == old(out)@ + seq![a, b, c, d],
{
    out.push(a);
    out.push(b);
    out.push(c);
    out.push(d);
    assert(final(out)@ =~= old(out)@ + seq![a, b, c, d]);
}

/// The header of a stereo 32-bit float WAV file holding `frames` frames
/// at `sample_rate`.
pub fn wav_header(sample_rate: u32, frames: usize) -> (r: Vec<u8>)
    requires
        sample_rate * 8 <= u32::MAX,
        frames * 8 <= usize::MAX,
        36 + wav_data_size(frames) <= u32::MAX,
    ensures
        r@ == wav_header_bytes(sample_rate, frames),
{
    let data_size = (frames * 8) as u32;
    let mut out: Vec<u8> = Vec::new();
    push_tag(&mut out, 82, 73, 70, 70);
    push_le32(&mut out, 36 + data_size);
    push_tag(&mut out, 87, 65, 86, 69);
    push_tag(&mut out, 102, 109, 116, 32);
    push_le32(&mut out, 16);
    push_le16(&mut out, 3);
    push_le16(&mut out, 2);
    push_le32(&mut out, sample_rate);
    push_le32(&mut out, sample_rate * 8);
    push_le16(&mut out, 8);
    push_le16(&mut out, 32);
    push_tag(&mut out, 100, 97, 116, 97);
    push_le32(&mut out, data_size);
    out
}

/// Every WAV header is 44 bytes long.
pub proof fn law_wav_header_length(sample_rate: u32, frames: usize)
    ensures
        wav_header_bytes(sample_rate, frames).len() == 44,
{
}

// ---------------------------------------------------------------------------
// File names
// ---------------------------------------------------------------------------

/// The decimal digits of `n`, zero-padded to at least three.
pub open spec fn padded3(n: nat) -> Seq<char> {
    if n < 10 {
        seq!['0', '0'] + decimal_text(n)
    } else if n < 100 {
        seq!['0'] + decimal_text(n)
    } else {
        decimal_text(n)
    }
}

fn push_chars(out: &mut Vec<char>, s: &str)
    ensures
        final(out)@ == old(out)@ + s@,
{
    let c = chars_of(s);
    let mut i: usize = 0;
    while i < c.len()
        invariant
            i <= c@.len(),
            c@ == s@,
            out@ == old(out)@ + c@.take(i as int),
        decreases c@.len() - i,
    {
        out.push(c[i]);
        i = i + 1;
        assert(out@ =~= old(out)@ + c@.take(i as int));
    }
    assert(c@.take(c@.len() as int) =~= c@);
}

/// The file name of the `index`-th exported sample: the number padded to
/// three digits, the group name and the zone name (`sample` when it has
/// none), joined by `_`, made safe as a file name, with `.wav` added.
pub open spec fn sample_file_name(index: nat, group: Seq<char>, zone: Seq<char>) -> Seq<char> {
    export_name(padded3(index) + seq!['_'] + group + seq!['_'] + (if zone.len() == 0 {
        "sample"@
    } else {
        zone
    })) + ".wav"@
}

/// Names the `index`-th exported sample file of a zone of a group.
pub fn export_sample_file_name(index: usize, group_name: &str, zone_name: &str) -> (r: String)
    ensures
        r@ == sample_file_name(index as nat, group_name@, zone_name@),
{
    let mut raw: Vec<char> = Vec::new();
    if index < 10 {
        raw.push('0');
        raw.push('0');
    } else if index < 100 {
        raw.push('0');
    }
    push_decimal(&mut raw, index as u64);
    assert(raw@ =~= padded3(index as nat));
    raw.push('_');
    push_chars(&mut raw, group_name);
    raw.push('_');
    let zone = if zone_name.is_empty() { "sample" } else { zone_name };
    push_chars(&mut raw, zone);
    assert(raw@ =~= padded3(index as nat) + seq!['_'] + group_name@ + seq!['_'] + (if zone_name@.len() == 0 {
        "sample"@
    } else {
        zone_name@
    }));
    let joined = string_from_chars(raw.as_slice());
    let safe = sanitize_export_name(joined.as_str());
    let mut out = chars_of(safe.as_str());
    push_chars(&mut out, ".wav");
    string_from_chars(out.as_slice())
}

/// The name of the directory the samples of an export go to: the export
/// file's stem (`sampler` when it has none) with `_samples` added, made safe
/// as a file name.
pub open spec fn sample_dir_name(stem: Option<Seq<char>>) -> Seq<char> {
    let s = match stem {
        Some(t) => if t.len() > 0 { t } else { "sampler"@ },
        None => "sampler"@,
    };
    export_name(s + "_samples"@)
}

/// Names the sample directory of an export from the export file's stem.
pub fn export_sample_dir_name(stem: Option<&str>) -> (r: String)
    ensures
        r@ == sample_dir_name(match stem {
            Some(t) => Some(t@),
            None => None,
        }),
{
    let s = match stem {
        Some(t) => if t.is_empty() { "sampler" } else { t },
        None => "sampler",
    };
    let mut raw = chars_of(s);
    push_chars(&mut raw, "_samples");
    let joined = string_from_chars(raw.as_slice());
    sanitize_export_name(joined.as_str())
}

// ---------------------------------------------------------------------------
// SFZ text
// ---------------------------------------------------------------------------

/// One zone as written to the SFZ file. The decimal-fraction opcodes hold
/// their written-out value, and are absent where the value is zero.
pub struct ExportRegion {
    pub sample_name: String,
    pub key_low: u8,
    pub key_high: u8,
    pub root_key: u8,
    pub vel_low: u8,
    pub vel_high: u8,
    pub volume: Option<String>,
    pub pan: Option<String>,
    pub tune: Option<String>,
    pub start_offset: usize,
    pub looped: bool,
    pub loop_start: usize,
    pub loop_end: usize,
}

/// One group as written to the SFZ file, with its zones.
pub struct ExportGroup {
    pub name: String,
    pub volume: Option<String>,
    pub pan: Option<String>,
    pub regions: Vec<ExportRegion>,
}

/// ` key=value` for an opcode that is present, else nothing.
pub open spec fn opt_opcode(key: Seq<char>, value: Option<String>) -> Seq<char> {
    match value {
        Some(t) => key + t@,
        None => Seq::empty(),
    }
}

pub open spec fn when(c: bool, text: Seq<char>) -> Seq<char> {
    if c { text } else { Seq::empty() }
}

/// The key opcodes of a region: one `key` when the zone spans a single key
/// that is also its root, else `lokey`/`hikey` and a `pitch_keycenter`
/// other than 60.
pub open spec fn keys_text(r: ExportRegion) -> Seq<char> {
    if r.key_low == r.key_high && r.root_key == r.key_low {
        " key="@ + decimal_text(r.key_low as nat)
    } else {
        " lokey="@ + decimal_text(r.key_low as nat) + " hikey="@ + decimal_text(r.key_high as nat)
            + when(r.root_key != 60, " pitch_keycenter="@ + decimal_text(r.root_key as nat))
    }
}

/// The velocity bounds of a region other than 0 and 127.
pub open spec fn velocity_text(r: ExportRegion) -> Seq<char> {
    when(r.vel_low != 0, " lovel="@ + decimal_text(r.vel_low as nat)) + when(
        r.vel_high != 127,
        " hivel="@ + decimal_text(r.vel_high as nat),
    )
}

/// Volume, pan and tune of a region, where present.
pub open spec fn level_text(r: ExportRegion) -> Seq<char> {
    opt_opcode(" volume="@, r.volume) + opt_opcode(" pan="@, r.pan) + opt_opcode(" tune="@, r.tune)
}

/// A non-zero start offset and the loop of a region.
pub open spec fn playback_text(r: ExportRegion) -> Seq<char> {
    when(r.start_offset != 0, " offset="@ + decimal_text(r.start_offset as nat)) + when(
        r.looped,
        " loop_mode=loop_continuous"@ + " loop_start="@ + decimal_text(r.loop_start as nat) + " loop_end="@
            + decimal_text(r.loop_end as nat),
    )
}

/// The opcodes after a region's sample: keys, velocities, levels, then the
/// offset and loop.
pub open spec fn mapping_text(r: ExportRegion) -> Seq<char> {
    keys_text(r) + velocity_text(r) + level_text(r) + playback_text(r)
}

/// The `<region>` line of a zone.
pub open spec fn region_text(r: ExportRegion) -> Seq<char> {
    "<region>"@ + " sample="@ + r.sample_name@ + mapping_text(r) + "\n"@
}

/// The `<region>` lines of zones, in order.
pub open spec fn regions_text(rs: Seq<ExportRegion>) -> Seq<char>
    decreases rs.len(),
{
    if rs.len() == 0 {
        Seq::empty()
    } else {
        regions_text(rs.drop_last()) + region_text(rs.last())
    }
}

/// The block of a group: nothing for a group without zones; else a comment
/// with its name (when it has one), the `<group>` line with its volume and
/// pan, its regions and an empty line.
pub open spec fn group_text(g: ExportGroup) -> Seq<char> {
    if g.regions@.len() == 0 {
        Seq::empty()
    } else {
        when(g.name@.len() > 0, "// group: "@ + g.name@ + "\n"@) + "<group>"@ + opt_opcode(" group_volume="@, g.volume)
            + opt_opcode(" group_pan="@, g.pan) + "\n"@ + regions_text(g.regions@) + "\n"@
    }
}

/// The blocks of groups, in order.
pub open spec fn groups_text(gs: Seq<ExportGroup>) -> Seq<char>
    decreases gs.len(),
{
    if gs.len() == 0 {
        Seq::empty()
    } else {
        groups_text(gs.drop_last()) + group_text(gs.last())
    }
}

/// The whole SFZ text: a comment, a `<control>` header whose
/// `default_path` is the sample directory, then the groups.
pub open spec fn export_text(sample_dir: Seq<char>, groups: Seq<ExportGroup>) -> Seq<char> {
    "// Exported by Maolan Sampler\n"@ + "<control>\n"@ + "default_path="@ + sample_dir + "/\n\n"@ + groups_text(
        groups,
    )
}

fn push_opt(out: &mut Vec<char>, key: &str, value: &Option<String>)
    ensures
        final(out)@ == old(out)@ + opt_opcode(key@, *value),
{
    match value {
        Some(t) => {
            push_chars(out, key);
            push_chars(out, t.as_str());
        },
        None => {
            assert(old(out)@ + Seq::<char>::empty() =~= old(out)@);
        },
    }
}

fn push_number(out: &mut Vec<char>, key: &str, n: u64)
    ensures
        final(out)@ == old(out)@ + key@ + decimal_text(n as nat),
{
    push_chars(out, key);
    push_decimal(out, n);
}

fn push_keys(out: &mut Vec<char>, r: &ExportRegion)
    ensures
        final(out)@ == old(out)@ + keys_text(*r),
{
    if r.key_low == r.key_high && r.root_key == r.key_low {
        push_number(out, " key=", r.key_low as u64);
    } else {
        push_number(out, " lokey=", r.key_low as u64);
        push_number(out, " hikey=", r.key_high as u64);
        let ghost mid = out@;
        if r.root_key != 60 {
            push_number(out, " pitch_keycenter=", r.root_key as u64);
        }
        assert(out@ =~= mid + when(r.root_key != 60, " pitch_keycenter="@ + decimal_text(r.root_key as nat)));
    }
    assert(final(out)@ =~= old(out)@ + keys_text(*r));
}

fn push_velocities(out: &mut Vec<char>, r: &ExportRegion)
    ensures
        final(out)@ == old(out)@ + velocity_text(*r),
{
    if r.vel_low != 0 {
        push_number(out, " lovel=", r.vel_low as u64);
    }
    let ghost mid = out@;
    assert(mid =~= old(out)@ + when(r.vel_low != 0, " lovel="@ + decimal_text(r.vel_low as nat)));
    if r.vel_high != 127 {
        push_number(out, " hivel=", r.vel_high as u64);
    }
    assert(out@ =~= mid + when(r.vel_high != 127, " hivel="@ + decimal_text(r.vel_high as nat)));
    assert(final(out)@ =~= old(out)@ + velocity_text(*r));
}

fn push_levels(out: &mut Vec<char>, r: &ExportRegion)
    ensures
        final(out)@ == old(out)@ + level_text(*r),
{
    push_opt(out, " volume=", &r.volume);
    push_opt(out, " pan=", &r.pan);
    push_opt(out, " tune=", &r.tune);
    assert(final(out)@ =~= old(out)@ + level_text(*r));
}

fn push_playback(out: &mut Vec<char>, r: &ExportRegion)
    ensures
        final(out)@ == old(out)@ + playback_text(*r),
{
    if r.start_offset != 0 {
        push_number(out, " offset=", r.start_offset as u64);
    }
    let ghost mid = out@;
    assert(mid =~= old(out)@ + when(r.start_offset != 0, " offset="@ + decimal_text(r.start_offset as nat)));
    if r.looped {
        push_chars(out, " loop_mode=loop_continuous");
        push_number(out, " loop_start=", r.loop_start as u64);
        push_number(out, " loop_end=", r.loop_end as u64);
    }
    assert(out@ =~= mid + when(
        r.looped,
        " loop_mode=loop_continuous"@ + " loop_start="@ + decimal_text(r.loop_start as nat) + " loop_end="@
            + decimal_text(r.loop_end as nat),
    ));
    assert(final(out)@ =~= old(out)@ + playback_text(*r));
}

fn push_region(out: &mut Vec<char>, r: &ExportRegion)
    ensures
        final(out)@ == old(out)@ + region_text(*r),
{
    push_chars(out, "<region>");
    push_chars(out, " sample=");
    push_chars(out, r.sample_name.as_str());
    push_keys(out, r);
    push_velocities(out, r);
    push_levels(out, r);
    push_playback(out, r);
    push_chars(out, "\n");
    assert(final(out)@ =~= old(out)@ + region_text(*r));
}

fn push_group(out: &mut Vec<char>, g: &ExportGroup)
    ensures
        final(out)@ == old(out)@ + group_text(*g),
{
    if g.regions.len() == 0 {
        assert(old(out)@ + Seq::<char>::empty() =~= old(out)@);
        return;
    }
    if !g.name.as_str().is_empty() {
        push_chars(out, "// group: ");
        push_chars(out, g.name.as_str());
        push_chars(out, "\n");
    }
    let ghost after_name = out@;
    assert(after_name =~= old(out)@ + when(g.name@.len() > 0, "// group: "@ + g.name@ + "\n"@));
    push_chars(out, "<group>");
    push_opt(out, " group_volume=", &g.volume);
    push_opt(out, " group_pan=", &g.pan);
    push_chars(out, "\n");
    let ghost head = out@;
    let mut i: usize = 0;
    while i < g.regions.len()
        invariant
            i <= g.regions@.len(),
            out@ == head + regions_text(g.regions@.take(i as int)),
        decreases g.regions@.len() - i,
    {
        assert(g.regions@.take(i + 1).drop_last() =~= g.regions@.take(i as int));
        push_region(out, &g.regions[i]);
        i = i + 1;
        assert(out@ =~= head + regions_text(g.regions@.take(i as int)));
    }
    assert(g.regions@.take(g.regions@.len() as int) =~= g.regions@);
    push_chars(out, "\n");
    assert(final(out)@ =~= old(out)@ + group_text(*g));
}

/// Writes out the SFZ text of an export whose samples lie in `sample_dir`.
pub fn export_sfz_text(sample_dir: &str, groups: &[ExportGroup]) -> (r: String)
    ensures
        r@ == export_text(sample_dir@, groups@),
{
    let mut out: Vec<char> = Vec::new();
    push_chars(&mut out, "// Exported by Maolan Sampler\n");
    push_chars(&mut out, "<control>\n");
    push_chars(&mut out, "default_path=");
    push_chars(&mut out, sample_dir);
    push_chars(&mut out, "/\n\n");
    let ghost head = out@;
    let mut i: usize = 0;
    while i < groups.len()
        invariant
            i <= groups@.len(),
            out@ == head + groups_text(groups@.take(i as int)),
        decreases groups@.len() - i,
    {
        assert(groups@.take(i + 1).drop_last() =~= groups@.take(i as int));
        push_group(&mut out, &groups[i]);
        i = i + 1;
        assert(out@ =~= head + groups_text(groups@.take(i as int)));
    }
    assert(groups@.take(groups@.len() as int) =~= groups@);
    assert(out@ =~= export_text(sample_dir@, groups@));
    string_from_chars(out.as_slice())
}

} // verus!
