//! EXS24 instruments: the header, the zone records and the sample
//! path records of an `.exs` file.

use vstd::prelude::*;
use crate::common::byte_reader::{before_nul, find_nul, first_nul, lemma_first_nul, get_u32, u32_at, u8_to_i8, as_signed8};
use crate::common::text::{bytes_as_chars, decode_utf8_lossy, utf8_lossy};

verus! {

broadcast use vstd::string::group_string_axioms;

pub const EXS_HEADER_SIZE: usize = 0x80;

pub const EXS_ZONE_SIZE: usize = 0x80;

pub const EXS_SAMPLE_RECORD_SIZE: usize = 0x40;

pub const EXS_SAMPLE_PATH_OFFSET: usize = 0x0C;

/// The mapping fields of one zone record.
#[derive(Debug, Clone, Copy, PartialEq, Eq, Structural)]
pub struct ExsZone {
    pub key_low: u8,
    pub key_high: u8,
    pub vel_low: u8,
    pub vel_high: u8,
    pub root_key: u8,
    pub fine_tune: i8,
    pub volume: i8,
    pub pan: i8,
    pub sample_index: u32,
    pub group_index: u32,
}

/// The zone a record's bytes describe.
pub open spec fn zone_of(d: Seq<u8>) -> ExsZone {
    ExsZone {
        key_low: d[0],
        key_high: d[1],
        vel_low: d[2],
        vel_high: d[3],
        root_key: d[4],
        fine_tune: as_signed8(d[5] as int) as i8,
        volume: as_signed8(d[6] as int) as i8,
        pan: as_signed8(d[7] as int) as i8,
        sample_index: u32_at(d, 0x10) as u32,
        group_index: u32_at(d, 0x14) as u32,
    }
}

/// Reads a zone record: key and velocity range, root key, signed fine tune,
/// volume and pan, then the little-endian sample and group indices.
pub fn parse_zone_record(data: &[u8]) -> (r: ExsZone)
    requires
        data@.len() >= 0x18,
    ensures
        r == zone_of(data@),
{
    ExsZone {
        key_low: data[0],
        key_high: data[1],
        vel_low: data[2],
        vel_high: data[3],
        root_key: data[4],
        fine_tune: u8_to_i8(data[5]),
        volume: u8_to_i8(data[6]),
        pan: u8_to_i8(data[7]),
        sample_index: get_u32(data, 0x10),
        group_index: get_u32(data, 0x14),
    }
}

// ---------------------------------------------------------------------------
// Sample paths
// ---------------------------------------------------------------------------

pub open spec fn is_printable(b: u8) -> bool {
    32 <= b <= 126
}

/// First index at or after `i` holding a printable ASCII byte, or the end.
pub open spec fn skip_unprintable(d: Seq<u8>, i: int) -> int
    decreases d.len() - i,
{
    if i < 0 || i >= d.len() || is_printable(d[i]) {
        i
    } else {
        skip_unprintable(d, i + 1)
    }
}

/// First index at or after `i` that does not hold a printable ASCII byte,
/// or the end.
pub open spec fn printable_run_end(d: Seq<u8>, i: int) -> int
    decreases d.len() - i,
{
    if i < 0 || i >= d.len() || !is_printable(d[i]) {
        i
    } else {
        printable_run_end(d, i + 1)
    }
}

pub open spec fn looks_like_path(s: Seq<char>) -> bool {
    s.contains('/') || s.contains('\\') || s.contains('.')
}

pub proof fn lemma_skip_bounds(d: Seq<u8>, i: int)
    requires
        0 <= i <= d.len(),
    ensures
        i <= skip_unprintable(d, i) <= d.len(),
        skip_unprintable(d, i) < d.len() ==> is_printable(d[skip_unprintable(d, i)]),
    decreases d.len() - i,
{
    if i < d.len() && !is_printable(d[i]) {
        lemma_skip_bounds(d, i + 1);
    }
}

pub proof fn lemma_run_bounds(d: Seq<u8>, i: int)
    requires
        0 <= i <= d.len(),
    ensures
        i <= printable_run_end(d, i) <= d.len(),
        forall|k: int| i <= k < printable_run_end(d, i) ==> is_printable(#[trigger] d[k]),
    decreases d.len() - i,
{
    if i < d.len() && is_printable(d[i]) {
        lemma_run_bounds(d, i + 1);
    }
}

/// The longest run of printable ASCII from index `i` on that holds a `/`, a
/// `\` or a `.`; a later run replaces `best` only when it is strictly longer.
pub open spec fn longest_path_run(d: Seq<u8>, i: int, best: Seq<char>) -> Seq<char>
    decreases d.len() - i,
{
    if i < 0 || i >= d.len() {
        best
    } else {
        let start = skip_unprintable(d, i);
        let end = printable_run_end(d, start);
        let run = bytes_as_chars(d.subrange(start, end));
        let next_best = if end > start && run.len() > best.len() && looks_like_path(run) {
            run
        } else {
            best
        };
        if end <= i {
            next_best
        } else {
            proof {
                lemma_skip_bounds(d, i);
                lemma_run_bounds(d, start);
            }
            longest_path_run(d, end, next_best)
        }
    }
}

/// The path guessed from a record whose path field is empty.
pub open spec fn heuristic_path(d: Seq<u8>) -> Seq<char> {
    longest_path_run(d, 0, Seq::empty())
}

fn contains_char(s: &[char], c: char) -> (r: bool)
    ensures
        r == s@.contains(c),
{
    let mut i: usize = 0;
    while i < s.len()
        invariant
            i <= s@.len(),
            forall|j: int| 0 <= j < i ==> s@[j] != c,
        decreases s@.len() - i,
    {
        if s[i] == c {
            assert(s@[i as int] == c);
            return true;
        }
        i = i + 1;
    }
    false
}

/// Finds the longest run of printable ASCII text that looks like a file
/// path (holds `/`, `\` or `.`); empty when there is none.
pub fn heuristic_extract_path(data: &[u8]) -> (r: String)
    ensures
        r@ == heuristic_path(data@),
{
    let ghost d = data@;
    let mut best: Vec<char> = Vec::new();
    let mut i: usize = 0;
    while i < data.len()
        invariant
            d == data@,
            i <= d.len(),
            heuristic_path(d) == longest_path_run(d, i as int, best@),
        decreases d.len() - i,
    {
        proof {
            lemma_skip_bounds(d, i as int);
        }
        let ghost i0 = i as int;
        while i < data.len() && (data[i] < 32 || data[i] > 126)
            invariant
                d == data@,
                i0 <= i <= d.len(),
                skip_unprintable(d, i0) == skip_unprintable(d, i as int),
            decreases d.len() - i,
        {
            i = i + 1;
        }
        let start = i;
        proof {
            lemma_run_bounds(d, start as int);
        }
        while i < data.len() && data[i] >= 32 && data[i] <= 126 && data[i] != 0
            invariant
                d == data@,
                start <= i <= d.len(),
                printable_run_end(d, start as int) == printable_run_end(d, i as int),
            decreases d.len() - i,
        {
            i = i + 1;
        }
        if i > start {
            let run = &data[start..i];
            proof {
                assert(run@ =~= d.subrange(start as int, i as int));
                assert forall|k: int| 0 <= k < run@.len() implies run@[k] < 128 by {
                    assert(is_printable(d[start + k]));
                }
            }
            let s = decode_utf8_lossy(run);
            let sc = crate::common::text::chars_of(s.as_str());
            if sc.len() > best.len() && (contains_char(sc.as_slice(), '/') || contains_char(
                sc.as_slice(),
                '\\',
            ) || contains_char(sc.as_slice(), '.')) {
                best = sc;
            }
        }
    }
    crate::common::text::string_from_chars(best.as_slice())
}

/// The path of one sample record: the NUL-terminated text at offset 0x0C,
/// or, when that is empty, the path guessed from the whole record.
pub open spec fn sample_path_of(record: Seq<u8>) -> Seq<char> {
    let p = utf8_lossy(before_nul(record.skip(0x0C)));
    if p.len() > 0 {
        p
    } else {
        heuristic_path(record)
    }
}

/// The `n` sample paths of a sample section; records past its end give an
/// empty path.
pub open spec fn sample_paths(section: Seq<u8>, n: nat) -> Seq<Seq<char>> {
    Seq::new(
        n,
        |i: int|
            if i * 0x40 + 0x40 <= section.len() {
                sample_path_of(section.subrange(i * 0x40, i * 0x40 + 0x40))
            } else {
                Seq::empty()
            },
    )
}

/// Reads the paths of `num_samples` sample records, one entry per sample.
pub fn extract_sample_paths(section: &[u8], num_samples: usize) -> (r: Vec<String>)
    ensures
        r@.len() == num_samples,
        forall|i: int| 0 <= i < num_samples ==> #[trigger] r@[i]@ == sample_paths(section@, num_samples as nat)[i],
{
    let ghost want = sample_paths(section@, num_samples as nat);
    let mut paths: Vec<String> = Vec::new();
    let mut i: usize = 0;
    while i < num_samples
        invariant
            i <= num_samples,
            paths@.len() == i,
            want == sample_paths(section@, num_samples as nat),
            forall|k: int| 0 <= k < i ==> #[trigger] paths@[k]@ == want[k],
        decreases num_samples - i,
    {
        if section.len() / 0x40 <= i {
            assert(i * 0x40 + 0x40 > section@.len()) by (nonlinear_arith)
                requires section@.len() / 0x40 <= i;
            paths.push(String::new());
        } else {
            assert(i * 0x40 + 0x40 <= section@.len()) by (nonlinear_arith)
                requires section@.len() / 0x40 > i;
            let off = i * 0x40;
            let record = &section[off..off + 0x40];
            let path_bytes = &record[0x0C..0x40];
            let len = find_nul(path_bytes);
            proof {
                lemma_first_nul(path_bytes@);
            }
            let text = &path_bytes[0..len];
            proof {
                assert(path_bytes@ =~= record@.skip(0x0C));
                assert(text@ =~= before_nul(record@.skip(0x0C)));
                assert(record@ =~= section@.subrange(i * 0x40, i * 0x40 + 0x40));
            }
            let path = decode_utf8_lossy(text);
            if !path.as_str().is_empty() {
                paths.push(path);
            } else {
                paths.push(heuristic_extract_path(record));
            }
        }
        i = i + 1;
    }
    paths
}


// ---------------------------------------------------------------------------
// The file
// ---------------------------------------------------------------------------

/// Why an EXS file was refused.
pub enum ExsError {
    /// Shorter than the 0x80-byte header.
    TooSmall,
    /// The first four bytes, which are not `TBOD`.
    InvalidMagic(Vec<u8>),
}

/// The zone records and sample paths of an EXS file.
pub struct ExsContents {
    pub zones: Vec<ExsZone>,
    pub sample_paths: Vec<String>,
}

pub open spec fn exs_magic_ok(d: Seq<u8>) -> bool {
    d[0] == 0x54 && d[1] == 0x42 && d[2] == 0x4F && d[3] == 0x44
}

/// The zones that the header's zone offset and count describe, when they
/// all lie inside the file; none otherwise.
pub open spec fn exs_zones(d: Seq<u8>) -> Seq<ExsZone> {
    let zo = u32_at(d, 8);
    let nz = u32_at(d, 20);
    if zo > 0 && nz > 0 && zo + nz * 0x80 <= d.len() {
        Seq::new(nz as nat, |i: int| zone_of(d.subrange(zo + i * 0x80, zo + i * 0x80 + 0x80)))
    } else {
        Seq::empty()
    }
}

/// The sample paths that the header's sample offset and count describe;
/// none when the offset or the count is zero or the offset is past the end.
pub open spec fn exs_sample_paths(d: Seq<u8>) -> Seq<Seq<char>> {
    let so = u32_at(d, 16);
    let ns = u32_at(d, 28);
    if so > 0 && ns > 0 && so < d.len() {
        sample_paths(d.skip(so), ns as nat)
    } else {
        Seq::empty()
    }
}

/// Reads the header, the zone records and the sample paths of an EXS file.
pub fn parse_exs_records(data: &[u8]) -> (r: Result<ExsContents, ExsError>)
    ensures
        data@.len() < 0x80 ==> r matches Err(ExsError::TooSmall),
        data@.len() >= 0x80 && !exs_magic_ok(data@) ==> (r matches Err(ExsError::InvalidMagic(m))
            && m@ == data@.take(4)),
        data@.len() >= 0x80 && exs_magic_ok(data@) ==> (r matches Ok(c) && c.zones@ == exs_zones(
            data@,
        ) && c.sample_paths@.len() == exs_sample_paths(data@).len() && (forall|i: int|
            0 <= i < c.sample_paths@.len() ==> #[trigger] c.sample_paths@[i]@
                == exs_sample_paths(data@)[i])),
{
    if data.len() < EXS_HEADER_SIZE {
        return Err(ExsError::TooSmall);
    }
    if !(data[0] == 0x54 && data[1] == 0x42 && data[2] == 0x4F && data[3] == 0x44) {
        let mut m: Vec<u8> = Vec::new();
        m.push(data[0]);
        m.push(data[1]);
        m.push(data[2]);
        m.push(data[3]);
        assert(m@ =~= data@.take(4));
        return Err(ExsError::InvalidMagic(m));
    }
    let zone_offset = get_u32(data, 8) as usize;
    let sample_offset = get_u32(data, 16) as usize;
    let num_zones = get_u32(data, 20) as usize;
    let num_samples = get_u32(data, 28) as usize;

    let sample_paths = if sample_offset > 0 && num_samples > 0 && sample_offset < data.len() {
        let section = &data[sample_offset..data.len()];
        assert(section@ =~= data@.skip(sample_offset as int));
        extract_sample_paths(section, num_samples)
    } else {
        Vec::new()
    };

    let ghost want = exs_zones(data@);
    let mut zones: Vec<ExsZone> = Vec::new();
    let dlen = data.len();
    let zo = zone_offset as u64;
    let nz = num_zones as u64;
    if zo > 0 && nz > 0 && zo + nz * 0x80 <= data.len() as u64 {
        let mut i: usize = 0;
        while i < num_zones
            invariant
                i <= num_zones == nz,
                dlen == data@.len(),
                zone_offset == u32_at(data@, 8),
                num_zones == u32_at(data@, 20),
                zo == zone_offset,
                zo > 0 && nz > 0 && zo + nz * 0x80 <= data@.len(),
                want == exs_zones(data@),
                want.len() == nz,
                zones@.len() == i,
                forall|k: int| 0 <= k < i ==> #[trigger] zones@[k] == want[k],
            decreases num_zones - i,
        {
            assert(zone_offset + i * 0x80 + 0x80 <= data@.len()) by (nonlinear_arith)
                requires
                    i < nz,
                    zo == zone_offset,
                    zo + nz * 0x80 <= data@.len(),
            ;
            assert(zone_offset + i * 0x80 + 0x80 <= dlen);
            let off = zone_offset + i * 0x80;
            let record = &data[off..off + 0x80];
            assert(record@ =~= data@.subrange(zone_offset + i * 0x80, zone_offset + i * 0x80 + 0x80));
            zones.push(parse_zone_record(record));
            i = i + 1;
        }
    } else {
        assert(want =~= Seq::<ExsZone>::empty());
    }
    assert(zones@ =~= want);
    Ok(ExsContents { zones, sample_paths })
}

// ---------------------------------------------------------------------------
// Grouping
// ---------------------------------------------------------------------------

/// The indices of the zones that belong to group `g`, in file order.
pub open spec fn zones_in_group(zones: Seq<ExsZone>, g: u32) -> Seq<int>
    decreases zones.len(),
{
    if zones.len() == 0 {
        Seq::empty()
    } else {
        let prev = zones_in_group(zones.drop_last(), g);
        if zones.last().group_index == g {
            prev.push(zones.len() - 1)
        } else {
            prev
        }
    }
}

/// One group of the patch: its index and the zones (by position) it holds.
pub struct ExsGroupPlan {
    pub group_index: u32,
    pub zone_indices: Vec<usize>,
}

/// The group indices of a plan, in order.
pub open spec fn plan_indices(plan: Seq<ExsGroupPlan>) -> Seq<u32> {
    plan.map_values(|p: ExsGroupPlan| p.group_index)
}

/// The groups of a patch: one per group index that some zone names, in
/// ascending order of index, each listing its zones in file order.
pub open spec fn is_group_plan(zones: Seq<ExsZone>, plan: Seq<ExsGroupPlan>) -> bool {
    &&& is_ascending(plan_indices(plan))
    &&& forall|k: int| 0 <= k < zones.len() ==> plan_indices(plan).contains(#[trigger] zones[k].group_index)
    &&& forall|j: int| 0 <= j < plan.len() ==> (#[trigger] plan[j].zone_indices@).map_values(
        |x: usize| x as int,
    ) == zones_in_group(zones, plan[j].group_index)
    &&& forall|j: int| 0 <= j < plan.len() ==> zones_in_group(zones, #[trigger] plan[j].group_index).len() > 0
}

proof fn lemma_group_nonempty(zones: Seq<ExsZone>, g: u32, k: int)
    requires
        0 <= k < zones.len(),
        zones[k].group_index == g,
    ensures
        zones_in_group(zones, g).len() > 0,
    decreases zones.len(),
{
    if k < zones.len() - 1 {
        assert(zones.drop_last()[k] == zones[k]);
        lemma_group_nonempty(zones.drop_last(), g, k);
    }
}

/// The indices of the zones in group `g`.
fn collect_group(zones: &[ExsZone], g: u32) -> (r: Vec<usize>)
    ensures
        r@.map_values(|x: usize| x as int) == zones_in_group(zones@, g),
{
    let mut out: Vec<usize> = Vec::new();
    let mut i: usize = 0;
    while i < zones.len()
        invariant
            i <= zones@.len(),
            out@.map_values(|x: usize| x as int) == zones_in_group(zones@.take(i as int), g),
        decreases zones@.len() - i,
    {
        proof {
            assert(zones@.take(i + 1).drop_last() =~= zones@.take(i as int));
        }
        let ghost before = out@;
        if zones[i].group_index == g {
            out.push(i);
            assert(out@.map_values(|x: usize| x as int) =~= before.map_values(|x: usize| x as int).push(i as int));
        }
        i = i + 1;
    }
    assert(zones@.take(zones@.len() as int) =~= zones@);
    out
}

pub open spec fn is_ascending(s: Seq<u32>) -> bool {
    forall|a: int, b: int| 0 <= a < b < s.len() ==> s[a] < s[b]
}

/// Adds `g` to an ascending sequence of distinct values, where it is not
/// there already.
fn insert_ascending(keys: &mut Vec<u32>, g: u32)
    requires
        is_ascending(old(keys)@),
    ensures
        is_ascending(final(keys)@),
        final(keys)@.contains(g),
        forall|v: u32| old(keys)@.contains(v) ==> #[trigger] final(keys)@.contains(v),
        forall|v: u32| #[trigger] final(keys)@.contains(v) ==> v == g || old(keys)@.contains(v),
{
    let mut pos: usize = 0;
    while pos < keys.len() && keys[pos] < g
        invariant
            pos <= keys@.len(),
            forall|a: int| 0 <= a < pos ==> keys@[a] < g,
        decreases keys@.len() - pos,
    {
        pos = pos + 1;
    }
    if pos < keys.len() && keys[pos] == g {
        assert(keys@[pos as int] == g);
        return;
    }
    let ghost before = keys@;
    keys.insert(pos, g);
    assert(keys@[pos as int] == g);
    assert forall|a: int, b: int| 0 <= a < b < keys@.len() implies keys@[a] < keys@[b] by {
        if b < pos {
            assert(keys@[a] == before[a] && keys@[b] == before[b]);
        } else if b == pos {
            assert(keys@[a] == before[a]);
        } else if a < pos {
            assert(keys@[a] == before[a]);
            assert(keys@[b] == before[b - 1]);
            assert(before[pos as int] > g);
            if b - 1 > pos {
                assert(before[pos as int] < before[b - 1]);
            }
        } else if a == pos {
            assert(keys@[b] == before[b - 1]);
            assert(before[pos as int] > g);
            if b - 1 > pos {
                assert(before[pos as int] < before[b - 1]);
            }
        } else {
            assert(keys@[a] == before[a - 1]);
            assert(keys@[b] == before[b - 1]);
        }
    }
    assert forall|v: u32| before.contains(v) implies #[trigger] keys@.contains(v) by {
        let w = choose|w: int| 0 <= w < before.len() && before[w] == v;
        if w < pos {
            assert(keys@[w] == before[w]);
        } else {
            assert(keys@[w + 1] == before[w]);
        }
    }
    assert forall|v: u32| #[trigger] keys@.contains(v) implies v == g || before.contains(v) by {
        let x = choose|x: int| 0 <= x < keys@.len() && keys@[x] == v;
        if x < pos {
            assert(keys@[x] == before[x]);
        } else if x > pos {
            assert(keys@[x] == before[x - 1]);
        }
    }
}

/// Groups the zones of a patch by their group index, ascending.
pub fn exs_group_plan(zones: &[ExsZone]) -> (plan: Vec<ExsGroupPlan>)
    ensures
        is_group_plan(zones@, plan@),
{
    // Distinct group indices, kept sorted.
    let mut keys: Vec<u32> = Vec::new();
    let mut i: usize = 0;
    while i < zones.len()
        invariant
            i <= zones@.len(),
            is_ascending(keys@),
            forall|k: int| 0 <= k < i ==> keys@.contains(#[trigger] zones@[k].group_index),
            forall|v: u32| #[trigger] keys@.contains(v) ==> exists|k: int| 0 <= k < i && #[trigger] zones@[k].group_index == v,
        decreases zones@.len() - i,
    {
        let ghost before = keys@;
        insert_ascending(&mut keys, zones[i].group_index);
        proof {
            assert forall|v: u32| #[trigger] keys@.contains(v) implies exists|k: int| 0 <= k < i + 1 && #[trigger] zones@[k].group_index == v by {
                if v == zones@[i as int].group_index {
                } else {
                    assert(before.contains(v));
                }
            }
        }
        i = i + 1;
    }
    let mut plan: Vec<ExsGroupPlan> = Vec::new();
    let mut j: usize = 0;
    while j < keys.len()
        invariant
            j <= keys@.len(),
            plan@.len() == j,
            is_ascending(keys@),
            forall|k: int| 0 <= k < zones@.len() ==> keys@.contains(#[trigger] zones@[k].group_index),
            forall|v: u32| #[trigger] keys@.contains(v) ==> exists|k: int| 0 <= k < zones@.len() && #[trigger] zones@[k].group_index == v,
            forall|x: int| 0 <= x < j ==> #[trigger] plan@[x].group_index == keys@[x],
            forall|x: int| 0 <= x < j ==> (#[trigger] plan@[x].zone_indices@).map_values(|y: usize| y as int)
                == zones_in_group(zones@, plan@[x].group_index),
        decreases keys@.len() - j,
    {
        let g = keys[j];
        let members = collect_group(zones, g);
        plan.push(ExsGroupPlan { group_index: g, zone_indices: members });
        j = j + 1;
    }
    proof {
        assert(plan_indices(plan@) =~= keys@);
        assert forall|x: int| 0 <= x < plan@.len() implies zones_in_group(zones@, #[trigger] plan@[x].group_index).len() > 0 by {
            assert(plan@[x].group_index == keys@[x]);
            assert(keys@.contains(keys@[x]));
            let k = choose|k: int| 0 <= k < zones@.len() && #[trigger] zones@[k].group_index == keys@[x];
            lemma_group_nonempty(zones@, keys@[x], k);
        }
    }
    plan
}

} // verus!
