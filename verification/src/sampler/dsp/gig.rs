//! GigaSampler (GIG) files: the RIFF chunk walk, the `cnfg` zone records and
//! the sample rates of the `wave` chunks.

use vstd::prelude::*;
use crate::common::byte_reader::{as_signed8, fourcc, get_u32, u32_at, u8_to_i8, ByteReader};

verus! {

/// Size of one zone record inside a `cnfg` chunk.
pub const GIG_ZONE_RECORD_SIZE: usize = 16;

/// The mapping fields of one zone record.
#[derive(Debug, Clone, Copy, PartialEq, Eq, Structural)]
pub struct GigZoneConfig {
    pub key_low: u8,
    pub key_high: u8,
    pub vel_low: u8,
    pub vel_high: u8,
    pub root_key: u8,
    pub fine_tune: i8,
    pub volume: i8,
    pub pan: i8,
    pub sample_index: u32,
}

/// The zone record at the start of `d`.
pub open spec fn config_of(d: Seq<u8>) -> GigZoneConfig {
    GigZoneConfig {
        key_low: d[0],
        key_high: d[1],
        vel_low: d[2],
        vel_high: d[3],
        root_key: d[4],
        fine_tune: as_signed8(d[5] as int) as i8,
        volume: as_signed8(d[6] as int) as i8,
        pan: as_signed8(d[7] as int) as i8,
        sample_index: u32_at(d, 8) as u32,
    }
}

/// The whole 16-byte zone records of a `cnfg` chunk; a trailing partial
/// record is left out.
pub open spec fn cnfg_configs(d: Seq<u8>) -> Seq<GigZoneConfig> {
    Seq::new(d.len() / 16, |i: int| config_of(d.subrange(i * 16, i * 16 + 16)))
}

/// Reads the zone records of a `cnfg` chunk.
pub fn parse_cnfg(data: &[u8]) -> (r: Result<Vec<GigZoneConfig>, String>)
    ensures
        r matches Ok(v) && v@ == cnfg_configs(data@),
{
    let ghost want = cnfg_configs(data@);
    let mut configs: Vec<GigZoneConfig> = Vec::new();
    if data.len() < GIG_ZONE_RECORD_SIZE {
        assert(want =~= Seq::<GigZoneConfig>::empty());
        return Ok(configs);
    }
    let num_zones = data.len() / GIG_ZONE_RECORD_SIZE;
    let dlen = data.len();
    let mut i: usize = 0;
    while i < num_zones
        invariant
            dlen == data@.len(),
            num_zones == data@.len() / 16,
            i <= num_zones,
            want == cnfg_configs(data@),
            configs@.len() == i,
            forall|k: int| 0 <= k < i ==> #[trigger] configs@[k] == want[k],
        decreases num_zones - i,
    {
        assert(i * 16 + 16 <= data@.len()) by (nonlinear_arith)
            requires
                i < num_zones,
                num_zones == data@.len() / 16,
        ;
        assert(i * 16 + 16 <= dlen);
        let off = i * 16;
        let rec = &data[off..off + 16];
        assert(rec@ =~= data@.subrange(i * 16, i * 16 + 16));
        configs.push(
            GigZoneConfig {
                key_low: rec[0],
                key_high: rec[1],
                vel_low: rec[2],
                vel_high: rec[3],
                root_key: rec[4],
                fine_tune: u8_to_i8(rec[5]),
                volume: u8_to_i8(rec[6]),
                pan: u8_to_i8(rec[7]),
                sample_index: get_u32(rec, 8),
            },
        );
        i = i + 1;
    }
    assert(configs@ =~= want);
    Ok(configs)
}

// ---------------------------------------------------------------------------
// Sample rates
// ---------------------------------------------------------------------------

/// The sample rate in the first `fmt ` sub-chunk found walking the
/// sub-chunks of `d` from `pos`; `None` when the walk ends first, when a
/// sub-chunk runs past the end, or when the `fmt ` sub-chunk is too short.
pub open spec fn fmt_rate_from(d: Seq<u8>, pos: int) -> Option<u32>
    decreases d.len() - pos,
{
    if pos < 0 || pos + 8 > d.len() {
        None
    } else {
        let size = u32_at(d, pos + 4);
        let p = pos + 8;
        if p + size > d.len() {
            None
        } else if d.subrange(pos, pos + 4) == fourcc(0x66, 0x6D, 0x74, 0x20) {
            if size >= 16 && p + 16 <= d.len() {
                Some(u32_at(d, p + 4) as u32)
            } else {
                None
            }
        } else {
            let next = p + size;
            let after = if size % 2 == 1 && next + 1 <= d.len() {
                next + 1
            } else {
                next
            };
            fmt_rate_from(d, after)
        }
    }
}

/// Finds the sample rate in the `fmt ` sub-chunk of a wave chunk.
pub fn extract_sample_rate(data: &[u8]) -> (r: Option<u32>)
    ensures
        r == fmt_rate_from(data@, 0),
{
    let mut reader = ByteReader::new(data);
    while data.len() - reader.pos >= 8
        invariant
            reader.wf(),
            reader.data@ == data@,
            fmt_rate_from(data@, 0) == fmt_rate_from(data@, reader.pos as int),
        decreases data@.len() - reader.pos,
    {
        let ghost pos0 = reader.pos as int;
        let id = match reader.read_fourcc() {
            Ok(v) => v,
            Err(_) => return None,
        };
        let size = match reader.read_u32() {
            Ok(v) => v,
            Err(_) => return None,
        };
        if size as usize > data.len() - reader.pos {
            return None;
        }
        if id[0] == 0x66 && id[1] == 0x6D && id[2] == 0x74 && id[3] == 0x20 {
            assert(data@.subrange(pos0, pos0 + 4) =~= fourcc(0x66, 0x6D, 0x74, 0x20));
            if size >= 16 && reader.pos + 16 <= data.len() {
                let _format_tag = reader.read_u16();
                let _channels = reader.read_u16();
                return match reader.read_u32() {
                    Ok(rate) => Some(rate),
                    Err(_) => Some(48000),
                };
            }
            return None;
        }
        assert(data@.subrange(pos0, pos0 + 4) != fourcc(0x66, 0x6D, 0x74, 0x20)) by {
            if data@.subrange(pos0, pos0 + 4) == fourcc(0x66, 0x6D, 0x74, 0x20) {
                assert(id@[0] == data@.subrange(pos0, pos0 + 4)[0]);
                assert(id@[1] == data@.subrange(pos0, pos0 + 4)[1]);
                assert(id@[2] == data@.subrange(pos0, pos0 + 4)[2]);
                assert(id@[3] == data@.subrange(pos0, pos0 + 4)[3]);
            }
        }
        match reader.skip(size as usize) {
            Ok(_) => {},
            Err(_) => return None,
        }
        if size % 2 == 1 {
            let _ = reader.skip(1);
        }
    }
    None
}

/// The rate a wave chunk's sample plays at: the rate of its `fmt `
/// sub-chunk, or 48000 when there is none or it is zero.
pub open spec fn wave_rate(d: Seq<u8>) -> u32 {
    match fmt_rate_from(d, 0) {
        Some(r) => if r > 0 {
            r
        } else {
            48000
        },
        None => 48000,
    }
}

/// The sample rate of a `wave` chunk or `LIST wave` body.
pub fn wave_sample_rate(data: &[u8]) -> (r: u32)
    ensures
        r == wave_rate(data@),
{
    match extract_sample_rate(data) {
        Some(rate) => if rate > 0 {
            rate
        } else {
            48000
        },
        None => 48000,
    }
}

// ---------------------------------------------------------------------------
// The file
// ---------------------------------------------------------------------------

/// Why a GIG file was refused.
pub enum GigError {
    /// The header ended early; the message of the read that failed.
    Read(String),
    /// The first four bytes, which are not `RIFF`.
    NotRiff(Vec<u8>),
    /// A chunk's padded size runs past the end of the file.
    ChunkPastEnd,
}

/// The zone records and the sample rates of the wave chunks of a GIG file,
/// in file order.
pub struct GigContents {
    pub zone_configs: Vec<GigZoneConfig>,
    pub sample_rates: Vec<u32>,
}

/// The zone records (those of the last `cnfg` chunk) and the wave sample
/// rates that the chunks from `pos` on add to `cfgs` and `rates`, stopping
/// when fewer than 8 bytes are left before `limit`; `None` when a chunk runs
/// past the end of the data.
pub open spec fn gig_walk(
    d: Seq<u8>,
    pos: int,
    limit: int,
    cfgs: Seq<GigZoneConfig>,
    rates: Seq<u32>,
) -> Option<(Seq<GigZoneConfig>, Seq<u32>)>
    decreases d.len() - pos,
{
    if pos < 0 || pos + 8 > limit || pos + 8 > d.len() {
        Some((cfgs, rates))
    } else {
        let id = d.subrange(pos, pos + 4);
        let size = u32_at(d, pos + 4);
        let p = pos + 8;
        let padded = size + size % 2;
        if p + padded > d.len() {
            None
        } else {
            let chunk = d.subrange(p, p + size);
            let cfgs2 = if id == fourcc(0x63, 0x6E, 0x66, 0x67) {
                cnfg_configs(chunk)
            } else {
                cfgs
            };
            let rates2 = if id == fourcc(0x77, 0x61, 0x76, 0x65) {
                rates.push(wave_rate(chunk))
            } else if id == fourcc(0x4C, 0x49, 0x53, 0x54) && chunk.len() >= 4 && chunk.take(4)
                == fourcc(0x77, 0x61, 0x76, 0x65) {
                rates.push(wave_rate(chunk.skip(4)))
            } else {
                rates
            };
            gig_walk(d, p + padded, limit, cfgs2, rates2)
        }
    }
}

/// The chunk walk of a whole file: from byte 12 to the end that the RIFF
/// size gives, or the end of the data if that comes first.
pub open spec fn gig_chunks(d: Seq<u8>) -> Option<(Seq<GigZoneConfig>, Seq<u32>)> {
    let end = 8 + u32_at(d, 4);
    let limit = if end < d.len() {
        end
    } else {
        d.len() as int
    };
    gig_walk(d, 12, limit, Seq::empty(), Seq::empty())
}

pub open spec fn is_fourcc_at(d: Seq<u8>, pos: int, a: u8, b: u8, c: u8, e: u8) -> bool {
    d[pos] == a && d[pos + 1] == b && d[pos + 2] == c && d[pos + 3] == e
}

/// Walks the chunks of a GIG file.
pub fn parse_gig_chunks(data: &[u8]) -> (r: Result<GigContents, GigError>)
    ensures
        data@.len() < 4 ==> r matches Err(GigError::Read(_)),
        data@.len() >= 4 && !is_fourcc_at(data@, 0, 0x52, 0x49, 0x46, 0x46) ==> (r matches Err(
            GigError::NotRiff(id),
        ) && id@ == data@.take(4)),
        data@.len() >= 4 && is_fourcc_at(data@, 0, 0x52, 0x49, 0x46, 0x46) && data@.len() < 12
            ==> r matches Err(GigError::Read(_)),
        data@.len() >= 12 && is_fourcc_at(data@, 0, 0x52, 0x49, 0x46, 0x46) ==> match gig_chunks(
            data@,
        ) {
            Some((cfgs, rates)) => r matches Ok(c) && c.zone_configs@ == cfgs && c.sample_rates@
                == rates,
            None => r matches Err(GigError::ChunkPastEnd),
        },
{
    let mut reader = ByteReader::new(data);
    let riff = match reader.read_fourcc() {
        Ok(v) => v,
        Err(e) => return Err(GigError::Read(e)),
    };
    if !(riff[0] == 0x52 && riff[1] == 0x49 && riff[2] == 0x46 && riff[3] == 0x46) {
        let mut id: Vec<u8> = Vec::new();
        id.push(riff[0]);
        id.push(riff[1]);
        id.push(riff[2]);
        id.push(riff[3]);
        assert(id@ =~= data@.take(4));
        return Err(GigError::NotRiff(id));
    }
    assert(riff@[0] == data@[0] && riff@[1] == data@[1] && riff@[2] == data@[2] && riff@[3] == data@[3]);
    let file_size = match reader.read_u32() {
        Ok(v) => v,
        Err(e) => return Err(GigError::Read(e)),
    };
    let _form_type = match reader.read_fourcc() {
        Ok(v) => v,
        Err(e) => return Err(GigError::Read(e)),
    };
    let end_pos: u64 = 8 + file_size as u64;
    let limit: usize = if end_pos < data.len() as u64 {
        end_pos as usize
    } else {
        data.len()
    };
    let mut zone_configs: Vec<GigZoneConfig> = Vec::new();
    let mut sample_rates: Vec<u32> = Vec::new();
    while reader.pos <= limit && limit - reader.pos >= 8
        invariant
            reader.wf(),
            reader.data@ == data@,
            data@.len() >= 12,
            is_fourcc_at(data@, 0, 0x52, 0x49, 0x46, 0x46),
            limit <= data@.len(),
            limit == (if 8 + u32_at(data@, 4) < data@.len() { 8 + u32_at(data@, 4) } else { data@.len() as int }),
            gig_chunks(data@) == gig_walk(data@, reader.pos as int, limit as int, zone_configs@, sample_rates@),
        decreases data@.len() - reader.pos,
    {
        let ghost pos0 = reader.pos as int;
        let id = match reader.read_fourcc() {
            Ok(v) => v,
            Err(e) => return Err(GigError::Read(e)),
        };
        let chunk_size = match reader.read_u32() {
            Ok(v) => v,
            Err(e) => return Err(GigError::Read(e)),
        };
        let padded: u64 = chunk_size as u64 + (chunk_size % 2) as u64;
        if padded > (data.len() - reader.pos) as u64 {
            return Err(GigError::ChunkPastEnd);
        }
        let chunk = match reader.read_bytes(chunk_size as usize) {
            Ok(v) => v,
            Err(e) => return Err(GigError::Read(e)),
        };
        if chunk_size % 2 == 1 {
            match reader.skip(1) {
                Ok(_) => {},
                Err(e) => return Err(GigError::Read(e)),
            }
        }
        let ghost idv = data@.subrange(pos0, pos0 + 4);
        assert(id@ == idv);
        let is_cnfg = id[0] == 0x63 && id[1] == 0x6E && id[2] == 0x66 && id[3] == 0x67;
        let is_wave = id[0] == 0x77 && id[1] == 0x61 && id[2] == 0x76 && id[3] == 0x65;
        let is_list = id[0] == 0x4C && id[1] == 0x49 && id[2] == 0x53 && id[3] == 0x54;
        proof {
            lemma_fourcc_eq(idv, 0x63, 0x6E, 0x66, 0x67);
            lemma_fourcc_eq(idv, 0x77, 0x61, 0x76, 0x65);
            lemma_fourcc_eq(idv, 0x4C, 0x49, 0x53, 0x54);
        }
        if is_cnfg {
            match parse_cnfg(chunk) {
                Ok(v) => {
                    zone_configs = v;
                },
                Err(_) => {},
            }
        } else if is_wave {
            sample_rates.push(wave_sample_rate(chunk));
        } else if is_list && chunk.len() >= 4 {
            proof {
                lemma_fourcc_eq(chunk@.take(4), 0x77, 0x61, 0x76, 0x65);
            }
            if chunk[0] == 0x77 && chunk[1] == 0x61 && chunk[2] == 0x76 && chunk[3] == 0x65 {
                let body = &chunk[4..chunk.len()];
                assert(body@ =~= chunk@.skip(4));
                sample_rates.push(wave_sample_rate(body));
            }
        }
    }
    Ok(GigContents { zone_configs, sample_rates })
}

proof fn lemma_fourcc_eq(s: Seq<u8>, a: u8, b: u8, c: u8, e: u8)
    requires
        s.len() == 4,
    ensures
        (s == fourcc(a, b, c, e)) == (s[0] == a && s[1] == b && s[2] == c && s[3] == e),
{
    if s[0] == a && s[1] == b && s[2] == c && s[3] == e {
        assert(s =~= fourcc(a, b, c, e));
    }
}

// ---------------------------------------------------------------------------
// Laws of the file walk
// ---------------------------------------------------------------------------

/// A top-level chunk: its four-byte identifier and its body.
pub ghost struct RawGigChunk {
    pub id: Seq<u8>,
    pub body: Seq<u8>,
}

/// The top-level chunks from `pos` on, in file order, each followed by a pad
/// byte when its size is odd, stopping when fewer than 8 bytes are left
/// before `limit`; `None` when a chunk runs past the end of the data.
pub open spec fn top_chunks(d: Seq<u8>, pos: int, limit: int) -> Option<Seq<RawGigChunk>>
    decreases d.len() - pos,
{
    if pos < 0 || pos + 8 > limit || pos + 8 > d.len() {
        Some(Seq::empty())
    } else {
        let size = u32_at(d, pos + 4);
        let p = pos + 8;
        if p + size + size % 2 > d.len() {
            None
        } else {
            match top_chunks(d, p + size + size % 2, limit) {
                Some(rest) => Some(
                    seq![RawGigChunk { id: d.subrange(pos, pos + 4), body: d.subrange(p, p + size) }] + rest,
                ),
                None => None,
            }
        }
    }
}

/// The top-level chunks of a whole file, from byte 12 to the end that the
/// RIFF size gives, or the end of the data if that comes first.
pub open spec fn file_chunks(d: Seq<u8>) -> Option<Seq<RawGigChunk>> {
    let end = 8 + u32_at(d, 4);
    top_chunks(d, 12, if end < d.len() { end } else { d.len() as int })
}

/// The sample a chunk holds: the body of a `wave` chunk, or the body after
/// the type of a `LIST` chunk of type `wave`.
pub open spec fn wave_of(c: RawGigChunk) -> Option<Seq<u8>> {
    if c.id == seq![0x77u8, 0x61, 0x76, 0x65] {
        Some(c.body)
    } else if c.id == seq![0x4Cu8, 0x49, 0x53, 0x54] && c.body.len() >= 4 && c.body.take(4) == seq![
        0x77u8,
        0x61,
        0x76,
        0x65,
    ] {
        Some(c.body.skip(4))
    } else {
        None
    }
}

/// One rate for each chunk that holds a sample, in order.
pub open spec fn rates_of(cs: Seq<RawGigChunk>) -> Seq<u32>
    decreases cs.len(),
{
    if cs.len() == 0 {
        Seq::empty()
    } else {
        match wave_of(cs[0]) {
            Some(b) => seq![wave_rate(b)] + rates_of(cs.drop_first()),
            None => rates_of(cs.drop_first()),
        }
    }
}

proof fn lemma_walk_rates(
    d: Seq<u8>,
    pos: int,
    limit: int,
    cfgs: Seq<GigZoneConfig>,
    rates: Seq<u32>,
)
    ensures
        gig_walk(d, pos, limit, cfgs, rates) is Some <==> top_chunks(d, pos, limit) is Some,
        gig_walk(d, pos, limit, cfgs, rates) matches Some((c, r)) ==> r == rates + rates_of(
            top_chunks(d, pos, limit)->Some_0,
        ),
    decreases d.len() - pos,
{
    if pos < 0 || pos + 8 > limit || pos + 8 > d.len() {
        assert(rates + Seq::<u32>::empty() =~= rates);
    } else {
        let id = d.subrange(pos, pos + 4);
        let size = u32_at(d, pos + 4);
        let p = pos + 8;
        let padded = size + size % 2;
        if p + padded <= d.len() {
            let chunk = d.subrange(p, p + size);
            let cfgs2 = if id == fourcc(0x63, 0x6E, 0x66, 0x67) {
                cnfg_configs(chunk)
            } else {
                cfgs
            };
            let c = RawGigChunk { id, body: chunk };
            assert(fourcc(0x77, 0x61, 0x76, 0x65) == seq![0x77u8, 0x61, 0x76, 0x65]);
            assert(fourcc(0x4C, 0x49, 0x53, 0x54) == seq![0x4Cu8, 0x49, 0x53, 0x54]);
            let rates2 = match wave_of(c) {
                Some(b) => rates.push(wave_rate(b)),
                None => rates,
            };
            lemma_walk_rates(d, p + padded, limit, cfgs2, rates2);
            if let Some(rest) = top_chunks(d, p + padded, limit) {
                let cs = seq![c] + rest;
                assert(cs[0] == c);
                assert(cs.drop_first() =~= rest);
                match wave_of(c) {
                    Some(b) => {
                        assert(rates.push(wave_rate(b)) + rates_of(rest) =~= rates + (seq![wave_rate(b)]
                            + rates_of(rest)));
                    },
                    None => {},
                }
            }
        }
    }
}

/// A GIG file whose chunks all fit yields one sample rate for each
/// top-level `wave` chunk and each `LIST` chunk of type `wave`, in file
/// order, the rate of that chunk's `fmt ` sub-chunk (48000 when it has none
/// or it is zero); a file with a chunk running past its end is refused.
pub proof fn law_gig_rates_follow_wave_chunks(d: Seq<u8>)
    ensures
        gig_chunks(d) is Some <==> file_chunks(d) is Some,
        gig_chunks(d) matches Some((c, r)) ==> r == rates_of(file_chunks(d)->Some_0),
{
    let end = 8 + u32_at(d, 4);
    let limit = if end < d.len() { end } else { d.len() as int };
    lemma_walk_rates(d, 12, limit, Seq::empty(), Seq::empty());
    if let Some(cs) = file_chunks(d) {
        assert(Seq::<u32>::empty() + rates_of(cs) =~= rates_of(cs));
    }
}

} // verus!
