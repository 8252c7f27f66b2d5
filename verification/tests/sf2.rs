use std::collections::HashMap;

use maolan_plugins::common::byte_reader::ByteReader;
use maolan_plugins::sampler::dsp::sf2_zones::{
    apply_generator_mod_routes, sample_word, build_mod_matrix, build_presets, plan_presets, sample_frames, sample_loop,
    slice_window, stereo_partner, Depth, RoutePlan,
};
use maolan_plugins::sampler::dsp::mod_matrix::{ModSource, ModTarget};
use maolan_plugins::sampler::dsp::zone::LoopMode;
use maolan_plugins::sampler::dsp::sf2::{
    GeneratorSet, Modulator, Pdta, GEN_MOD_LFO_TO_PITCH, GEN_MOD_LFO_TO_VOLUME, GEN_COARSE_TUNE, GEN_END_ADDRS_OFFSET, GEN_INITIAL_ATTENUATION,
    GEN_INSTRUMENT, GEN_KEY_RANGE, GEN_PAN, GEN_SAMPLE_ID, GEN_SAMPLE_MODES, GEN_START_ADDRS_OFFSET,
    GEN_VEL_RANGE, GEN_INITIAL_FILTER_FC,
};

#[test]
fn test_byte_reader() {
    let data = b"RIFF\x10\x00\x00\x00sfbk";
    let mut r = ByteReader::new(data);
    assert_eq!(r.read_fourcc().unwrap(), *b"RIFF");
    assert_eq!(r.read_u32().unwrap(), 16);
    assert_eq!(r.read_fourcc().unwrap(), *b"sfbk");
}

#[test]
fn test_generator_set_global_and_zone() {
    let mut global = HashMap::new();
    global.insert(GEN_KEY_RANGE, (40u16 | (60u16 << 8)) as i16);
    global.insert(GEN_PAN, 250i16);

    let mut zone = HashMap::new();
    zone.insert(GEN_PAN, -250i16);
    zone.insert(GEN_SAMPLE_ID, 0i16);

    let gens = GeneratorSet::from_global_and_zone(&global, &zone);
    assert_eq!(gens.key_range(), (40, 60));
    assert_eq!(gens.pan_tenths(), -250);
    assert_eq!(gens.get(GEN_SAMPLE_ID), Some(0));
}

#[test]
fn test_generator_set_additive_combine() {
    let mut inst = GeneratorSet::new();
    inst.set(GEN_INITIAL_ATTENUATION, 100i16);
    inst.set(GEN_COARSE_TUNE, 2i16);

    let mut preset = GeneratorSet::new();
    preset.set(GEN_INITIAL_ATTENUATION, 50i16);
    preset.set(GEN_PAN, 100i16);

    let combined = GeneratorSet::combine_instrument_and_preset(&inst, &preset);
    assert_eq!(combined.initial_attenuation_centibels(), 150);
    assert_eq!(combined.coarse_tune(), 2);
    assert_eq!(combined.pan_tenths(), 100);
}

#[test]
fn test_generator_set_preset_overrides_offsets() {
    let mut inst = GeneratorSet::new();
    inst.set(GEN_START_ADDRS_OFFSET, 10i16);

    let mut preset = GeneratorSet::new();
    preset.set(GEN_START_ADDRS_OFFSET, 20i16);
    preset.set(GEN_END_ADDRS_OFFSET, 100i16);

    let combined = GeneratorSet::combine_instrument_and_preset(&inst, &preset);
    assert_eq!(combined.get(GEN_START_ADDRS_OFFSET), Some(20));
    assert_eq!(combined.get(GEN_END_ADDRS_OFFSET), Some(100));
}

#[test]
fn test_generator_set_key_range_intersection() {
    let mut inst = GeneratorSet::new();
    inst.set(GEN_KEY_RANGE, (48u16 | (72u16 << 8)) as i16);

    let mut preset = GeneratorSet::new();
    preset.set(GEN_KEY_RANGE, (60u16 | (84u16 << 8)) as i16);

    let combined = GeneratorSet::combine_instrument_and_preset(&inst, &preset);
    assert_eq!(combined.key_range(), (60, 72));
}

#[test]
fn test_generator_set_preset_key_range_used_when_instrument_default() {
    let inst = GeneratorSet::new();

    let mut preset = GeneratorSet::new();
    preset.set(GEN_KEY_RANGE, (36u16 | (36u16 << 8)) as i16);

    let combined = GeneratorSet::combine_instrument_and_preset(&inst, &preset);
    assert_eq!(combined.key_range(), (36, 36));
}

#[test]
fn test_generator_set_velocity_range_intersection() {
    let mut inst = GeneratorSet::new();
    inst.set(GEN_VEL_RANGE, (10u16 | (100u16 << 8)) as i16);

    let mut preset = GeneratorSet::new();
    preset.set(GEN_VEL_RANGE, (50u16 | (127u16 << 8)) as i16);

    let combined = GeneratorSet::combine_instrument_and_preset(&inst, &preset);
    assert_eq!(combined.vel_range(), (50, 100));
}

#[test]
fn test_generator_set_default_ranges() {
    let gens = GeneratorSet::new();
    assert_eq!(gens.key_range(), (0, 127));
    assert_eq!(gens.vel_range(), (0, 127));
    assert_eq!(gens.scale_tuning(), 100);
}

fn fixed_name<const N: usize>(name: &str) -> [u8; N] {
    let mut out = [0u8; N];
    let bytes = name.as_bytes();
    let len = bytes.len().min(N.saturating_sub(1));
    out[..len].copy_from_slice(&bytes[..len]);
    out
}

fn push_u16(out: &mut Vec<u8>, value: u16) {
    out.extend_from_slice(&value.to_le_bytes());
}

fn push_i16(out: &mut Vec<u8>, value: i16) {
    out.extend_from_slice(&value.to_le_bytes());
}

fn push_u32(out: &mut Vec<u8>, value: u32) {
    out.extend_from_slice(&value.to_le_bytes());
}

fn chunk(id: &[u8; 4], mut data: Vec<u8>) -> Vec<u8> {
    let mut out = Vec::new();
    out.extend_from_slice(id);
    push_u32(&mut out, data.len() as u32);
    out.append(&mut data);
    if out.len() % 2 != 0 {
        out.push(0);
    }
    out
}

fn phdr_record(name: &str, preset: u16, bank: u16, bag_ndx: u16) -> Vec<u8> {
    let mut out = Vec::new();
    out.extend_from_slice(&fixed_name::<20>(name));
    push_u16(&mut out, preset);
    push_u16(&mut out, bank);
    push_u16(&mut out, bag_ndx);
    push_u32(&mut out, 0);
    push_u32(&mut out, 0);
    push_u32(&mut out, 0);
    out
}

fn bag_record(gen_ndx: u16, mod_ndx: u16) -> Vec<u8> {
    let mut out = Vec::new();
    push_u16(&mut out, gen_ndx);
    push_u16(&mut out, mod_ndx);
    out
}

fn gen_record(op: u16, amount: i16) -> Vec<u8> {
    let mut out = Vec::new();
    push_u16(&mut out, op);
    push_i16(&mut out, amount);
    out
}

fn mod_record(src: u16, dest: u16, amount: i16) -> Vec<u8> {
    let mut out = Vec::new();
    push_u16(&mut out, src);
    push_u16(&mut out, dest);
    push_i16(&mut out, amount);
    push_u16(&mut out, 0);
    push_u16(&mut out, 0);
    out
}

fn inst_record(name: &str, bag_ndx: u16) -> Vec<u8> {
    let mut out = Vec::new();
    out.extend_from_slice(&fixed_name::<20>(name));
    push_u16(&mut out, bag_ndx);
    out
}

fn shdr_record(name: &str, start: u32, end: u32, loop_start: u32, loop_end: u32) -> Vec<u8> {
    let mut out = Vec::new();
    out.extend_from_slice(&fixed_name::<20>(name));
    push_u32(&mut out, start);
    push_u32(&mut out, end);
    push_u32(&mut out, loop_start);
    push_u32(&mut out, loop_end);
    push_u32(&mut out, 48_000);
    out.push(60);
    out.push(0);
    push_u16(&mut out, 0);
    push_u16(&mut out, 1);
    out
}

fn minimal_pdta_chunks() -> Vec<Vec<u8>> {
    let key_range = (48u16 | (72u16 << 8)) as i16;
    let vel_range = (12u16 | (100u16 << 8)) as i16;

    vec![
        chunk(
            b"phdr",
            [phdr_record("Preset", 3, 2, 0), phdr_record("EOP", 0, 0, 1)].concat(),
        ),
        chunk(b"pbag", [bag_record(0, 0), bag_record(1, 0)].concat()),
        chunk(b"pgen", gen_record(GEN_INSTRUMENT, 0)),
        chunk(b"pmod", Vec::new()),
        chunk(
            b"inst",
            [inst_record("Instrument", 0), inst_record("EOI", 1)].concat(),
        ),
        chunk(b"ibag", [bag_record(0, 0), bag_record(7, 1)].concat()),
        chunk(
            b"igen",
            [
                gen_record(GEN_KEY_RANGE, key_range),
                gen_record(GEN_VEL_RANGE, vel_range),
                gen_record(GEN_SAMPLE_ID, 0),
                gen_record(GEN_INITIAL_ATTENUATION, 30),
                gen_record(GEN_PAN, -125),
                gen_record(GEN_COARSE_TUNE, 1),
                gen_record(GEN_SAMPLE_MODES, 1),
            ]
            .concat(),
        ),
        chunk(
            b"imod",
            mod_record((1 << 10) | 1, GEN_INITIAL_FILTER_FC, 1200),
        ),
        chunk(
            b"shdr",
            [
                shdr_record("sample", 0, 64, 8, 48),
                shdr_record("EOS", 64, 64, 0, 0),
            ]
            .concat(),
        ),
    ]
}

#[test]
fn test_pdta_parse_minimal_binary_fixture() {
    let pdta_data = minimal_pdta_chunks().concat();
    let pdta = Pdta::parse(&pdta_data).unwrap();
    assert_eq!(pdta.presets.len(), 2);
    assert_eq!(pdta.presets[0].name, "Preset");
    assert_eq!(pdta.presets[0].preset, 3);
    assert_eq!(pdta.presets[0].bank, 2);
    assert_eq!(pdta.preset_bags.len(), 2);
    assert_eq!(pdta.preset_gens.len(), 1);
    assert_eq!(pdta.instruments[0].name, "Instrument");
    assert_eq!(pdta.inst_bags.len(), 2);
    assert_eq!(pdta.inst_gens.len(), 7);
    assert_eq!(pdta.inst_mods.len(), 1);
    assert_eq!(pdta.sample_headers.len(), 2);
    assert_eq!(pdta.sample_headers[0].start, 0);
    assert_eq!(pdta.sample_headers[0].end, 64);
}

fn multi_zone_pdta_chunks() -> Vec<Vec<u8>> {
    let key36 = (36u16 | (36u16 << 8)) as i16;
    let key38 = (38u16 | (38u16 << 8)) as i16;
    vec![
        chunk(b"phdr", [phdr_record("Drums", 0, 0, 0), phdr_record("EOP", 0, 0, 1)].concat()),
        chunk(b"pbag", [bag_record(0, 0), bag_record(1, 0)].concat()),
        chunk(b"pgen", gen_record(GEN_INSTRUMENT, 0)),
        chunk(b"pmod", Vec::new()),
        chunk(b"inst", [inst_record("DrumKit", 0), inst_record("EOI", 3)].concat()),
        chunk(b"ibag", [bag_record(0, 0), bag_record(1, 0), bag_record(3, 0)].concat()),
        chunk(
            b"igen",
            [
                gen_record(GEN_KEY_RANGE, (127u16 << 8) as i16),
                gen_record(GEN_KEY_RANGE, key36),
                gen_record(GEN_SAMPLE_ID, 0),
                gen_record(GEN_KEY_RANGE, key38),
                gen_record(GEN_SAMPLE_ID, 1),
            ]
            .concat(),
        ),
        chunk(b"imod", Vec::new()),
        chunk(
            b"shdr",
            [
                shdr_record("sample0", 0, 64, 0, 0),
                shdr_record("sample1", 64, 128, 0, 0),
                shdr_record("EOS", 128, 128, 0, 0),
            ]
            .concat(),
        ),
    ]
}

#[test]
fn sf2_plan_of_minimal_fixture() {
    let pdta = Pdta::parse(&minimal_pdta_chunks().concat()).unwrap();
    let presets = plan_presets(&pdta, &[64, 0]).expect("fixture reads");
    assert_eq!(presets.len(), 1);
    let p = &presets[0];
    assert_eq!((p.name.as_str(), p.bank, p.preset), ("Preset", 2, 3));
    assert_eq!(p.groups.len(), 1);
    let g = &p.groups[0];
    assert_eq!(g.name, "Instrument");
    assert_eq!(g.zones.len(), 1);
    let z = &g.zones[0];
    assert_eq!(z.sample_id, 0);
    assert_eq!((z.start, z.end), (0, 64));
    assert_eq!((z.loop_start, z.loop_end), (Some(8), Some(48)));
    assert_eq!((z.key_low, z.key_high, z.vel_low, z.vel_high), (48, 72, 12, 100));
    assert_eq!(z.root_key, 60);
    assert_eq!(z.loop_mode, LoopMode::DuringVoice);
    assert_eq!(z.generators.initial_attenuation_centibels(), 30);
    assert_eq!(z.generators.pan_tenths(), -125);
    assert_eq!((z.mod_start, z.mod_end), (0, 1));
}

#[test]
fn sf2_plan_of_multi_zone_fixture() {
    let pdta = Pdta::parse(&multi_zone_pdta_chunks().concat()).unwrap();
    let presets = build_presets(&pdta, &[64, 64, 0]);
    assert_eq!(presets.len(), 1);
    assert_eq!(presets[0].name, "Drums");
    assert_eq!(presets[0].groups.len(), 1);
    let zones = &presets[0].groups[0].zones;
    assert_eq!(zones.len(), 2);
    assert_eq!((zones[0].sample_id, zones[0].key_low, zones[0].key_high), (0, 36, 36));
    assert_eq!((zones[1].sample_id, zones[1].key_low, zones[1].key_high), (1, 38, 38));
    assert_eq!(zones[1].loop_start, None);
    assert_eq!(zones[1].loop_mode, LoopMode::Off);
}

#[test]
fn sf2_plan_clamps_window_to_sample_frames() {
    let pdta = Pdta::parse(&minimal_pdta_chunks().concat()).unwrap();
    let presets = plan_presets(&pdta, &[32, 0]).expect("fixture reads");
    let z = &presets[0].groups[0].zones[0];
    assert_eq!((z.start, z.end), (0, 32));
    assert_eq!(z.loop_start, Some(8));
    assert_eq!(z.loop_end, None);
    // A sample that no frame count covers makes no zone, so no group.
    let none = plan_presets(&pdta, &[]).expect("fixture reads");
    assert!(none[0].groups.is_empty());
}

#[test]
fn sample_windows_and_links() {
    let pdta = Pdta::parse(&multi_zone_pdta_chunks().concat()).unwrap();
    // Pool of 100 frames: sample1 (64..128) is cut at 100, EOS starts past it.
    assert_eq!(sample_frames(&pdta.sample_headers, 100), Some(vec![64, 36, 1]));
    assert_eq!(stereo_partner(&pdta.sample_headers, 0), None);
    let mini = Pdta::parse(&minimal_pdta_chunks().concat()).unwrap();
    assert_eq!(sample_loop(&mini.sample_headers[0], 64), Some((8, 48)));
    assert_eq!(sample_loop(&mini.sample_headers[0], 40), None);
    assert_eq!(slice_window(64, 8, 40, Some(10), Some(40)), (8, 32, Some(2), Some(32)));
    assert_eq!(slice_window(64, 80, 10, Some(3), None), (64, 0, None, None));
}

fn modulator(src: u16, dest: u16, amount: i16) -> Modulator {
    Modulator { src_oper: src, dest_oper: dest, amount, amt_src_oper: 0, trans_oper: 0 }
}

#[test]
fn modulators_become_routes_with_defaults_when_none_map() {
    let routes = build_mod_matrix(&[modulator(2, 99, 50)]);
    assert_eq!(routes.len(), 16);
    assert_eq!(routes[0], RoutePlan { source: ModSource::Velocity, target: ModTarget::Amplitude, depth: Depth::Full, active: true });
    assert_eq!(routes[1], RoutePlan { source: ModSource::KeyTrack, target: ModTarget::FilterCutoff, depth: Depth::Off, active: true });
    assert!(!routes[2].active);

    let routes = build_mod_matrix(&[modulator((1 << 10) | 1, GEN_INITIAL_FILTER_FC, 1200), modulator(0, 48, 960)]);
    assert_eq!(routes[0], RoutePlan { source: ModSource::ModWheel, target: ModTarget::FilterCutoff, depth: Depth::Ratio(1200, 2400), active: true });
    // Source 0 has no modulation source: the route is kept but inactive.
    assert_eq!(routes[1].depth, Depth::NegRatio(960, 960));
    assert!(!routes[1].active);
}

#[test]
fn generator_routes_fill_from_first_inactive() {
    let mut routes = build_mod_matrix(&[modulator(2, GEN_PAN, 250), modulator(0, GEN_PAN, 1)]);
    let mut gens = GeneratorSet::new();
    gens.set(GEN_MOD_LFO_TO_PITCH, 50);
    gens.set(GEN_MOD_LFO_TO_VOLUME, -30);
    apply_generator_mod_routes(&mut routes, &gens);
    assert_eq!(routes[0].target, ModTarget::Pan);
    assert_eq!(routes[1], RoutePlan { source: ModSource::Lfo1, target: ModTarget::Pitch, depth: Depth::Ratio(50, 100), active: true });
    assert_eq!(routes[2], RoutePlan { source: ModSource::Lfo1, target: ModTarget::Amplitude, depth: Depth::Ratio(-30, 100), active: true });
    assert!(!routes[3].active);
}

#[test]
fn sample_words_put_the_high_byte_above_the_low_word() {
    assert_eq!(sample_word(0, 0), 0);
    assert_eq!(sample_word(-1, -1), -1);
    assert_eq!(sample_word(-1, 0), 65535);
    assert_eq!(sample_word(0x1234, 0x56), 0x0056_1234);
    assert_eq!(sample_word(0, -128), -8_388_608);
    assert_eq!(sample_word(-1, 127), 8_388_607);
}

fn raw_chunk(id: &[u8; 4], body_len: usize) -> Vec<u8> {
    let mut v = id.to_vec();
    v.extend_from_slice(&(body_len as u32).to_le_bytes());
    v.extend(std::iter::repeat(0u8).take(body_len));
    v
}

#[test]
fn pdta_record_counts_follow_chunk_sizes() {
    let data = [raw_chunk(b"phdr", 38 * 2 + 5), raw_chunk(b"junk", 3), raw_chunk(b"pbag", 8), raw_chunk(b"shdr", 46)]
        .concat();
    let pdta = Pdta::parse(&data).unwrap();
    assert_eq!(pdta.presets.len(), 2);
    assert_eq!(pdta.preset_bags.len(), 2);
    assert_eq!(pdta.sample_headers.len(), 1);
    assert!(pdta.instruments.is_empty());
    assert!(Pdta::parse(&[raw_chunk(b"pbag", 6)].concat()).is_err());
    assert!(Pdta::parse(&[raw_chunk(b"phdr", 37)].concat()).is_err());
    assert!(Pdta::parse(&[raw_chunk(b"imod", 15)].concat()).is_err());
    assert!(Pdta::parse(&[raw_chunk(b"zzzz", 7)].concat()).is_ok());
}
