use maolan_plugins::sampler::dsp::sfz::{classify_opcode_value, OpcodeClass, OpcodeMap};
use maolan_plugins::sampler::dsp::sfz_region::{region_settings, RegionNumbers};
use maolan_plugins::sampler::dsp::zone::{CurveType, LoopDirection, LoopMode, SamplePlayMode, VariantMode};

fn map(pairs: &[(&str, &str)]) -> OpcodeMap {
    let mut m = OpcodeMap::new();
    for (k, v) in pairs {
        m.insert(k.to_string(), v.to_string());
    }
    m
}

fn whole(m: &OpcodeMap, key: &str) -> Option<i32> {
    match m.get(key).map(classify_opcode_value) {
        Some(OpcodeClass::Integer(i)) => Some(i),
        _ => None,
    }
}

fn note(m: &OpcodeMap, key: &str) -> Option<u8> {
    whole(m, key).map(|i| i.clamp(0, 127) as u8)
}

fn numbers(m: &OpcodeMap) -> RegionNumbers {
    RegionNumbers {
        key: note(m, "key"),
        lokey: note(m, "lokey"),
        hikey: note(m, "hikey"),
        pitch_keycenter: note(m, "pitch_keycenter"),
        lovel: whole(m, "lovel"),
        hivel: whole(m, "hivel"),
        xfin_lokey: whole(m, "xfin_lokey"),
        xfin_hikey: whole(m, "xfin_hikey"),
        xfout_lokey: whole(m, "xfout_lokey"),
        xfout_hikey: whole(m, "xfout_hikey"),
        offset: whole(m, "offset"),
        loop_start: whole(m, "loop_start"),
        loop_end: whole(m, "loop_end"),
        loop_crossfade: whole(m, "loop_crossfade"),
        loop_count: whole(m, "loop_count"),
        seq_length: whole(m, "seq_length"),
    }
}

#[test]
fn region_settings_map_core_opcodes() {
    let m = map(&[
        ("sample", "missing.wav"),
        ("key", "c4"),
        ("lokey", "48"),
        ("hikey", "72"),
        ("pitch_keycenter", "g4"),
        ("lovel", "10"),
        ("hivel", "110"),
        ("velcurve", "exponential"),
        ("offset", "128"),
        ("direction", "reverse"),
        ("trigger", "release"),
        ("loop_mode", "loop_sustain"),
        ("loop_start", "64"),
        ("loop_end", "512"),
        ("loop_crossfade", "8"),
        ("loop_count", "3"),
        ("loop_direction", "alternate"),
        ("seq_length", "4"),
    ]);
    let r = region_settings(&m, &numbers(&m));
    assert_eq!((r.key_low, r.key_high, r.root_key), (48, 72, 67));
    assert_eq!((r.vel_low, r.vel_high), (10, 110));
    assert_eq!(r.velocity_curve, CurveType::Exponential);
    assert_eq!(r.start_offset, 128);
    assert!(r.reverse);
    assert_eq!(r.play_mode, SamplePlayMode::OnRelease);
    assert_eq!(r.loop_mode, LoopMode::WhileGated);
    assert_eq!((r.loop_start, r.loop_end, r.loop_crossfade, r.loop_count), (64, 512, 8, 3));
    assert_eq!(r.loop_direction, LoopDirection::Alternate);
    assert_eq!(r.variant_mode, VariantMode::RoundRobin);
}

#[test]
fn region_defaults_and_single_key() {
    let m = map(&[("sample", "a.wav"), ("key", "60"), ("loop_mode", "loop_continuous")]);
    let r = region_settings(&m, &numbers(&m));
    assert_eq!((r.key_low, r.key_high, r.root_key), (60, 60, 60));
    assert_eq!((r.vel_low, r.vel_high, r.key_fade_low, r.key_fade_high), (0, 127, 0, 0));
    assert_eq!(r.loop_mode, LoopMode::DuringVoice);
    assert_eq!(r.play_mode, SamplePlayMode::Normal);
    assert_eq!(r.variant_mode, VariantMode::First);
    assert!(!r.reverse);

    let empty = map(&[("sample", "b.wav")]);
    let d = region_settings(&empty, &numbers(&empty));
    assert_eq!((d.key_low, d.key_high, d.root_key), (0, 127, 60));
    assert_eq!(d.loop_mode, LoopMode::Off);
    assert_eq!(d.velocity_curve, CurveType::Linear);
}

#[test]
fn region_one_shot_fades_and_random_variants() {
    let one_shot = map(&[("sample", "a.wav"), ("key", "60"), ("loop_mode", "One_Shot")]);
    assert_eq!(region_settings(&one_shot, &numbers(&one_shot)).play_mode, SamplePlayMode::OneShot);
    let flagged = map(&[("sample", "a.wav"), ("trigger", "release"), ("loop_mode", "on")]);
    assert_eq!(region_settings(&flagged, &numbers(&flagged)).play_mode, SamplePlayMode::OneShot);

    let fades = map(&[
        ("lokey", "40"),
        ("hikey", "60"),
        ("xfin_lokey", "30"),
        ("xfout_lokey", "55"),
        ("xfout_hikey", "70"),
        ("lovel", "-5"),
        ("hivel", "300"),
        ("offset", "-10"),
        ("hirand", "0.5"),
        ("seq_length", "3"),
    ]);
    let f = region_settings(&fades, &numbers(&fades));
    assert_eq!(f.key_fade_low, 10);
    assert_eq!(f.key_fade_high, 10);
    assert_eq!((f.vel_low, f.vel_high), (0, 127));
    assert_eq!(f.start_offset, 0);
    assert_eq!(f.variant_mode, VariantMode::Random);

    let fade_in_centre = map(&[("lokey", "40"), ("xfin_lokey", "30"), ("xfin_hikey", "45")]);
    assert_eq!(region_settings(&fade_in_centre, &numbers(&fade_in_centre)).key_fade_low, 5);
}
