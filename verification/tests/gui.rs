use maolan_plugins::sampler::dsp::mod_matrix::ModTarget;
use maolan_plugins::sampler::gui::{
    find_vertical_slot, is_audio_extension, mod_target_for_param, unique_zone_name, EgSelectorOption,
};
use maolan_plugins::sampler::params::ParamId;
use maolan_plugins::sampler::state::SampleZone;

fn zone(name: &str, start: usize, end: usize, lo: u8, hi: u8) -> SampleZone {
    SampleZone {
        name: name.to_string(),
        files: Vec::new(),
        start_note: start,
        end_note: end,
        vel_low: lo,
        vel_high: hi,
        group: "G".to_string(),
    }
}

#[test]
fn eg_selector_positions_and_labels() {
    let all = EgSelectorOption::all();
    for (i, o) in all.iter().enumerate() {
        assert_eq!(o.index(), i);
        assert_eq!(EgSelectorOption::from_index(i), Some(*o));
    }
    assert_eq!(EgSelectorOption::from_index(6), None);
    assert_eq!(EgSelectorOption::Eg2.label(), "EG 2");
    assert_eq!(EgSelectorOption::Amp.label(), "Amp");
}

#[test]
fn knob_targets() {
    assert_eq!(mod_target_for_param(ParamId::MasterGain), Some(ModTarget::Amplitude));
    assert_eq!(mod_target_for_param(ParamId::MasterPan), Some(ModTarget::Pan));
    assert_eq!(mod_target_for_param(ParamId::FilterCutoff), Some(ModTarget::FilterCutoff));
    assert_eq!(mod_target_for_param(ParamId::FilterResonance), Some(ModTarget::FilterResonance));
    assert_eq!(mod_target_for_param(ParamId::AmpAttack), None);
}

#[test]
fn audio_extensions_any_case() {
    assert!(is_audio_extension("wav"));
    assert!(is_audio_extension("FLAC"));
    assert!(is_audio_extension("Aiff"));
    assert!(!is_audio_extension("sfz"));
    assert!(!is_audio_extension(""));
}

#[test]
fn vertical_slot_whole_range_when_free() {
    assert_eq!(find_vertical_slot(&[], 60, 64, 90), (0, 127));
    let others = vec![zone("a", 0, 10, 0, 127)];
    assert_eq!(find_vertical_slot(&others, 60, 64, 90), (0, 127));
}

#[test]
fn vertical_slot_picks_gap_holding_velocity_or_nearest() {
    let zones = vec![zone("a", 60, 64, 40, 79), zone("b", 62, 70, 0, 19)];
    // Gaps: 20..39 and 80..127.
    assert_eq!(find_vertical_slot(&zones, 60, 64, 30), (20, 39));
    assert_eq!(find_vertical_slot(&zones, 60, 64, 100), (80, 127));
    // 50 lies in no gap: 39 is 11 away, 80 is 30 away.
    assert_eq!(find_vertical_slot(&zones, 60, 64, 50), (20, 39));
    let full = vec![zone("a", 60, 64, 0, 127)];
    assert_eq!(find_vertical_slot(&full, 60, 64, 70), (70, 70));
}

#[test]
fn unique_names_number_upwards() {
    let zones = vec![zone("Zone", 0, 1, 0, 1), zone("Zone 2", 0, 1, 0, 1), zone("Pad 7", 0, 1, 0, 1)];
    assert_eq!(unique_zone_name(&zones, "Lead"), "Lead");
    assert_eq!(unique_zone_name(&zones, "Zone"), "Zone 3");
    assert_eq!(unique_zone_name(&zones, "Pad 7"), "Pad 8");
    assert_eq!(unique_zone_name(&zones, "Zone 2"), "Zone 3");
}
