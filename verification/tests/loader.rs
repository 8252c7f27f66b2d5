use maolan_plugins::sampler::loader::{
    detect_format, extension_text, format_from_extension, select_preset, InstrumentFormat, PresetInfo,
};

#[test]
fn test_detect_format_sfz() {
    assert_eq!(detect_format("/tmp/kick.sfz"), Some(InstrumentFormat::Sfz));
}

#[test]
fn test_detect_format_sf2() {
    assert_eq!(detect_format("/tmp/piano.SF2"), Some(InstrumentFormat::Sf2));
}

#[test]
fn test_detect_format_unknown() {
    assert_eq!(detect_format("/tmp/kick.wav"), None);
}

#[test]
fn extension_follows_file_name_rules() {
    assert_eq!(extension_text("/tmp/kick.sfz"), Some("sfz".to_string()));
    assert_eq!(extension_text("a/b.tar.gz"), Some("gz".to_string()));
    assert_eq!(extension_text("dir/kick.sfz/"), Some("sfz".to_string()));
    assert_eq!(extension_text("dir/kick.sfz/."), Some("sfz".to_string()));
    assert_eq!(extension_text(".sfz"), None);
    assert_eq!(extension_text("noext"), None);
    assert_eq!(extension_text("a/.."), None);
    assert_eq!(extension_text("/"), None);
    assert_eq!(extension_text("name."), Some(String::new()));
}

#[test]
fn extension_case_is_exact() {
    assert_eq!(format_from_extension(Some("SFZ")), Some(InstrumentFormat::Sfz));
    assert_eq!(format_from_extension(Some("Sfz")), None);
    assert_eq!(format_from_extension(None), None);
    assert_eq!(detect_format("x.sf2"), Some(InstrumentFormat::Sf2));
}

#[test]
fn presets_are_listed_and_selected_within_range() {
    let info = PresetInfo { name: "Grand Piano".to_string(), bank: 128, preset: 3 };
    assert_eq!(info.label(), "128:3 Grand Piano");
    assert_eq!(select_preset(None, 4), Some(0));
    assert_eq!(select_preset(Some(2), 4), Some(2));
    assert_eq!(select_preset(Some(9), 4), Some(3));
    assert_eq!(select_preset(Some(0), 0), None);
}
