use maolan_plugins::sampler::dsp::sfz_export::{
    export_sample_dir_name, export_sample_file_name, export_sfz_text, wav_header, ExportGroup, ExportRegion,
};

fn region(sample: &str, key_low: u8, key_high: u8, root_key: u8) -> ExportRegion {
    ExportRegion {
        sample_name: sample.to_string(),
        key_low,
        key_high,
        root_key,
        vel_low: 0,
        vel_high: 127,
        volume: None,
        pan: None,
        tune: None,
        start_offset: 0,
        looped: false,
        loop_start: 0,
        loop_end: 0,
    }
}

#[test]
fn wav_header_describes_stereo_float_frames() {
    let header = wav_header(44100, 2);
    let mut expected: Vec<u8> = Vec::new();
    expected.extend_from_slice(b"RIFF");
    expected.extend_from_slice(&52u32.to_le_bytes());
    expected.extend_from_slice(b"WAVE");
    expected.extend_from_slice(b"fmt ");
    expected.extend_from_slice(&16u32.to_le_bytes());
    expected.extend_from_slice(&3u16.to_le_bytes());
    expected.extend_from_slice(&2u16.to_le_bytes());
    expected.extend_from_slice(&44100u32.to_le_bytes());
    expected.extend_from_slice(&352800u32.to_le_bytes());
    expected.extend_from_slice(&8u16.to_le_bytes());
    expected.extend_from_slice(&32u16.to_le_bytes());
    expected.extend_from_slice(b"data");
    expected.extend_from_slice(&16u32.to_le_bytes());
    assert_eq!(header, expected);
    assert_eq!(header.len(), 44);
    assert_eq!(wav_header(48000, 0).len(), 44);
}

#[test]
fn exported_files_get_safe_numbered_names() {
    assert_eq!(export_sample_file_name(1, "Drums", "Kick 01"), "001_Drums_Kick_01.wav");
    assert_eq!(export_sample_file_name(12, "", ""), "012__sample.wav");
    assert_eq!(export_sample_file_name(1234, "Pads!", "warm"), "1234_Pads__warm.wav");
    assert_eq!(export_sample_dir_name(Some("My Kit")), "My_Kit_samples");
    assert_eq!(export_sample_dir_name(Some("")), "sampler_samples");
    assert_eq!(export_sample_dir_name(None), "sampler_samples");
}

#[test]
fn export_text_lists_groups_and_regions() {
    let mut full = region("002.wav", 40, 45, 42);
    full.vel_low = 10;
    full.vel_high = 100;
    full.volume = Some("-6".to_string());
    full.pan = Some("50".to_string());
    full.tune = Some("12.5".to_string());
    full.start_offset = 100;
    full.looped = true;
    full.loop_start = 10;
    full.loop_end = 2000;
    let groups = vec![
        ExportGroup {
            name: "Drums".to_string(),
            volume: Some("-3".to_string()),
            pan: None,
            regions: vec![region("001_Drums_Kick.wav", 36, 36, 36), full],
        },
        ExportGroup { name: "Empty".to_string(), volume: None, pan: None, regions: Vec::new() },
        ExportGroup {
            name: String::new(),
            volume: None,
            pan: Some("-25".to_string()),
            regions: vec![region("003.wav", 60, 72, 60)],
        },
    ];
    let text = export_sfz_text("kit_samples", &groups);
    let expected = "// Exported by Maolan Sampler\n<control>\ndefault_path=kit_samples/\n\n\
        // group: Drums\n<group> group_volume=-3\n\
        <region> sample=001_Drums_Kick.wav key=36\n\
        <region> sample=002.wav lokey=40 hikey=45 pitch_keycenter=42 lovel=10 hivel=100 volume=-6 pan=50 \
        tune=12.5 offset=100 loop_mode=loop_continuous loop_start=10 loop_end=2000\n\n\
        <group> group_pan=-25\n<region> sample=003.wav lokey=60 hikey=72\n\n";
    assert_eq!(text, expected);
}
