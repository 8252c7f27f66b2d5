use maolan_plugins::sampler::dsp::exs::{
    exs_group_plan, extract_sample_paths, heuristic_extract_path, parse_exs_records, parse_zone_record,
    ExsError, ExsZone, EXS_HEADER_SIZE, EXS_SAMPLE_PATH_OFFSET,
};

fn make_test_exs() -> Vec<u8> {
    let mut data = vec![0u8; 0x1A0];
    data[0..4].copy_from_slice(b"TBOD");
    data[4..8].copy_from_slice(&1u32.to_le_bytes());
    data[8..12].copy_from_slice(&0x80u32.to_le_bytes());
    data[12..16].copy_from_slice(&0x00u32.to_le_bytes());
    data[16..20].copy_from_slice(&0x100u32.to_le_bytes());
    data[20..24].copy_from_slice(&1u32.to_le_bytes());
    data[24..28].copy_from_slice(&0u32.to_le_bytes());
    data[28..32].copy_from_slice(&1u32.to_le_bytes());
    let zo = 0x80;
    data[zo] = 48;
    data[zo + 1] = 72;
    data[zo + 2] = 1;
    data[zo + 3] = 127;
    data[zo + 4] = 60;
    data[zo + 5] = 5u8.wrapping_neg();
    data[zo + 6] = 6u8.wrapping_neg();
    data[zo + 7] = 32;
    data[zo + 0x10..zo + 0x14].copy_from_slice(&0u32.to_le_bytes());
    data[zo + 0x14..zo + 0x18].copy_from_slice(&0u32.to_le_bytes());
    let so = 0x100;
    let path = b"test.wav";
    data[so + EXS_SAMPLE_PATH_OFFSET..so + EXS_SAMPLE_PATH_OFFSET + path.len()].copy_from_slice(path);
    data
}

fn zone(group: u32) -> ExsZone {
    ExsZone {
        key_low: 0,
        key_high: 127,
        vel_low: 0,
        vel_high: 127,
        root_key: 60,
        fine_tune: 0,
        volume: 0,
        pan: 0,
        sample_index: 0,
        group_index: group,
    }
}

#[test]
fn test_heuristic_extract_path() {
    let mut buf = [0u8; 0x40];
    buf[0x0C] = b't';
    buf[0x0D] = b'e';
    buf[0x0E] = b's';
    buf[0x0F] = b't';
    buf[0x10] = b'.';
    buf[0x11] = b'w';
    buf[0x12] = b'a';
    buf[0x13] = b'v';
    let path = heuristic_extract_path(&buf);
    assert_eq!(path, "test.wav");
}

#[test]
fn heuristic_path_prefers_longest_path_like_run() {
    let mut buf = Vec::new();
    buf.extend_from_slice(b"ab.c");
    buf.push(0);
    buf.extend_from_slice(b"no_separator_here_at_all");
    buf.push(1);
    buf.extend_from_slice(b"dir/file.wav");
    buf.push(200);
    buf.extend_from_slice(b"x.y");
    assert_eq!(heuristic_extract_path(&buf), "dir/file.wav");
    assert_eq!(heuristic_extract_path(b"\x00\x01plain\x02"), "");
    assert_eq!(heuristic_extract_path(b""), "");
}

#[test]
fn zone_record_fields_are_read_in_order() {
    let mut rec = [0u8; 0x18];
    rec[0..8].copy_from_slice(&[10, 20, 30, 40, 50, 251, 128, 127]);
    rec[0x10..0x14].copy_from_slice(&7u32.to_le_bytes());
    rec[0x14..0x18].copy_from_slice(&0x01020304u32.to_le_bytes());
    let z = parse_zone_record(&rec);
    assert_eq!((z.key_low, z.key_high, z.vel_low, z.vel_high, z.root_key), (10, 20, 30, 40, 50));
    assert_eq!((z.fine_tune, z.volume, z.pan), (-5, -128, 127));
    assert_eq!(z.sample_index, 7);
    assert_eq!(z.group_index, 0x01020304);
}

#[test]
fn sample_paths_pad_missing_records_and_fall_back_to_heuristic() {
    let mut section = vec![0u8; 0x80];
    section[0x0C..0x0C + 5].copy_from_slice(b"a.wav");
    // Second record: empty path field, a path-like run elsewhere.
    section[0x40 + 0x02..0x40 + 0x02 + 5].copy_from_slice(b"b.aif");
    let paths = extract_sample_paths(&section, 3);
    assert_eq!(paths, vec!["a.wav".to_string(), "b.aif".to_string(), String::new()]);
    assert!(extract_sample_paths(&section, 0).is_empty());
}

#[test]
fn exs_records_of_basic_fixture() {
    let data = make_test_exs();
    let contents = match parse_exs_records(&data) {
        Ok(c) => c,
        Err(_) => panic!("fixture should parse"),
    };
    assert_eq!(contents.zones.len(), 1);
    let z = contents.zones[0];
    assert_eq!((z.key_low, z.key_high, z.vel_low, z.vel_high, z.root_key), (48, 72, 1, 127, 60));
    assert_eq!((z.fine_tune, z.volume, z.pan), (-5, -6, 32));
    assert_eq!(contents.sample_paths, vec!["test.wav".to_string()]);
}

#[test]
fn exs_header_without_zones_gives_no_records() {
    let mut data = vec![0u8; EXS_HEADER_SIZE];
    data[0..4].copy_from_slice(b"TBOD");
    data[4..8].copy_from_slice(&1u32.to_le_bytes());
    let contents = match parse_exs_records(&data) {
        Ok(c) => c,
        Err(_) => panic!("header should parse"),
    };
    assert!(contents.zones.is_empty());
    assert!(contents.sample_paths.is_empty());
    assert!(exs_group_plan(&contents.zones).is_empty());
}

#[test]
fn exs_refuses_bad_magic_and_short_files() {
    let data = vec![b'X'; EXS_HEADER_SIZE];
    match parse_exs_records(&data) {
        Err(ExsError::InvalidMagic(m)) => assert_eq!(m, b"XXXX".to_vec()),
        _ => panic!("expected an invalid magic"),
    }
    assert!(matches!(parse_exs_records(b"TBOD"), Err(ExsError::TooSmall)));
}

#[test]
fn exs_zones_past_the_end_are_ignored() {
    let mut data = make_test_exs();
    data[20..24].copy_from_slice(&100u32.to_le_bytes());
    let contents = match parse_exs_records(&data) {
        Ok(c) => c,
        Err(_) => panic!("fixture should parse"),
    };
    assert!(contents.zones.is_empty());
}

#[test]
fn exs_groups_are_ascending_with_zones_in_order() {
    let zones = vec![zone(5), zone(2), zone(5), zone(9), zone(2)];
    let plan = exs_group_plan(&zones);
    let got: Vec<(u32, Vec<usize>)> = plan.iter().map(|g| (g.group_index, g.zone_indices.clone())).collect();
    assert_eq!(got, vec![(2, vec![1, 4]), (5, vec![0, 2]), (9, vec![3])]);
}
