use maolan_plugins::sampler::dsp::gig::{
    extract_sample_rate, parse_cnfg, parse_gig_chunks, wave_sample_rate, GigError,
};

fn fmt_chunk(rate: u32) -> Vec<u8> {
    let mut w = Vec::new();
    w.extend_from_slice(b"fmt ");
    w.extend_from_slice(&16u32.to_le_bytes());
    w.extend_from_slice(&1u16.to_le_bytes());
    w.extend_from_slice(&1u16.to_le_bytes());
    w.extend_from_slice(&rate.to_le_bytes());
    w.extend_from_slice(&rate.to_le_bytes());
    w.extend_from_slice(&1u16.to_le_bytes());
    w.extend_from_slice(&16u16.to_le_bytes());
    w
}

fn make_test_gig() -> Vec<u8> {
    let mut data = Vec::new();
    data.extend_from_slice(b"RIFF");
    let file_size_pos = data.len();
    data.extend_from_slice(&0u32.to_le_bytes());
    data.extend_from_slice(b"GIG ");
    let mut c = vec![48, 72, 1, 127, 60, 5u8.wrapping_neg(), 10u8.wrapping_neg(), 32];
    c.extend_from_slice(&0u32.to_le_bytes());
    c.extend_from_slice(&0u16.to_le_bytes());
    c.extend_from_slice(&0u16.to_le_bytes());
    data.extend_from_slice(b"cnfg");
    data.extend_from_slice(&(c.len() as u32).to_le_bytes());
    data.extend_from_slice(&c);
    let mut w = Vec::new();
    w.extend_from_slice(b"wave");
    w.extend_from_slice(&fmt_chunk(44100));
    data.extend_from_slice(b"LIST");
    data.extend_from_slice(&(w.len() as u32).to_le_bytes());
    data.extend_from_slice(&w);
    let file_size = (data.len() - 8) as u32;
    data[file_size_pos..file_size_pos + 4].copy_from_slice(&file_size.to_le_bytes());
    data
}

#[test]
fn test_parse_gig_invalid_magic() {
    let data = b"XXXX\x10\x00\x00\x00GIG ";
    let result = parse_gig_chunks(data);
    assert!(result.is_err());
}

#[test]
fn gig_chunks_of_basic_fixture() {
    let data = make_test_gig();
    let contents = match parse_gig_chunks(&data) {
        Ok(c) => c,
        Err(_) => panic!("fixture should parse"),
    };
    assert_eq!(contents.zone_configs.len(), 1);
    let z = contents.zone_configs[0];
    assert_eq!((z.key_low, z.key_high, z.vel_low, z.vel_high, z.root_key), (48, 72, 1, 127, 60));
    assert_eq!((z.fine_tune, z.volume, z.pan, z.sample_index), (-5, -10, 32, 0));
    assert_eq!(contents.sample_rates, vec![44100]);
}

#[test]
fn gig_errors_name_their_cause() {
    match parse_gig_chunks(b"XXXX\x10\x00\x00\x00GIG ") {
        Err(GigError::NotRiff(id)) => assert_eq!(id, b"XXXX".to_vec()),
        _ => panic!("expected a non-RIFF error"),
    }
    assert!(matches!(parse_gig_chunks(b"RI"), Err(GigError::Read(_))));
    assert!(matches!(parse_gig_chunks(b"RIFF\x10\x00\x00\x00"), Err(GigError::Read(_))));
    let mut past = b"RIFF\x20\x00\x00\x00GIG ".to_vec();
    past.extend_from_slice(b"cnfg");
    past.extend_from_slice(&100u32.to_le_bytes());
    past.extend_from_slice(&[0u8; 10]);
    assert!(matches!(parse_gig_chunks(&past), Err(GigError::ChunkPastEnd)));
}

#[test]
fn cnfg_reads_whole_records_only() {
    let mut data = vec![0u8; 40];
    data[16] = 36;
    data[16 + 8..16 + 12].copy_from_slice(&3u32.to_le_bytes());
    let configs = parse_cnfg(&data).unwrap();
    assert_eq!(configs.len(), 2);
    assert_eq!(configs[1].key_low, 36);
    assert_eq!(configs[1].sample_index, 3);
    assert!(parse_cnfg(&[0u8; 15]).unwrap().is_empty());
}

#[test]
fn wave_rate_comes_from_fmt_or_defaults() {
    let mut body = Vec::new();
    body.extend_from_slice(b"junk");
    body.extend_from_slice(&3u32.to_le_bytes());
    body.extend_from_slice(&[1, 2, 3, 0]);
    body.extend_from_slice(&fmt_chunk(22050));
    assert_eq!(extract_sample_rate(&body), Some(22050));
    assert_eq!(wave_sample_rate(&body), 22050);
    assert_eq!(extract_sample_rate(b"data\x00\x00\x00\x00"), None);
    assert_eq!(wave_sample_rate(b""), 48000);
    assert_eq!(wave_sample_rate(&fmt_chunk(0)), 48000);
}
