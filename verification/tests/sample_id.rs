use maolan_plugins::sampler::dsp::sample_id::{compute_file_hash, hex_encode, SampleId};

#[test]
fn hex_encoding_is_lowercase_two_digits_per_byte() {
    assert_eq!(hex_encode(&[0x00, 0x0f, 0xa5, 0xff]), "000fa5ff");
    assert_eq!(hex_encode(&[]), "");
}

#[test]
fn file_hash_is_sha256_of_contents() {
    assert_eq!(
        compute_file_hash("/ignored", Some(b"abc")),
        "ba7816bf8f01cfea414140de5dae2223b00361a396177a9cb410ff61f20015ad"
    );
}

#[test]
fn unreadable_file_hashes_its_path() {
    assert_eq!(
        compute_file_hash("", None),
        "e3b0c44298fc1c149afbf4c8996fb92427ae41e4649b934ca495991b7852b855"
    );
    assert_eq!(compute_file_hash("abc", None), compute_file_hash("/x", Some(b"abc")));
}

#[test]
fn only_the_first_64k_are_hashed() {
    let mut a = vec![7u8; 65536];
    let b = a.clone();
    a.extend_from_slice(b"tail");
    assert_eq!(compute_file_hash("p", Some(&a)), compute_file_hash("q", Some(&b)));
}

#[test]
fn sample_id_keeps_path() {
    let id = SampleId::from_path("/test/sample.wav", Some(b"abc"));
    assert_eq!(id.path, "/test/sample.wav");
    assert_eq!(id.hash.len(), 64);
    let again = SampleId::from_path("/test/sample.wav", Some(b"abc"));
    assert_eq!(id.hash, again.hash);
}

fn le_bytes(samples: &[f32]) -> Vec<u8> {
    samples.iter().flat_map(|s| s.to_le_bytes()).collect()
}

#[test]
fn test_sample_id_from_data() {
    let data = vec![1.0f32, 2.0, 3.0, 4.0];
    let id = SampleId::from_data(&le_bytes(&data), "/test/sample.wav");
    assert_eq!(id.path, "/test/sample.wav");
    assert!(!id.hash.is_empty());

    let id2 = SampleId::from_data(&le_bytes(&data), "/test/sample.wav");
    assert_eq!(id.hash, id2.hash);
}

#[test]
fn sample_data_hash_is_sha256_of_the_bytes() {
    assert_eq!(
        SampleId::from_data(b"abc", "/x.wav").hash,
        "ba7816bf8f01cfea414140de5dae2223b00361a396177a9cb410ff61f20015ad"
    );
}

#[test]
fn sample_data_hash_covers_the_first_16384_samples() {
    let mut data = vec![0.25f32; 16384];
    let short = SampleId::from_data(&le_bytes(&data), "/a.wav");
    data.push(0.5);
    data.push(-1.0);
    let long = SampleId::from_data(&le_bytes(&data), "/a.wav");
    assert_eq!(short.hash, long.hash);
    data.truncate(16383);
    let shorter = SampleId::from_data(&le_bytes(&data), "/a.wav");
    assert_ne!(short.hash, shorter.hash);
}
