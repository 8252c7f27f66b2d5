use maolan_plugins::sampler::state::{SampleZone, SamplerZoneState};

fn zone(group: &str) -> SampleZone {
    SampleZone {
        name: "Kick".to_string(),
        files: vec!["/a/kick.wav".to_string(), "/a/kick2.wav".to_string()],
        start_note: 36,
        end_note: 40,
        vel_low: 1,
        vel_high: 100,
        group: group.to_string(),
    }
}

#[test]
fn zone_state_round_trips() {
    let z = zone("Drums");
    let s = z.to_state();
    assert_eq!(s.name, "Kick");
    assert_eq!(s.files, z.files);
    assert_eq!((s.start_note, s.end_note, s.vel_low, s.vel_high), (36, 40, 1, 100));
    let back = SampleZone::from_state(&s);
    assert_eq!(back.name, z.name);
    assert_eq!(back.files, z.files);
    assert_eq!(back.group, "Drums");
}

#[test]
fn zone_without_group_restores_into_new_group() {
    let s = SamplerZoneState {
        name: "Pad".to_string(),
        files: Vec::new(),
        start_note: 0,
        end_note: 127,
        vel_low: 0,
        vel_high: 127,
        group: String::new(),
    };
    assert_eq!(SampleZone::from_state(&s).group, "New Group");
    assert_eq!(zone("").to_state().group, "");
}
