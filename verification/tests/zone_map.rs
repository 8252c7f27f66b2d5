use maolan_plugins::sampler::gui::{ZoneEdge, ZoneListSelection};
use maolan_plugins::sampler::state::SampleZone;
use maolan_plugins::sampler::zone_map::{
    delete_selection, drag_zone_edge, drop_file_on_map, group_zone_list, move_zone_body, rename_zone,
};

fn zone(name: &str, group: &str, start: usize, end: usize, lo: u8, hi: u8) -> SampleZone {
    SampleZone {
        name: name.to_string(),
        files: Vec::new(),
        start_note: start,
        end_note: end,
        vel_low: lo,
        vel_high: hi,
        group: group.to_string(),
    }
}

fn spans(zones: &[SampleZone]) -> Vec<(usize, usize, u8, u8)> {
    zones.iter().map(|z| (z.start_note, z.end_note, z.vel_low, z.vel_high)).collect()
}

#[test]
fn dragged_edges_stop_at_the_opposite_edge() {
    let mut zones = vec![zone("A", "G", 40, 50, 20, 90)];
    assert!(drag_zone_edge(&mut zones, 0, ZoneEdge::Start, 60, 0));
    assert_eq!(spans(&zones), vec![(50, 50, 20, 90)]);
    assert!(drag_zone_edge(&mut zones, 0, ZoneEdge::End, 70, 0));
    assert_eq!(spans(&zones), vec![(50, 70, 20, 90)]);
    assert!(drag_zone_edge(&mut zones, 0, ZoneEdge::Top, 0, 10));
    assert_eq!(spans(&zones), vec![(50, 70, 20, 20)]);
    assert!(drag_zone_edge(&mut zones, 0, ZoneEdge::Bottom, 0, 5));
    assert_eq!(spans(&zones), vec![(50, 70, 5, 20)]);
    assert!(!drag_zone_edge(&mut zones, 1, ZoneEdge::Bottom, 0, 5));
    assert_eq!(spans(&zones), vec![(50, 70, 5, 20)]);
}

#[test]
fn moved_bodies_keep_their_size_inside_the_map() {
    let mut zones = vec![zone("A", "G", 40, 50, 20, 60)];
    assert!(move_zone_body(&mut zones, 0, 60, 30));
    assert_eq!(spans(&zones), vec![(60, 70, 30, 70)]);
    assert!(move_zone_body(&mut zones, 0, 125, 120));
    assert_eq!(spans(&zones), vec![(117, 127, 87, 127)]);
    assert!(!move_zone_body(&mut zones, 3, 0, 0));
}

#[test]
fn a_drop_on_a_zone_adds_the_file_to_it() {
    let mut zones = vec![zone("A", "G", 40, 50, 0, 127), zone("B", "G", 45, 60, 0, 127)];
    drop_file_on_map(&mut zones, "kick.wav".to_string(), 48, 64, Some(9));
    assert_eq!(zones.len(), 2);
    assert_eq!(zones[0].files, vec!["kick.wav".to_string()]);
    assert!(zones[1].files.is_empty());
}

#[test]
fn a_drop_on_an_empty_spot_makes_a_zone() {
    let mut zones: Vec<SampleZone> = Vec::new();
    drop_file_on_map(&mut zones, "pad.wav".to_string(), 60, 100, Some(5));
    assert_eq!(zones.len(), 1);
    assert_eq!(zones[0].name, "New Zone");
    assert_eq!(zones[0].group, "New Group");
    assert_eq!(zones[0].files, vec!["pad.wav".to_string()]);
    assert_eq!(spans(&zones), vec![(58, 62, 0, 127)]);

    zones[0].group = "Pads".to_string();
    drop_file_on_map(&mut zones, "hit.wav".to_string(), 126, 10, None);
    assert_eq!(zones.len(), 2);
    assert_eq!(zones[1].name, "New Zone 2");
    assert_eq!(zones[1].group, "Pads");
    assert_eq!((zones[1].start_note, zones[1].end_note), (126, 126));

    drop_file_on_map(&mut zones, "wide.wav".to_string(), 2, 10, Some(400));
    assert_eq!(zones.len(), 3);
    assert_eq!(zones[2].name, "New Zone 3");
    assert_eq!((zones[2].start_note, zones[2].end_note), (0, 127));
}

#[test]
fn a_drop_beside_zones_takes_a_free_velocity_slot() {
    let mut zones = vec![zone("Low", "G", 50, 70, 0, 63)];
    drop_file_on_map(&mut zones, "soft.wav".to_string(), 80, 30, Some(1));
    assert_eq!(spans(&zones[1..]), vec![(80, 80, 0, 127)]);
    drop_file_on_map(&mut zones, "loud.wav".to_string(), 60, 30, Some(3));
    assert_eq!(zones.len(), 2);
    assert_eq!(zones[0].files, vec!["loud.wav".to_string()]);
    drop_file_on_map(&mut zones, "top.wav".to_string(), 60, 100, Some(3));
    assert_eq!(spans(&zones[2..]), vec![(59, 61, 64, 127)]);
}

#[test]
fn deleting_a_selection_removes_a_zone_or_a_group() {
    let mut zones = vec![
        zone("A", "Kicks", 0, 10, 0, 127),
        zone("B", "Snares", 11, 20, 0, 127),
        zone("C", "Kicks", 21, 30, 0, 127),
    ];
    delete_selection(&mut zones, &ZoneListSelection::Zone(7));
    assert_eq!(zones.len(), 3);
    delete_selection(&mut zones, &ZoneListSelection::Group("Kicks".to_string()));
    assert_eq!(zones.len(), 1);
    assert_eq!(zones[0].name, "B");
    delete_selection(&mut zones, &ZoneListSelection::Zone(0));
    assert!(zones.is_empty());
}

#[test]
fn renaming_names_only_an_existing_zone() {
    let mut zones = vec![zone("A", "G", 0, 10, 0, 127)];
    assert!(rename_zone(&mut zones, 0, "Bass".to_string()));
    assert_eq!(zones[0].name, "Bass");
    assert!(!rename_zone(&mut zones, 1, "Lead".to_string()));
    assert_eq!(zones.len(), 1);
}

#[test]
fn zone_list_groups_follow_first_appearance() {
    let zones = vec![
        zone("A", "Kicks", 0, 10, 0, 127),
        zone("B", "Snares", 11, 20, 0, 127),
        zone("C", "Kicks", 21, 30, 0, 127),
        zone("D", "", 31, 40, 0, 127),
        zone("E", "Snares", 41, 50, 0, 127),
    ];
    let groups = group_zone_list(&zones);
    assert_eq!(
        groups,
        vec![
            ("Kicks".to_string(), vec![0, 2]),
            ("Snares".to_string(), vec![1, 4]),
            (String::new(), vec![3]),
        ]
    );
    assert!(group_zone_list(&[]).is_empty());
}
