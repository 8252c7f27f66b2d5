use maolan_plugins::sampler::dsp::group::{
    find_part_zone, find_zone, group_is_active, handle_keyswitch_off, handle_keyswitch_on, zone_contains,
    GroupTrigger, PartGroup, TriggerCondition, TriggerConjunction, TriggerType, ZoneRange,
};
use maolan_plugins::sampler::dsp::processor::{routing_plan, ProcessorRouting, ProcessorType, RouteStage};

fn trigger(kind: TriggerType) -> GroupTrigger {
    GroupTrigger { trigger_type: kind, trigger_note: 0, trigger_active: false }
}

fn active(
    t: &GroupTrigger,
    conds: &[TriggerCondition; 4],
    conj: &[TriggerConjunction; 3],
    macros: &[bool; 16],
    cc: &[u8; 128],
) -> bool {
    group_is_active(t, conds, conj, macros, cc)
}

#[test]
fn test_group_is_active_none() {
    let t = trigger(TriggerType::Always);
    assert!(active(&t, &[TriggerCondition::default(); 4], &[TriggerConjunction::default(); 3], &[false; 16], &[0u8; 128]));
}

#[test]
fn test_group_is_active_keyswitch() {
    let mut t = trigger(TriggerType::KeyswitchLatch);
    let conds = [TriggerCondition::default(); 4];
    let conj = [TriggerConjunction::default(); 3];
    assert!(!active(&t, &conds, &conj, &[false; 16], &[0u8; 128]));
    t.trigger_active = true;
    assert!(active(&t, &conds, &conj, &[false; 16], &[0u8; 128]));
}

#[test]
fn test_group_macro_trigger() {
    let t = trigger(TriggerType::Macro);
    let mut conds = [TriggerCondition::default(); 4];
    conds[0].macro_id = 0;
    let conj = [TriggerConjunction::default(); 3];
    let mut macros = [false; 16];
    assert!(!active(&t, &conds, &conj, &macros, &[0u8; 128]));
    macros[0] = true;
    assert!(active(&t, &conds, &conj, &macros, &[0u8; 128]));
}

#[test]
fn test_group_midi_cc_trigger() {
    let t = trigger(TriggerType::MidiCc);
    let mut conds = [TriggerCondition::default(); 4];
    conds[0].cc = 10;
    conds[0].cc_value = 64;
    let conj = [TriggerConjunction::default(); 3];
    let mut cc = [0u8; 128];
    cc[10] = 63;
    assert!(!active(&t, &conds, &conj, &[false; 16], &cc));
    cc[10] = 64;
    assert!(active(&t, &conds, &conj, &[false; 16], &cc));
}

#[test]
fn test_trigger_conjunction_and() {
    let t = trigger(TriggerType::Macro);
    let mut conds = [TriggerCondition::default(); 4];
    conds[0].macro_id = 0;
    conds[1].macro_id = 1;
    let mut conj = [TriggerConjunction::default(); 3];
    conj[0] = TriggerConjunction::And;
    let mut macros = [false; 16];
    macros[0] = true;
    macros[1] = false;
    assert!(!active(&t, &conds, &conj, &macros, &[0u8; 128]));
    macros[1] = true;
    assert!(active(&t, &conds, &conj, &macros, &[0u8; 128]));
}

#[test]
fn test_trigger_conjunction_or() {
    let t = trigger(TriggerType::Macro);
    let mut conds = [TriggerCondition::default(); 4];
    conds[0].macro_id = 0;
    conds[1].macro_id = 1;
    let mut conj = [TriggerConjunction::default(); 3];
    conj[0] = TriggerConjunction::Or;
    let mut macros = [false; 16];
    macros[0] = true;
    macros[1] = false;
    assert!(active(&t, &conds, &conj, &macros, &[0u8; 128]));
    macros[0] = false;
    assert!(!active(&t, &conds, &conj, &macros, &[0u8; 128]));
}

#[test]
fn conjunctions_apply_left_to_right() {
    let t = trigger(TriggerType::MidiCc);
    let mut conds = [TriggerCondition::default(); 4];
    for (i, c) in conds.iter_mut().enumerate() {
        c.cc = i as u8 + 130; // wraps to CC 2..5
        c.cc_value = 1;
    }
    let mut cc = [0u8; 128];
    cc[2] = 1; // condition 0 holds, the others do not
    let conj = [TriggerConjunction::AndNot, TriggerConjunction::OrNot, TriggerConjunction::And];
    // ((true && !false) || !false) && false
    assert!(!active(&t, &conds, &conj, &[false; 16], &cc));
    cc[5] = 1;
    assert!(active(&t, &conds, &conj, &[false; 16], &cc));
}

#[test]
fn latch_keyswitch_is_exclusive_and_momentary_follows_key() {
    let mut groups = vec![
        GroupTrigger { trigger_type: TriggerType::KeyswitchLatch, trigger_note: 24, trigger_active: true },
        GroupTrigger { trigger_type: TriggerType::KeyswitchLatch, trigger_note: 25, trigger_active: false },
        GroupTrigger { trigger_type: TriggerType::KeyswitchMomentary, trigger_note: 26, trigger_active: false },
        GroupTrigger { trigger_type: TriggerType::Always, trigger_note: 25, trigger_active: false },
    ];
    handle_keyswitch_on(&mut groups, 25);
    let states: Vec<bool> = groups.iter().map(|g| g.trigger_active).collect();
    assert_eq!(states, vec![false, true, false, false]);
    // A key no latch group answers leaves the latches alone.
    handle_keyswitch_on(&mut groups, 26);
    let states: Vec<bool> = groups.iter().map(|g| g.trigger_active).collect();
    assert_eq!(states, vec![false, true, true, false]);
    handle_keyswitch_off(&mut groups, 26);
    let states: Vec<bool> = groups.iter().map(|g| g.trigger_active).collect();
    assert_eq!(states, vec![false, true, false, false]);
}

fn describe(plan: &[RouteStage]) -> Vec<String> {
    plan.iter()
        .map(|s| match s {
            RouteStage::Serial(i) => format!("S{i}"),
            RouteStage::Parallel(v) => format!("P{v:?}"),
            RouteStage::ParallelPairs(v) => format!("Q{v:?}"),
        })
        .collect()
}

#[test]
fn routing_plans_follow_patterns() {
    let on = [true, true, true, true];
    let kinds = [ProcessorType::Gain, ProcessorType::NoProcessor, ProcessorType::Pan, ProcessorType::Gain];
    assert_eq!(describe(&routing_plan(ProcessorRouting::S1, &on, &kinds)), vec!["S0", "S1", "S2", "S3"]);
    assert_eq!(describe(&routing_plan(ProcessorRouting::S2, &on, &kinds)), vec!["P[0]", "P[2, 3]"]);
    assert_eq!(describe(&routing_plan(ProcessorRouting::S3, &on, &kinds)), vec!["S0", "P[2]", "S3"]);
    assert_eq!(describe(&routing_plan(ProcessorRouting::P1, &on, &kinds)), vec!["P[0, 2, 3]"]);
    assert_eq!(describe(&routing_plan(ProcessorRouting::P2, &on, &kinds)), vec!["Q[0, 2]"]);
    assert_eq!(describe(&routing_plan(ProcessorRouting::P3, &on, &kinds)), vec!["P[0, 2]", "S3"]);
    assert!(routing_plan(ProcessorRouting::Bypass, &on, &kinds).is_empty());
    let off = [false; 4];
    assert!(routing_plan(ProcessorRouting::P1, &off, &kinds).is_empty());
    assert!(routing_plan(ProcessorRouting::P2, &off, &kinds).is_empty());
}

fn range(key_low: u8, key_high: u8, vel_low: u8, vel_high: u8) -> ZoneRange {
    ZoneRange { key_low, key_high, vel_low, vel_high }
}

#[test]
fn test_zone_contains() {
    let zone = range(40, 60, 20, 100);
    assert!(zone_contains(&zone, 50, 50));
    assert!(!zone_contains(&zone, 30, 50));
    assert!(!zone_contains(&zone, 50, 10));
}

#[test]
fn the_first_matching_zone_of_the_first_active_group_plays() {
    let zones = vec![range(0, 59, 0, 127), range(60, 72, 0, 63), range(60, 72, 64, 127), range(60, 72, 0, 127)];
    assert_eq!(find_zone(&zones, 65, 100), Some(2));
    assert_eq!(find_zone(&zones, 65, 10), Some(1));
    assert_eq!(find_zone(&zones, 80, 10), None);

    let mut latched = trigger(TriggerType::KeyswitchLatch);
    latched.trigger_note = 24;
    let groups = vec![
        PartGroup {
            trigger: latched,
            conditions: [TriggerCondition::default(); 4],
            conjunctions: [TriggerConjunction::And; 3],
            zones: vec![range(0, 127, 0, 127)],
        },
        PartGroup {
            trigger: trigger(TriggerType::Always),
            conditions: [TriggerCondition::default(); 4],
            conjunctions: [TriggerConjunction::And; 3],
            zones: vec![range(70, 80, 0, 127)],
        },
        PartGroup {
            trigger: trigger(TriggerType::Always),
            conditions: [TriggerCondition::default(); 4],
            conjunctions: [TriggerConjunction::And; 3],
            zones: zones.clone(),
        },
    ];
    let macros = [false; 16];
    let ccs = [0u8; 128];
    assert_eq!(find_part_zone(&groups, &macros, &ccs, 65, 100), Some((2, 2)));
    assert_eq!(find_part_zone(&groups, &macros, &ccs, 75, 100), Some((1, 0)));
    assert_eq!(find_part_zone(&groups, &macros, &ccs, 127, 100), None);
    let mut switched = groups;
    switched[0].trigger.trigger_active = true;
    assert_eq!(find_part_zone(&switched, &macros, &ccs, 127, 100), Some((0, 0)));
}
