use maolan_plugins::sampler::dsp::engine::{
    find_free_voice, find_part, pedal_releases, find_voice_to_steal, is_keyswitch_note, note_off_action, note_on_action,
    plan_voice, release_held_note, select_note_priority, transposed_note, voices_in_scope, NoteOffAction,
    NoteOnAction, NoteEvent, NoteState, NoteStep, PlayMode, StealMode, VoicePriority, VoiceScope, VoiceSlot,
};
use maolan_plugins::sampler::dsp::group::{GroupTrigger, TriggerType};

#[test]
fn held_note_priority() {
    let held = [(60u8, 0u8), (72, 0), (48, 1)];
    assert_eq!(select_note_priority(VoicePriority::Last, &held, 10), 48);
    assert_eq!(select_note_priority(VoicePriority::AlwaysLatest, &held, 10), 48);
    assert_eq!(select_note_priority(VoicePriority::High, &held, 10), 72);
    assert_eq!(select_note_priority(VoicePriority::AlwaysLowest, &held, 10), 48);
    assert_eq!(select_note_priority(VoicePriority::Low, &[], 10), 10);
    assert_eq!(select_note_priority(VoicePriority::Last, &[], 11), 11);
}

#[test]
fn keyswitch_notes_and_parts() {
    let groups = [
        GroupTrigger { trigger_type: TriggerType::Always, trigger_note: 30, trigger_active: false },
        GroupTrigger { trigger_type: TriggerType::KeyswitchMomentary, trigger_note: 25, trigger_active: false },
    ];
    assert!(is_keyswitch_note(&groups, 25));
    assert!(!is_keyswitch_note(&groups, 30));
    assert_eq!(find_part(&[3, 255, 5], 5), Some(1));
    assert_eq!(find_part(&[3, 4], 4), Some(1));
    assert_eq!(find_part(&[3, 4], 9), None);
    assert_eq!(find_part(&[], 0), None);
}

fn slot(active: bool, note: u8, exclusive_group: u8, group_index: usize, part_index: usize) -> VoiceSlot {
    VoiceSlot { active, note, exclusive_group, group_index, part_index }
}

#[test]
fn voices_are_counted_by_scope() {
    let slots = [
        slot(true, 60, 1, 0, 0),
        slot(false, 60, 1, 0, 0),
        slot(true, 62, 2, 1, 0),
        slot(true, 60, 1, 0, 1),
    ];
    assert_eq!(voices_in_scope(&slots, VoiceScope::Exclusive(1)), vec![0, 3]);
    assert_eq!(voices_in_scope(&slots, VoiceScope::Note(60)), vec![0, 3]);
    assert_eq!(voices_in_scope(&slots, VoiceScope::Group(0, 0)), vec![0]);
    assert_eq!(voices_in_scope(&slots, VoiceScope::Part(0)), vec![0, 2]);
    assert_eq!(voices_in_scope(&slots, VoiceScope::All), vec![0, 2, 3]);
    assert_eq!(find_free_voice(&slots), Some(1));
    assert_eq!(find_voice_to_steal(&slots, StealMode::Oldest), Some(0));
    assert_eq!(find_voice_to_steal(&slots, StealMode::ReleasedFirst), Some(0));
    assert_eq!(find_free_voice(&[slot(true, 1, 0, 0, 0)]), None);
}

#[test]
fn new_voices_respect_choke_groups_and_polyphony_limits() {
    let slots = [
        slot(true, 36, 1, 0, 0),
        slot(true, 38, 0, 1, 0),
        slot(false, 0, 0, 0, 0),
        slot(true, 42, 1, 0, 0),
    ];
    let free = plan_voice(&slots, 1, 0, 0, 0, 0, 0, StealMode::Oldest);
    assert_eq!(free.choke, vec![0, 3]);
    assert_eq!(free.voice, Some(2));
    let open_hat = plan_voice(&slots, 0, 0, 0, 0, 0, 0, StealMode::Oldest);
    assert!(open_hat.choke.is_empty());
    let group_full = plan_voice(&slots, 0, 0, 0, 2, 0, 0, StealMode::Oldest);
    assert_eq!(group_full.voice, Some(0));
    let part_full = plan_voice(&slots, 0, 1, 0, 2, 3, 0, StealMode::Oldest);
    assert_eq!(part_full.voice, Some(0));
    let engine_full = plan_voice(&slots, 0, 5, 5, 0, 0, 3, StealMode::Oldest);
    assert_eq!(engine_full.voice, Some(0));
    let room = plan_voice(&slots, 0, 1, 0, 2, 4, 4, StealMode::Oldest);
    assert_eq!(room.voice, Some(2));
    let busy = [slot(true, 60, 0, 0, 0), slot(true, 61, 0, 0, 0)];
    assert_eq!(plan_voice(&busy, 0, 0, 0, 0, 0, 0, StealMode::ReleasedFirst).voice, Some(0));
    assert_eq!(plan_voice(&[], 0, 0, 0, 0, 0, 0, StealMode::Oldest).voice, None);
}

#[test]
fn note_on_follows_the_play_mode() {
    let slots = [slot(false, 0, 0, 0, 0), slot(true, 60, 0, 0, 0), slot(true, 64, 0, 0, 0)];
    assert_eq!(note_on_action(PlayMode::Poly, &slots, 64), NoteOnAction::Trigger);
    assert_eq!(note_on_action(PlayMode::PolyStackMultiple, &slots, 64), NoteOnAction::Trigger);
    assert_eq!(note_on_action(PlayMode::Mono, &slots, 64), NoteOnAction::ReleaseAllAndTrigger);
    assert_eq!(note_on_action(PlayMode::MonoLegato, &slots, 67), NoteOnAction::Retarget(1));
    assert_eq!(note_on_action(PlayMode::MonoFP, &[], 67), NoteOnAction::Trigger);
    assert_eq!(note_on_action(PlayMode::PolyReuseSingle, &slots, 64), NoteOnAction::ReleaseAndTrigger(Some(2)));
    assert_eq!(note_on_action(PlayMode::PolyReuseSingle, &slots, 65), NoteOnAction::ReleaseAndTrigger(None));
    assert_eq!(transposed_note(60, 12), 72);
    assert_eq!(transposed_note(120, 12), 127);
    assert_eq!(transposed_note(5, -12), 0);
}

#[test]
fn note_off_follows_the_play_mode() {
    let mut held = vec![(60u8, 0u8), (64, 1), (60, 2), (67, 0)];
    release_held_note(&mut held, 60);
    assert_eq!(held, vec![(64, 1), (67, 0)]);
    assert_eq!(note_off_action(PlayMode::Poly, &held, true, VoicePriority::Last, 60), NoteOffAction::Sustain);
    assert_eq!(note_off_action(PlayMode::Poly, &held, false, VoicePriority::Last, 60), NoteOffAction::ReleaseNote);
    assert_eq!(note_off_action(PlayMode::Mono, &held, false, VoicePriority::Last, 60), NoteOffAction::Nothing);
    assert_eq!(note_off_action(PlayMode::Mono, &[], false, VoicePriority::Last, 60), NoteOffAction::ReleaseAll);
    assert_eq!(
        note_off_action(PlayMode::MonoLegato, &held, false, VoicePriority::Low, 60),
        NoteOffAction::Retarget(64)
    );
    assert_eq!(
        note_off_action(PlayMode::MonoST, &held, false, VoicePriority::Last, 60),
        NoteOffAction::Retarget(67)
    );
    assert_eq!(note_off_action(PlayMode::MonoFP, &[], false, VoicePriority::Last, 60), NoteOffAction::ReleaseAll);
}

#[test]
fn lifting_the_pedal_releases_the_sustained_notes() {
    let slots = [slot(true, 60, 0, 0, 0), slot(true, 64, 0, 0, 0), slot(false, 60, 0, 0, 0), slot(true, 60, 0, 0, 1)];
    assert_eq!(pedal_releases(&slots, true, false, &[64, 60]), vec![1, 0, 3]);
    assert!(pedal_releases(&slots, true, true, &[64, 60]).is_empty());
    assert!(pedal_releases(&slots, false, false, &[64]).is_empty());
    assert!(pedal_releases(&slots, true, false, &[]).is_empty());
}

#[test]
fn note_state_follows_keys_pedal_and_panic_messages() {
    let mut st = NoteState::new();
    assert_eq!(st.last_note, 60);
    assert_eq!(st.step(NoteEvent::NoteOn { note: 64, velocity: 90, channel: 0 }, PlayMode::Poly, VoicePriority::Last),
        NoteStep::Play { note: 64, velocity: 90, channel: 0 });
    st.step(NoteEvent::NoteOn { note: 67, velocity: 90, channel: 1 }, PlayMode::Poly, VoicePriority::Last);
    assert_eq!(st.held, vec![(64, 0), (67, 1)]);
    assert_eq!(st.last_note, 67);
    assert_eq!(
        st.step(NoteEvent::NoteOff { note: 67, channel: 1 }, PlayMode::MonoLegato, VoicePriority::Last),
        NoteStep::Release { note: 67, channel: 1, action: NoteOffAction::Retarget(64) }
    );
    assert_eq!(st.step(NoteEvent::Sustain(true), PlayMode::Poly, VoicePriority::Last), NoteStep::Nothing);
    assert_eq!(
        st.step(NoteEvent::NoteOff { note: 64, channel: 0 }, PlayMode::Poly, VoicePriority::Last),
        NoteStep::Release { note: 64, channel: 0, action: NoteOffAction::Sustain }
    );
    assert_eq!(st.sustained, vec![64]);
    assert_eq!(st.step(NoteEvent::Sustain(false), PlayMode::Poly, VoicePriority::Last), NoteStep::ReleaseNotes(vec![64]));
    assert!(st.sustained.is_empty());
    st.step(NoteEvent::NoteOn { note: 50, velocity: 1, channel: 0 }, PlayMode::Poly, VoicePriority::Last);
    assert_eq!(st.step(NoteEvent::AllSoundOff, PlayMode::Poly, VoicePriority::Last), NoteStep::StopAll);
    assert!(st.held.is_empty());
    assert_eq!(st.step(NoteEvent::AllNotesOff, PlayMode::Poly, VoicePriority::Last), NoteStep::ReleaseAll);
}
