use maolan_plugins::sampler::params::ParamId;
use maolan_plugins::sampler::plugin::{
    apply_param_id, decode_controller, decode_midi, engine_part_of, ControllerAction, DirtyFlags, EnginePart,
    MidiMessage,
};

#[test]
fn sampler_apply_param_id_handles_all_param_ids() {
    for id in ParamId::all() {
        let mut dirty = DirtyFlags::default();
        assert!(apply_param_id(id, &mut dirty), "apply_param_id returned false for {id:?}");
    }
}

#[test]
fn each_parameter_marks_its_engine_part() {
    let mut dirty = DirtyFlags::default();
    apply_param_id(ParamId::FilterCutoff, &mut dirty);
    assert_eq!(dirty, DirtyFlags { filter: true, ..DirtyFlags::default() });
    apply_param_id(ParamId::Eg4Sustain, &mut dirty);
    apply_param_id(ParamId::ModRoute6Depth, &mut dirty);
    assert_eq!(dirty, DirtyFlags { filter: true, eg4: true, modulations: true, ..DirtyFlags::default() });
    let before = dirty;
    apply_param_id(ParamId::PitchBendDown, &mut dirty);
    assert_eq!(dirty, before);
    assert_eq!(engine_part_of(ParamId::PitchBendUp), None);
    assert_eq!(engine_part_of(ParamId::FilterEgAmount), Some(EnginePart::FilterEg));
    assert_eq!(engine_part_of(ParamId::FilterRelease), Some(EnginePart::Feg));
    assert_eq!(engine_part_of(ParamId::Lfo2Shape), Some(EnginePart::Lfo2));
    assert_eq!(engine_part_of(ParamId::MasterPan), Some(EnginePart::MasterPan));
}

#[test]
fn midi_messages_are_decoded_by_status_and_channel() {
    assert_eq!(decode_midi([0x93, 60, 100]), MidiMessage::NoteOn { note: 60, velocity: 100, channel: 3 });
    assert_eq!(decode_midi([0x90, 60, 0]), MidiMessage::NoteOff { note: 60, channel: 0 });
    assert_eq!(decode_midi([0x8F, 61, 40]), MidiMessage::NoteOff { note: 61, channel: 15 });
    assert_eq!(decode_midi([0xB2, 64, 127]), MidiMessage::Controller { controller: 64, value: 127 });
    assert_eq!(decode_midi([0xE0, 0, 64]), MidiMessage::PitchBend(0));
    assert_eq!(decode_midi([0xE0, 0, 0]), MidiMessage::PitchBend(-8192));
    assert_eq!(decode_midi([0xE0, 127, 127]), MidiMessage::PitchBend(8191));
    assert_eq!(decode_midi([0xC0, 5, 0]), MidiMessage::Other);
}

#[test]
fn controllers_map_to_engine_actions() {
    assert_eq!(decode_controller(1, 90), ControllerAction::ModWheel(90));
    assert_eq!(decode_controller(7, 100), ControllerAction::ChannelVolume(100));
    assert_eq!(decode_controller(11, 3), ControllerAction::Expression(3));
    assert_eq!(decode_controller(64, 63), ControllerAction::Sustain(false));
    assert_eq!(decode_controller(64, 64), ControllerAction::Sustain(true));
    assert_eq!(decode_controller(120, 0), ControllerAction::AllSoundOff);
    assert_eq!(decode_controller(123, 0), ControllerAction::AllNotesOff);
    assert_eq!(decode_controller(10, 0), ControllerAction::Ignore);
}
