//! Which part of the sampler's sound engine a parameter change touches, and
//! what a raw MIDI message asks of it.

use vstd::prelude::*;
use crate::sampler::params::ParamId;

verus! {

/// The parts of the sound engine whose settings changed in a block of
/// parameter events and must be handed to the engine again.
#[derive(Debug, Clone, Copy, PartialEq, Eq, Structural)]
pub struct DirtyFlags {
    pub master_gain: bool,
    pub master_pan: bool,
    pub amp_eg: bool,
    pub filter: bool,
    pub filter_eg: bool,
    pub feg: bool,
    pub eg2: bool,
    pub eg3: bool,
    pub eg4: bool,
    pub eg5: bool,
    pub lfo1: bool,
    pub lfo2: bool,
    pub modulations: bool,
}

/// One part of the sound engine that a parameter belongs to.
#[derive(Debug, Clone, Copy, PartialEq, Eq, Structural)]
pub enum EnginePart {
    MasterGain,
    MasterPan,
    AmpEg,
    Filter,
    FilterEg,
    Feg,
    Eg2,
    Eg3,
    Eg4,
    Eg5,
    Lfo1,
    Lfo2,
    Modulations,
}

impl Default for DirtyFlags {
    fn default() -> (r: Self)
        ensures
            r == (DirtyFlags {
                master_gain: false,
                master_pan: false,
                amp_eg: false,
                filter: false,
                filter_eg: false,
                feg: false,
                eg2: false,
                eg3: false,
                eg4: false,
                eg5: false,
                lfo1: false,
                lfo2: false,
                modulations: false,
            }),
    {
        DirtyFlags {
            master_gain: false,
            master_pan: false,
            amp_eg: false,
            filter: false,
            filter_eg: false,
            feg: false,
            eg2: false,
            eg3: false,
            eg4: false,
            eg5: false,
            lfo1: false,
            lfo2: false,
            modulations: false,
        }
    }
}

/// The part of the engine a parameter sets; none for the pitch-bend range,
/// which the patch reads itself.
pub open spec fn engine_part(id: ParamId) -> Option<EnginePart> {
    match id {
        ParamId::MasterGain => Some(EnginePart::MasterGain),
        ParamId::MasterPan => Some(EnginePart::MasterPan),
        ParamId::AmpAttack | ParamId::AmpDecay | ParamId::AmpSustain | ParamId::AmpRelease => Some(EnginePart::AmpEg),
        ParamId::PitchBendUp | ParamId::PitchBendDown => None,
        ParamId::FilterType | ParamId::FilterCutoff | ParamId::FilterResonance | ParamId::FilterEnabled => Some(
            EnginePart::Filter,
        ),
        ParamId::FilterEgAmount => Some(EnginePart::FilterEg),
        ParamId::FilterAttack | ParamId::FilterDecay | ParamId::FilterSustain | ParamId::FilterRelease => Some(
            EnginePart::Feg,
        ),
        ParamId::Eg2Attack | ParamId::Eg2Decay | ParamId::Eg2Sustain | ParamId::Eg2Release => Some(EnginePart::Eg2),
        ParamId::Eg3Attack | ParamId::Eg3Decay | ParamId::Eg3Sustain | ParamId::Eg3Release => Some(EnginePart::Eg3),
        ParamId::Eg4Attack | ParamId::Eg4Decay | ParamId::Eg4Sustain | ParamId::Eg4Release => Some(EnginePart::Eg4),
        ParamId::Eg5Attack | ParamId::Eg5Decay | ParamId::Eg5Sustain | ParamId::Eg5Release => Some(EnginePart::Eg5),
        ParamId::Lfo1Rate | ParamId::Lfo1Amount | ParamId::Lfo1Shape | ParamId::Lfo1Enabled => Some(EnginePart::Lfo1),
        ParamId::Lfo2Rate | ParamId::Lfo2Amount | ParamId::Lfo2Shape | ParamId::Lfo2Enabled => Some(EnginePart::Lfo2),
        _ => Some(EnginePart::Modulations),
    }
}

/// The flags with one part of the engine marked as changed.
pub open spec fn marked(d: DirtyFlags, part: EnginePart) -> DirtyFlags {
    DirtyFlags {
        master_gain: d.master_gain || part == EnginePart::MasterGain,
        master_pan: d.master_pan || part == EnginePart::MasterPan,
        amp_eg: d.amp_eg || part == EnginePart::AmpEg,
        filter: d.filter || part == EnginePart::Filter,
        filter_eg: d.filter_eg || part == EnginePart::FilterEg,
        feg: d.feg || part == EnginePart::Feg,
        eg2: d.eg2 || part == EnginePart::Eg2,
        eg3: d.eg3 || part == EnginePart::Eg3,
        eg4: d.eg4 || part == EnginePart::Eg4,
        eg5: d.eg5 || part == EnginePart::Eg5,
        lfo1: d.lfo1 || part == EnginePart::Lfo1,
        lfo2: d.lfo2 || part == EnginePart::Lfo2,
        modulations: d.modulations || part == EnginePart::Modulations,
    }
}

/// The part of the engine a parameter sets.
pub fn engine_part_of(id: ParamId) -> (r: Option<EnginePart>)
    ensures
        r == engine_part(id),
{
    match id {
        ParamId::MasterGain => Some(EnginePart::MasterGain),
        ParamId::MasterPan => Some(EnginePart::MasterPan),
        ParamId::AmpAttack | ParamId::AmpDecay | ParamId::AmpSustain | ParamId::AmpRelease => Some(EnginePart::AmpEg),
        ParamId::PitchBendUp | ParamId::PitchBendDown => None,
        ParamId::FilterType | ParamId::FilterCutoff | ParamId::FilterResonance | ParamId::FilterEnabled => Some(
            EnginePart::Filter,
        ),
        ParamId::FilterEgAmount => Some(EnginePart::FilterEg),
        ParamId::FilterAttack | ParamId::FilterDecay | ParamId::FilterSustain | ParamId::FilterRelease => Some(
            EnginePart::Feg,
        ),
        ParamId::Eg2Attack | ParamId::Eg2Decay | ParamId::Eg2Sustain | ParamId::Eg2Release => Some(EnginePart::Eg2),
        ParamId::Eg3Attack | ParamId::Eg3Decay | ParamId::Eg3Sustain | ParamId::Eg3Release => Some(EnginePart::Eg3),
        ParamId::Eg4Attack | ParamId::Eg4Decay | ParamId::Eg4Sustain | ParamId::Eg4Release => Some(EnginePart::Eg4),
        ParamId::Eg5Attack | ParamId::Eg5Decay | ParamId::Eg5Sustain | ParamId::Eg5Release => Some(EnginePart::Eg5),
        ParamId::Lfo1Rate | ParamId::Lfo1Amount | ParamId::Lfo1Shape | ParamId::Lfo1Enabled => Some(EnginePart::Lfo1),
        ParamId::Lfo2Rate | ParamId::Lfo2Amount | ParamId::Lfo2Shape | ParamId::Lfo2Enabled => Some(EnginePart::Lfo2),
        _ => Some(EnginePart::Modulations),
    }
}

fn mark(dirty: &mut DirtyFlags, part: EnginePart)
    ensures
        *final(dirty) == marked(*old(dirty), part),
{
    *dirty = DirtyFlags {
        master_gain: dirty.master_gain || part == EnginePart::MasterGain,
        master_pan: dirty.master_pan || part == EnginePart::MasterPan,
        amp_eg: dirty.amp_eg || part == EnginePart::AmpEg,
        filter: dirty.filter || part == EnginePart::Filter,
        filter_eg: dirty.filter_eg || part == EnginePart::FilterEg,
        feg: dirty.feg || part == EnginePart::Feg,
        eg2: dirty.eg2 || part == EnginePart::Eg2,
        eg3: dirty.eg3 || part == EnginePart::Eg3,
        eg4: dirty.eg4 || part == EnginePart::Eg4,
        eg5: dirty.eg5 || part == EnginePart::Eg5,
        lfo1: dirty.lfo1 || part == EnginePart::Lfo1,
        lfo2: dirty.lfo2 || part == EnginePart::Lfo2,
        modulations: dirty.modulations || part == EnginePart::Modulations,
    };
}

/// Marks the part of the engine that a changed parameter sets; every
/// parameter is handled.
pub fn apply_param_id(id: ParamId, dirty: &mut DirtyFlags) -> (handled: bool)
    ensures
        handled,
        *final(dirty) == (match engine_part(id) {
            Some(part) => marked(*old(dirty), part),
            None => *old(dirty),
        }),
{
    match engine_part_of(id) {
        Some(part) => mark(dirty, part),
        None => {},
    }
    true
}

// ---------------------------------------------------------------------------
// MIDI messages
// ---------------------------------------------------------------------------

/// What a three-byte MIDI message asks of the engine.
#[derive(Debug, Clone, Copy, PartialEq, Eq, Structural)]
pub enum MidiMessage {
    /// A key pressed with a non-zero velocity.
    NoteOn { note: u8, velocity: u8, channel: u8 },
    /// A key released, or pressed with velocity zero.
    NoteOff { note: u8, channel: u8 },
    /// A controller set to a value.
    Controller { controller: u8, value: u8 },
    /// The pitch wheel, centred on zero (-8192 to 8191 for well-formed data).
    PitchBend(i16),
    /// Anything else, which the engine ignores.
    Other,
}

/// The 14-bit pitch-wheel value of two data bytes, centred on zero.
pub open spec fn bend_value(lsb: u8, msb: u8) -> int {
    ((((msb as i16) << 7u16) | (lsb as i16)) as int) - 8192
}

/// The message that three MIDI bytes carry: the high four bits of the
/// status byte give its kind and the low four the channel.
pub open spec fn midi_message(data: [u8; 3]) -> MidiMessage {
    let kind = data[0] / 16;
    let channel = (data[0] % 16) as u8;
    if kind == 9 {
        if data[2] > 0 {
            MidiMessage::NoteOn { note: data[1], velocity: data[2], channel }
        } else {
            MidiMessage::NoteOff { note: data[1], channel }
        }
    } else if kind == 8 {
        MidiMessage::NoteOff { note: data[1], channel }
    } else if kind == 11 {
        MidiMessage::Controller { controller: data[1], value: data[2] }
    } else if kind == 14 {
        MidiMessage::PitchBend(bend_value(data[1], data[2]) as i16)
    } else {
        MidiMessage::Other
    }
}

proof fn lemma_bend_bounds(lsb: u8, msb: u8)
    ensures
        0 <= (((msb as i16) << 7u16) | (lsb as i16)) <= 32767,
{
    assert(0 <= (((msb as i16) << 7u16) | (lsb as i16)) <= 32767) by (bit_vector);
}

/// Reads what a three-byte MIDI message asks of the engine.
pub fn decode_midi(data: [u8; 3]) -> (r: MidiMessage)
    ensures
        r == midi_message(data),
{
    let status = data[0];
    let kind = status / 16;
    let channel = status % 16;
    if kind == 9 {
        if data[2] > 0 {
            MidiMessage::NoteOn { note: data[1], velocity: data[2], channel }
        } else {
            MidiMessage::NoteOff { note: data[1], channel }
        }
    } else if kind == 8 {
        MidiMessage::NoteOff { note: data[1], channel }
    } else if kind == 11 {
        MidiMessage::Controller { controller: data[1], value: data[2] }
    } else if kind == 14 {
        proof {
            lemma_bend_bounds(data[1], data[2]);
        }
        let raw: i16 = ((data[2] as i16) << 7u16) | (data[1] as i16);
        MidiMessage::PitchBend(raw - 8192)
    } else {
        MidiMessage::Other
    }
}

/// For well-formed data bytes (below 128) the pitch-wheel value is the
/// 14-bit number they spell, less 8192.
pub proof fn law_bend_value_of_data_bytes(lsb: u8, msb: u8)
    requires
        lsb < 128,
        msb < 128,
    ensures
        bend_value(lsb, msb) == msb * 128 + lsb - 8192,
        -8192 <= bend_value(lsb, msb) <= 8191,
{
    assert((((msb as i16) << 7u16) | (lsb as i16)) == (msb as i16) * 128 + (lsb as i16)) by (bit_vector)
        requires
            lsb < 128,
            msb < 128,
    ;
}

/// What a controller change does to the engine.
#[derive(Debug, Clone, Copy, PartialEq, Eq, Structural)]
pub enum ControllerAction {
    ModWheel(u8),
    ChannelVolume(u8),
    Expression(u8),
    Sustain(bool),
    AllSoundOff,
    AllNotesOff,
    Ignore,
}

/// What controller `controller` set to `value` does: the mod wheel (1),
/// channel volume (7) and expression (11) take the value; the sustain pedal
/// (64) is down from 64 on; 120 silences every voice and 123 releases every
/// note.
pub open spec fn controller_action(controller: u8, value: u8) -> ControllerAction {
    if controller == 1 {
        ControllerAction::ModWheel(value)
    } else if controller == 7 {
        ControllerAction::ChannelVolume(value)
    } else if controller == 11 {
        ControllerAction::Expression(value)
    } else if controller == 64 {
        ControllerAction::Sustain(value >= 64)
    } else if controller == 120 {
        ControllerAction::AllSoundOff
    } else if controller == 123 {
        ControllerAction::AllNotesOff
    } else {
        ControllerAction::Ignore
    }
}

/// Decides what a controller change does to the engine.
pub fn decode_controller(controller: u8, value: u8) -> (r: ControllerAction)
    ensures
        r == controller_action(controller, value),
{
    match controller {
        1 => ControllerAction::ModWheel(value),
        7 => ControllerAction::ChannelVolume(value),
        11 => ControllerAction::Expression(value),
        64 => ControllerAction::Sustain(value >= 64),
        120 => ControllerAction::AllSoundOff,
        123 => ControllerAction::AllNotesOff,
        _ => ControllerAction::Ignore,
    }
}

} // verus!
