//! The sampler's automatable parameters and their numbering.

use vstd::prelude::*;

verus! {

/// The number of sampler parameters.
pub const PARAM_COUNT: usize = 59;

/// A sampler parameter, numbered from 0 in declaration order.
#[derive(Debug, Clone, Copy, PartialEq, Eq, Structural)]
pub enum ParamId {
    MasterGain,
    MasterPan,
    AmpAttack,
    AmpDecay,
    AmpSustain,
    AmpRelease,
    PitchBendUp,
    PitchBendDown,
    FilterType,
    FilterCutoff,
    FilterResonance,
    FilterEgAmount,
    FilterEnabled,
    FilterAttack,
    FilterDecay,
    FilterSustain,
    FilterRelease,
    Eg2Attack,
    Eg2Decay,
    Eg2Sustain,
    Eg2Release,
    Eg3Attack,
    Eg3Decay,
    Eg3Sustain,
    Eg3Release,
    Eg4Attack,
    Eg4Decay,
    Eg4Sustain,
    Eg4Release,
    Eg5Attack,
    Eg5Decay,
    Eg5Sustain,
    Eg5Release,
    Lfo1Rate,
    Lfo1Amount,
    Lfo1Shape,
    Lfo1Enabled,
    Lfo2Rate,
    Lfo2Amount,
    Lfo2Shape,
    Lfo2Enabled,
    ModRoute1Source,
    ModRoute1Target,
    ModRoute1Depth,
    ModRoute2Source,
    ModRoute2Target,
    ModRoute2Depth,
    ModRoute3Source,
    ModRoute3Target,
    ModRoute3Depth,
    ModRoute4Source,
    ModRoute4Target,
    ModRoute4Depth,
    ModRoute5Source,
    ModRoute5Target,
    ModRoute5Depth,
    ModRoute6Source,
    ModRoute6Target,
    ModRoute6Depth,
}

impl ParamId {
    /// The parameter's number.
    pub open spec fn index(self) -> nat {
        match self {
            ParamId::MasterGain => 0,
            ParamId::MasterPan => 1,
            ParamId::AmpAttack => 2,
            ParamId::AmpDecay => 3,
            ParamId::AmpSustain => 4,
            ParamId::AmpRelease => 5,
            ParamId::PitchBendUp => 6,
            ParamId::PitchBendDown => 7,
            ParamId::FilterType => 8,
            ParamId::FilterCutoff => 9,
            ParamId::FilterResonance => 10,
            ParamId::FilterEgAmount => 11,
            ParamId::FilterEnabled => 12,
            ParamId::FilterAttack => 13,
            ParamId::FilterDecay => 14,
            ParamId::FilterSustain => 15,
            ParamId::FilterRelease => 16,
            ParamId::Eg2Attack => 17,
            ParamId::Eg2Decay => 18,
            ParamId::Eg2Sustain => 19,
            ParamId::Eg2Release => 20,
            ParamId::Eg3Attack => 21,
            ParamId::Eg3Decay => 22,
            ParamId::Eg3Sustain => 23,
            ParamId::Eg3Release => 24,
            ParamId::Eg4Attack => 25,
            ParamId::Eg4Decay => 26,
            ParamId::Eg4Sustain => 27,
            ParamId::Eg4Release => 28,
            ParamId::Eg5Attack => 29,
            ParamId::Eg5Decay => 30,
            ParamId::Eg5Sustain => 31,
            ParamId::Eg5Release => 32,
            ParamId::Lfo1Rate => 33,
            ParamId::Lfo1Amount => 34,
            ParamId::Lfo1Shape => 35,
            ParamId::Lfo1Enabled => 36,
            ParamId::Lfo2Rate => 37,
            ParamId::Lfo2Amount => 38,
            ParamId::Lfo2Shape => 39,
            ParamId::Lfo2Enabled => 40,
            ParamId::ModRoute1Source => 41,
            ParamId::ModRoute1Target => 42,
            ParamId::ModRoute1Depth => 43,
            ParamId::ModRoute2Source => 44,
            ParamId::ModRoute2Target => 45,
            ParamId::ModRoute2Depth => 46,
            ParamId::ModRoute3Source => 47,
            ParamId::ModRoute3Target => 48,
            ParamId::ModRoute3Depth => 49,
            ParamId::ModRoute4Source => 50,
            ParamId::ModRoute4Target => 51,
            ParamId::ModRoute4Depth => 52,
            ParamId::ModRoute5Source => 53,
            ParamId::ModRoute5Target => 54,
            ParamId::ModRoute5Depth => 55,
            ParamId::ModRoute6Source => 56,
            ParamId::ModRoute6Target => 57,
            ParamId::ModRoute6Depth => 58,
        }
    }

    /// The parameter with a number, if there is one.
    pub open spec fn from_index(id: int) -> Option<ParamId> {
        if id == 0 {
            Some(ParamId::MasterGain)
        } else if id == 1 {
            Some(ParamId::MasterPan)
        } else if id == 2 {
            Some(ParamId::AmpAttack)
        } else if id == 3 {
            Some(ParamId::AmpDecay)
        } else if id == 4 {
            Some(ParamId::AmpSustain)
        } else if id == 5 {
            Some(ParamId::AmpRelease)
        } else if id == 6 {
            Some(ParamId::PitchBendUp)
        } else if id == 7 {
            Some(ParamId::PitchBendDown)
        } else if id == 8 {
            Some(ParamId::FilterType)
        } else if id == 9 {
            Some(ParamId::FilterCutoff)
        } else if id == 10 {
            Some(ParamId::FilterResonance)
        } else if id == 11 {
            Some(ParamId::FilterEgAmount)
        } else if id == 12 {
            Some(ParamId::FilterEnabled)
        } else if id == 13 {
            Some(ParamId::FilterAttack)
        } else if id == 14 {
            Some(ParamId::FilterDecay)
        } else if id == 15 {
            Some(ParamId::FilterSustain)
        } else if id == 16 {
            Some(ParamId::FilterRelease)
        } else if id == 17 {
            Some(ParamId::Eg2Attack)
        } else if id == 18 {
            Some(ParamId::Eg2Decay)
        } else if id == 19 {
            Some(ParamId::Eg2Sustain)
        } else if id == 20 {
            Some(ParamId::Eg2Release)
        } else if id == 21 {
            Some(ParamId::Eg3Attack)
        } else if id == 22 {
            Some(ParamId::Eg3Decay)
        } else if id == 23 {
            Some(ParamId::Eg3Sustain)
        } else if id == 24 {
            Some(ParamId::Eg3Release)
        } else if id == 25 {
            Some(ParamId::Eg4Attack)
        } else if id == 26 {
            Some(ParamId::Eg4Decay)
        } else if id == 27 {
            Some(ParamId::Eg4Sustain)
        } else if id == 28 {
            Some(ParamId::Eg4Release)
        } else if id == 29 {
            Some(ParamId::Eg5Attack)
        } else if id == 30 {
            Some(ParamId::Eg5Decay)
        } else if id == 31 {
            Some(ParamId::Eg5Sustain)
        } else if id == 32 {
            Some(ParamId::Eg5Release)
        } else if id == 33 {
            Some(ParamId::Lfo1Rate)
        } else if id == 34 {
            Some(ParamId::Lfo1Amount)
        } else if id == 35 {
            Some(ParamId::Lfo1Shape)
        } else if id == 36 {
            Some(ParamId::Lfo1Enabled)
        } else if id == 37 {
            Some(ParamId::Lfo2Rate)
        } else if id == 38 {
            Some(ParamId::Lfo2Amount)
        } else if id == 39 {
            Some(ParamId::Lfo2Shape)
        } else if id == 40 {
            Some(ParamId::Lfo2Enabled)
        } else if id == 41 {
            Some(ParamId::ModRoute1Source)
        } else if id == 42 {
            Some(ParamId::ModRoute1Target)
        } else if id == 43 {
            Some(ParamId::ModRoute1Depth)
        } else if id == 44 {
            Some(ParamId::ModRoute2Source)
        } else if id == 45 {
            Some(ParamId::ModRoute2Target)
        } else if id == 46 {
            Some(ParamId::ModRoute2Depth)
        } else if id == 47 {
            Some(ParamId::ModRoute3Source)
        } else if id == 48 {
            Some(ParamId::ModRoute3Target)
        } else if id == 49 {
            Some(ParamId::ModRoute3Depth)
        } else if id == 50 {
            Some(ParamId::ModRoute4Source)
        } else if id == 51 {
            Some(ParamId::ModRoute4Target)
        } else if id == 52 {
            Some(ParamId::ModRoute4Depth)
        } else if id == 53 {
            Some(ParamId::ModRoute5Source)
        } else if id == 54 {
            Some(ParamId::ModRoute5Target)
        } else if id == 55 {
            Some(ParamId::ModRoute5Depth)
        } else if id == 56 {
            Some(ParamId::ModRoute6Source)
        } else if id == 57 {
            Some(ParamId::ModRoute6Target)
        } else if id == 58 {
            Some(ParamId::ModRoute6Depth)
        } else {
            None
        }
    }

    /// The parameter's number as an index into per-parameter tables.
    pub fn as_index(self) -> (r: usize)
        ensures
            r == self.index(),
    {
        match self {
            ParamId::MasterGain => 0,
            ParamId::MasterPan => 1,
            ParamId::AmpAttack => 2,
            ParamId::AmpDecay => 3,
            ParamId::AmpSustain => 4,
            ParamId::AmpRelease => 5,
            ParamId::PitchBendUp => 6,
            ParamId::PitchBendDown => 7,
            ParamId::FilterType => 8,
            ParamId::FilterCutoff => 9,
            ParamId::FilterResonance => 10,
            ParamId::FilterEgAmount => 11,
            ParamId::FilterEnabled => 12,
            ParamId::FilterAttack => 13,
            ParamId::FilterDecay => 14,
            ParamId::FilterSustain => 15,
            ParamId::FilterRelease => 16,
            ParamId::Eg2Attack => 17,
            ParamId::Eg2Decay => 18,
            ParamId::Eg2Sustain => 19,
            ParamId::Eg2Release => 20,
            ParamId::Eg3Attack => 21,
            ParamId::Eg3Decay => 22,
            ParamId::Eg3Sustain => 23,
            ParamId::Eg3Release => 24,
            ParamId::Eg4Attack => 25,
            ParamId::Eg4Decay => 26,
            ParamId::Eg4Sustain => 27,
            ParamId::Eg4Release => 28,
            ParamId::Eg5Attack => 29,
            ParamId::Eg5Decay => 30,
            ParamId::Eg5Sustain => 31,
            ParamId::Eg5Release => 32,
            ParamId::Lfo1Rate => 33,
            ParamId::Lfo1Amount => 34,
            ParamId::Lfo1Shape => 35,
            ParamId::Lfo1Enabled => 36,
            ParamId::Lfo2Rate => 37,
            ParamId::Lfo2Amount => 38,
            ParamId::Lfo2Shape => 39,
            ParamId::Lfo2Enabled => 40,
            ParamId::ModRoute1Source => 41,
            ParamId::ModRoute1Target => 42,
            ParamId::ModRoute1Depth => 43,
            ParamId::ModRoute2Source => 44,
            ParamId::ModRoute2Target => 45,
            ParamId::ModRoute2Depth => 46,
            ParamId::ModRoute3Source => 47,
            ParamId::ModRoute3Target => 48,
            ParamId::ModRoute3Depth => 49,
            ParamId::ModRoute4Source => 50,
            ParamId::ModRoute4Target => 51,
            ParamId::ModRoute4Depth => 52,
            ParamId::ModRoute5Source => 53,
            ParamId::ModRoute5Target => 54,
            ParamId::ModRoute5Depth => 55,
            ParamId::ModRoute6Source => 56,
            ParamId::ModRoute6Target => 57,
            ParamId::ModRoute6Depth => 58,
        }
    }

    /// The parameter with a raw host id, if the id names one.
    pub fn from_raw(id: u32) -> (r: Option<ParamId>)
        ensures
            r == Self::from_index(id as int),
    {
        match id {
            0 => Some(ParamId::MasterGain),
            1 => Some(ParamId::MasterPan),
            2 => Some(ParamId::AmpAttack),
            3 => Some(ParamId::AmpDecay),
            4 => Some(ParamId::AmpSustain),
            5 => Some(ParamId::AmpRelease),
            6 => Some(ParamId::PitchBendUp),
            7 => Some(ParamId::PitchBendDown),
            8 => Some(ParamId::FilterType),
            9 => Some(ParamId::FilterCutoff),
            10 => Some(ParamId::FilterResonance),
            11 => Some(ParamId::FilterEgAmount),
            12 => Some(ParamId::FilterEnabled),
            13 => Some(ParamId::FilterAttack),
            14 => Some(ParamId::FilterDecay),
            15 => Some(ParamId::FilterSustain),
            16 => Some(ParamId::FilterRelease),
            17 => Some(ParamId::Eg2Attack),
            18 => Some(ParamId::Eg2Decay),
            19 => Some(ParamId::Eg2Sustain),
            20 => Some(ParamId::Eg2Release),
            21 => Some(ParamId::Eg3Attack),
            22 => Some(ParamId::Eg3Decay),
            23 => Some(ParamId::Eg3Sustain),
            24 => Some(ParamId::Eg3Release),
            25 => Some(ParamId::Eg4Attack),
            26 => Some(ParamId::Eg4Decay),
            27 => Some(ParamId::Eg4Sustain),
            28 => Some(ParamId::Eg4Release),
            29 => Some(ParamId::Eg5Attack),
            30 => Some(ParamId::Eg5Decay),
            31 => Some(ParamId::Eg5Sustain),
            32 => Some(ParamId::Eg5Release),
            33 => Some(ParamId::Lfo1Rate),
            34 => Some(ParamId::Lfo1Amount),
            35 => Some(ParamId::Lfo1Shape),
            36 => Some(ParamId::Lfo1Enabled),
            37 => Some(ParamId::Lfo2Rate),
            38 => Some(ParamId::Lfo2Amount),
            39 => Some(ParamId::Lfo2Shape),
            40 => Some(ParamId::Lfo2Enabled),
            41 => Some(ParamId::ModRoute1Source),
            42 => Some(ParamId::ModRoute1Target),
            43 => Some(ParamId::ModRoute1Depth),
            44 => Some(ParamId::ModRoute2Source),
            45 => Some(ParamId::ModRoute2Target),
            46 => Some(ParamId::ModRoute2Depth),
            47 => Some(ParamId::ModRoute3Source),
            48 => Some(ParamId::ModRoute3Target),
            49 => Some(ParamId::ModRoute3Depth),
            50 => Some(ParamId::ModRoute4Source),
            51 => Some(ParamId::ModRoute4Target),
            52 => Some(ParamId::ModRoute4Depth),
            53 => Some(ParamId::ModRoute5Source),
            54 => Some(ParamId::ModRoute5Target),
            55 => Some(ParamId::ModRoute5Depth),
            56 => Some(ParamId::ModRoute6Source),
            57 => Some(ParamId::ModRoute6Target),
            58 => Some(ParamId::ModRoute6Depth),
            _ => None,
        }
    }

    /// Every parameter, in numbering order.
    pub fn all() -> (r: Vec<ParamId>)
        ensures
            r@.len() == PARAM_COUNT,
            forall|i: int| 0 <= i < r@.len() ==> #[trigger] r@[i].index() == i,
    {
        let mut v: Vec<ParamId> = Vec::new();
        let mut i: u32 = 0;
        while i < 59
            invariant
                i <= 59,
                v@.len() == i,
                forall|k: int| 0 <= k < i ==> #[trigger] v@[k].index() == k,
            decreases 59 - i,
        {
            match Self::from_raw(i) {
                Some(p) => {
                    proof {
                        law_param_index_roundtrip_raw(i as int);
                    }
                    v.push(p);
                },
                None => {
                    proof {
                        law_param_index_roundtrip_raw(i as int);
                    }
                },
            }
            i = i + 1;
        }
        v
    }
}

/// Reading back the number of any parameter gives that parameter, and
/// every number is below the parameter count.
pub proof fn law_param_index_roundtrip(p: ParamId)
    ensures
        ParamId::from_index(p.index() as int) == Some(p),
        p.index() < PARAM_COUNT,
{
}

/// A number names a parameter exactly when it is below the parameter count,
/// and that parameter has that number.
pub proof fn law_param_index_roundtrip_raw(id: int)
    ensures
        (ParamId::from_index(id) is Some) <==> 0 <= id < PARAM_COUNT,
        ParamId::from_index(id) is Some ==> ParamId::from_index(id)->Some_0.index() == id,
{
}

} // verus!
