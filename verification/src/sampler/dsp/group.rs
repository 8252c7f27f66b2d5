//! Group activation: trigger kinds, trigger conditions and how they
//! combine, and the keyswitches that switch groups on and off.

use vstd::prelude::*;

verus! {

/// How a group is activated.
#[derive(Debug, Clone, Copy, PartialEq, Eq, Structural, Default)]
pub enum TriggerType {
    /// The group is always active.
    #[default]
    Always,
    /// The group's note switches it on until another latch key is pressed.
    KeyswitchLatch,
    /// The group is active while its note is held.
    KeyswitchMomentary,
    /// The group is active when its macro conditions hold.
    Macro,
    /// The group is active when its MIDI CC conditions hold.
    MidiCc,
}

/// How one trigger condition joins the result of those before it.
#[derive(Debug, Clone, Copy, PartialEq, Eq, Structural, Default)]
pub enum TriggerConjunction {
    #[default]
    And,
    Or,
    AndNot,
    OrNot,
}

/// One trigger condition.
#[derive(Debug, Clone, Copy, PartialEq, Eq, Structural, Default)]
pub struct TriggerCondition {
    /// Note number for keyswitch conditions.
    pub note: u8,
    /// MIDI CC number for CC conditions.
    pub cc: u8,
    /// CC value threshold.
    pub cc_value: u8,
    /// Macro for macro conditions.
    pub macro_id: u8,
}

/// The activation fields of a group.
#[derive(Debug, Clone, Copy, PartialEq, Eq, Structural)]
pub struct GroupTrigger {
    pub trigger_type: TriggerType,
    pub trigger_note: u8,
    pub trigger_active: bool,
}

/// `a` joined with `b`.
pub open spec fn join(c: TriggerConjunction, a: bool, b: bool) -> bool {
    match c {
        TriggerConjunction::And => a && b,
        TriggerConjunction::Or => a || b,
        TriggerConjunction::AndNot => a && !b,
        TriggerConjunction::OrNot => a || !b,
    }
}

/// The four condition results joined left to right by the three
/// conjunctions.
pub open spec fn joined(r: Seq<bool>, c: Seq<TriggerConjunction>) -> bool {
    join(c[2], join(c[1], join(c[0], r[0], r[1]), r[2]), r[3])
}

/// Whether one condition holds for a trigger kind: a macro condition when
/// the macro (of sixteen, by id modulo 16) is above its midpoint, a CC
/// condition when the CC (by number modulo 128) is at least the threshold.
pub open spec fn condition_met(
    kind: TriggerType,
    cond: TriggerCondition,
    macro_high: Seq<bool>,
    cc_values: Seq<u8>,
) -> bool {
    match kind {
        TriggerType::Macro => macro_high[(cond.macro_id % 16) as int],
        TriggerType::MidiCc => cc_values[(cond.cc % 128) as int] >= cond.cc_value,
        _ => false,
    }
}

/// Whether a group is active: always for `Always`; by its switch for the
/// keyswitch kinds; by its joined conditions for the macro and CC kinds.
pub open spec fn group_active(
    t: GroupTrigger,
    conds: Seq<TriggerCondition>,
    conj: Seq<TriggerConjunction>,
    macro_high: Seq<bool>,
    cc_values: Seq<u8>,
) -> bool {
    match t.trigger_type {
        TriggerType::Always => true,
        TriggerType::KeyswitchLatch => t.trigger_active,
        TriggerType::KeyswitchMomentary => t.trigger_active,
        _ => joined(
            Seq::new(4, |i: int| condition_met(t.trigger_type, conds[i], macro_high, cc_values)),
            conj,
        ),
    }
}

fn join_exec(c: TriggerConjunction, a: bool, b: bool) -> (r: bool)
    ensures
        r == join(c, a, b),
{
    match c {
        TriggerConjunction::And => a && b,
        TriggerConjunction::Or => a || b,
        TriggerConjunction::AndNot => a && !b,
        TriggerConjunction::OrNot => a || !b,
    }
}

/// Evaluates the four trigger conditions of a macro or CC group and joins
/// them.
pub fn evaluate_conditions(
    kind: TriggerType,
    conds: &[TriggerCondition; 4],
    conj: &[TriggerConjunction; 3],
    macro_high: &[bool; 16],
    cc_values: &[u8; 128],
) -> (r: bool)
    ensures
        r == joined(
            Seq::new(4, |i: int| condition_met(kind, conds@[i], macro_high@, cc_values@)),
            conj@,
        ),
{
    let mut results = [false; 4];
    let mut i: usize = 0;
    while i < 4
        invariant
            i <= 4,
            forall|k: int| 0 <= k < i ==> results@[k] == condition_met(kind, conds@[k], macro_high@, cc_values@),
        decreases 4 - i,
    {
        let cond = conds[i];
        let met = match kind {
            TriggerType::Macro => macro_high[(cond.macro_id % 16) as usize],
            TriggerType::MidiCc => cc_values[(cond.cc % 128) as usize] >= cond.cc_value,
            _ => false,
        };
        results[i] = met;
        i = i + 1;
    }
    let mut active = results[0];
    let mut j: usize = 0;
    while j < 3
        invariant
            j <= 3,
            forall|k: int| 0 <= k < 4 ==> results@[k] == condition_met(kind, conds@[k], macro_high@, cc_values@),
            active == (if j == 0 {
                results@[0]
            } else if j == 1 {
                join(conj@[0], results@[0], results@[1])
            } else if j == 2 {
                join(conj@[1], join(conj@[0], results@[0], results@[1]), results@[2])
            } else {
                join(conj@[2], join(conj@[1], join(conj@[0], results@[0], results@[1]), results@[2]), results@[3])
            }),
        decreases 3 - j,
    {
        active = join_exec(conj[j], active, results[j + 1]);
        j = j + 1;
    }
    let ghost rs = Seq::new(4, |i: int| condition_met(kind, conds@[i], macro_high@, cc_values@));
    assert(rs[0] == results@[0] && rs[1] == results@[1] && rs[2] == results@[2] && rs[3] == results@[3]);
    active
}

/// Whether a group plays now; `macro_high` tells which of the part's
/// sixteen macros are above their midpoint.
pub fn group_is_active(
    trigger: &GroupTrigger,
    conds: &[TriggerCondition; 4],
    conj: &[TriggerConjunction; 3],
    macro_high: &[bool; 16],
    cc_values: &[u8; 128],
) -> (r: bool)
    ensures
        r == group_active(*trigger, conds@, conj@, macro_high@, cc_values@),
{
    match trigger.trigger_type {
        TriggerType::Always => true,
        TriggerType::KeyswitchLatch | TriggerType::KeyswitchMomentary => trigger.trigger_active,
        TriggerType::Macro | TriggerType::MidiCc => evaluate_conditions(
            trigger.trigger_type,
            conds,
            conj,
            macro_high,
            cc_values,
        ),
    }
}

// ---------------------------------------------------------------------------
// Finding the zone for a note
// ---------------------------------------------------------------------------

/// The key and velocity ranges of a zone.
#[derive(Debug, Clone, Copy, PartialEq, Eq, Structural)]
pub struct ZoneRange {
    pub key_low: u8,
    pub key_high: u8,
    pub vel_low: u8,
    pub vel_high: u8,
}

/// Whether a zone plays a note at a velocity.
pub open spec fn range_contains(z: ZoneRange, note: u8, velocity: u8) -> bool {
    z.key_low <= note <= z.key_high && z.vel_low <= velocity <= z.vel_high
}

/// Whether a zone plays a note at a velocity.
pub fn zone_contains(z: &ZoneRange, note: u8, velocity: u8) -> (r: bool)
    ensures
        r == range_contains(*z, note, velocity),
{
    note >= z.key_low && note <= z.key_high && velocity >= z.vel_low && velocity <= z.vel_high
}

/// The position of the first zone that plays a note at a velocity.
pub open spec fn first_zone(zones: Seq<ZoneRange>, note: u8, velocity: u8) -> Option<int>
    decreases zones.len(),
{
    if zones.len() == 0 {
        None
    } else if range_contains(zones[0], note, velocity) {
        Some(0)
    } else {
        match first_zone(zones.drop_first(), note, velocity) {
            Some(i) => Some(i + 1),
            None => None,
        }
    }
}

/// The first zone of a group that plays a note at a velocity.
pub fn find_zone(zones: &[ZoneRange], note: u8, velocity: u8) -> (r: Option<usize>)
    ensures
        match first_zone(zones@, note, velocity) {
            Some(i) => r == Some(i as usize),
            None => r is None,
        },
{
    let mut i: usize = 0;
    assert(zones@.skip(0) =~= zones@);
    while i < zones.len()
        invariant
            i <= zones@.len(),
            first_zone(zones@, note, velocity) == (match first_zone(zones@.skip(i as int), note, velocity) {
                Some(k) => Some(k + i),
                None => None,
            }),
        decreases zones@.len() - i,
    {
        assert(zones@.skip(i as int).drop_first() =~= zones@.skip(i + 1));
        if zone_contains(&zones[i], note, velocity) {
            return Some(i);
        }
        i = i + 1;
    }
    None
}

/// The zone found for a note plays that note, and every zone before it
/// does not.
pub proof fn law_found_zone_plays_note(zones: Seq<ZoneRange>, note: u8, velocity: u8)
    ensures
        first_zone(zones, note, velocity) matches Some(i) ==> 0 <= i < zones.len() && range_contains(
            zones[i],
            note,
            velocity,
        ) && forall|k: int| 0 <= k < i ==> !range_contains(#[trigger] zones[k], note, velocity),
        first_zone(zones, note, velocity) is None ==> forall|k: int|
            0 <= k < zones.len() ==> !range_contains(#[trigger] zones[k], note, velocity),
    decreases zones.len(),
{
    if zones.len() > 0 && !range_contains(zones[0], note, velocity) {
        let d = zones.drop_first();
        law_found_zone_plays_note(d, note, velocity);
        assert forall|k: int| 1 <= k < zones.len() implies zones[k] == #[trigger] d[k - 1] by {}
        match first_zone(d, note, velocity) {
            Some(j) => {
                assert forall|k: int| 0 <= k < j + 1 implies !range_contains(#[trigger] zones[k], note, velocity) by {
                    if k > 0 {
                        assert(zones[k] == d[k - 1]);
                    }
                }
            },
            None => {
                assert forall|k: int| 0 <= k < zones.len() implies !range_contains(#[trigger] zones[k], note, velocity) by {
                    if k > 0 {
                        assert(zones[k] == d[k - 1]);
                    }
                }
            },
        }
    }
}

/// What finding a zone reads of one group of a part: its activation and
/// the ranges of its zones.
pub struct PartGroup {
    pub trigger: GroupTrigger,
    pub conditions: [TriggerCondition; 4],
    pub conjunctions: [TriggerConjunction; 3],
    pub zones: Vec<ZoneRange>,
}

/// The group and zone of a part that play a note: the first active group,
/// in order, with a zone for it, and that zone.
pub open spec fn part_zone_from(
    groups: Seq<PartGroup>,
    macro_high: Seq<bool>,
    cc_values: Seq<u8>,
    note: u8,
    velocity: u8,
    i: int,
) -> Option<(int, int)>
    decreases groups.len() - i,
{
    if i < 0 || i >= groups.len() {
        None
    } else {
        let g = groups[i];
        if group_active(g.trigger, g.conditions@, g.conjunctions@, macro_high, cc_values) && first_zone(
            g.zones@,
            note,
            velocity,
        ) is Some {
            Some((i, first_zone(g.zones@, note, velocity)->Some_0))
        } else {
            part_zone_from(groups, macro_high, cc_values, note, velocity, i + 1)
        }
    }
}

/// Finds the group and zone of a part that play a note at a velocity, given
/// which of the part's macros are above their midpoint and the CC values.
pub fn find_part_zone(
    groups: &[PartGroup],
    macro_high: &[bool; 16],
    cc_values: &[u8; 128],
    note: u8,
    velocity: u8,
) -> (r: Option<(usize, usize)>)
    ensures
        match part_zone_from(groups@, macro_high@, cc_values@, note, velocity, 0) {
            Some((g, z)) => r == Some((g as usize, z as usize)),
            None => r is None,
        },
{
    let mut i: usize = 0;
    while i < groups.len()
        invariant
            i <= groups@.len(),
            part_zone_from(groups@, macro_high@, cc_values@, note, velocity, 0) == part_zone_from(
                groups@,
                macro_high@,
                cc_values@,
                note,
                velocity,
                i as int,
            ),
        decreases groups@.len() - i,
    {
        let g = &groups[i];
        if group_is_active(&g.trigger, &g.conditions, &g.conjunctions, macro_high, cc_values) {
            match find_zone(g.zones.as_slice(), note, velocity) {
                Some(z) => return Some((i, z)),
                None => {},
            }
        }
        i = i + 1;
    }
    None
}

// ---------------------------------------------------------------------------
// Keyswitches
// ---------------------------------------------------------------------------

/// Whether some latch group has `note` as its key.
pub open spec fn latches_on(groups: Seq<GroupTrigger>, note: u8) -> bool {
    exists|i: int| 0 <= i < groups.len() && #[trigger] groups[i].trigger_type == TriggerType::KeyswitchLatch
        && groups[i].trigger_note == note
}

/// A group's switch after key `note` goes down: latch groups on that key
/// switch on and, when one did, the other latch groups switch off;
/// momentary groups on that key switch on.
pub open spec fn after_key_on(g: GroupTrigger, note: u8, latched: bool) -> bool {
    if g.trigger_type == TriggerType::KeyswitchLatch {
        if g.trigger_note == note {
            true
        } else if latched {
            false
        } else {
            g.trigger_active
        }
    } else if g.trigger_type == TriggerType::KeyswitchMomentary && g.trigger_note == note {
        true
    } else {
        g.trigger_active
    }
}

/// A group's switch after key `note` comes up: momentary groups on that
/// key switch off.
pub open spec fn after_key_off(g: GroupTrigger, note: u8) -> bool {
    if g.trigger_type == TriggerType::KeyswitchMomentary && g.trigger_note == note {
        false
    } else {
        g.trigger_active
    }
}

/// Applies a key press to the groups' keyswitches.
pub fn handle_keyswitch_on(groups: &mut Vec<GroupTrigger>, note: u8)
    ensures
        final(groups)@.len() == old(groups)@.len(),
        forall|i: int| 0 <= i < old(groups)@.len() ==> (#[trigger] final(groups)@[i]) == (GroupTrigger {
            trigger_active: after_key_on(old(groups)@[i], note, latches_on(old(groups)@, note)),
            ..old(groups)@[i]
        }),
{
    let ghost start = groups@;
    let mut activated = false;
    let mut i: usize = 0;
    while i < groups.len()
        invariant
            groups@.len() == start.len(),
            i <= start.len(),
            activated == exists|k: int| 0 <= k < i && #[trigger] start[k].trigger_type == TriggerType::KeyswitchLatch
                && start[k].trigger_note == note,
            forall|k: int| 0 <= k < start.len() ==> (#[trigger] groups@[k]).trigger_type == start[k].trigger_type
                && groups@[k].trigger_note == start[k].trigger_note,
            forall|k: int| 0 <= k < i ==> (#[trigger] groups@[k]).trigger_active == (if start[k].trigger_type
                == TriggerType::KeyswitchLatch && start[k].trigger_note == note {
                true
            } else {
                start[k].trigger_active
            }),
            forall|k: int| i <= k < start.len() ==> #[trigger] groups@[k] == start[k],
        decreases start.len() - i,
    {
        let g = groups[i];
        if g.trigger_type == TriggerType::KeyswitchLatch && g.trigger_note == note {
            groups.set(i, GroupTrigger { trigger_active: true, ..g });
            activated = true;
        }
        i = i + 1;
    }
    let ghost latched = latches_on(start, note);
    assert(activated == latched);
    let mut j: usize = 0;
    while j < groups.len()
        invariant
            groups@.len() == start.len(),
            j <= start.len(),
            activated == latched,
            latched == latches_on(start, note),
            forall|k: int| 0 <= k < start.len() ==> (#[trigger] groups@[k]).trigger_type == start[k].trigger_type
                && groups@[k].trigger_note == start[k].trigger_note,
            forall|k: int| 0 <= k < j ==> (#[trigger] groups@[k]).trigger_active == (if start[k].trigger_type
                == TriggerType::KeyswitchLatch {
                if start[k].trigger_note == note {
                    true
                } else if latched {
                    false
                } else {
                    start[k].trigger_active
                }
            } else {
                start[k].trigger_active
            }),
            forall|k: int| j <= k < start.len() ==> (#[trigger] groups@[k]).trigger_active == (if start[k].trigger_type
                == TriggerType::KeyswitchLatch && start[k].trigger_note == note {
                true
            } else {
                start[k].trigger_active
            }),
        decreases start.len() - j,
    {
        let g = groups[j];
        if activated && g.trigger_type == TriggerType::KeyswitchLatch && g.trigger_note != note {
            groups.set(j, GroupTrigger { trigger_active: false, ..g });
        }
        j = j + 1;
    }
    let mut m: usize = 0;
    while m < groups.len()
        invariant
            groups@.len() == start.len(),
            m <= start.len(),
            latched == latches_on(start, note),
            forall|k: int| 0 <= k < start.len() ==> (#[trigger] groups@[k]).trigger_type == start[k].trigger_type
                && groups@[k].trigger_note == start[k].trigger_note,
            forall|k: int| 0 <= k < m ==> (#[trigger] groups@[k]).trigger_active == after_key_on(start[k], note, latched),
            forall|k: int| m <= k < start.len() ==> (#[trigger] groups@[k]).trigger_active == (if start[k].trigger_type
                == TriggerType::KeyswitchLatch {
                if start[k].trigger_note == note {
                    true
                } else if latched {
                    false
                } else {
                    start[k].trigger_active
                }
            } else {
                start[k].trigger_active
            }),
        decreases start.len() - m,
    {
        let g = groups[m];
        if g.trigger_type == TriggerType::KeyswitchMomentary && g.trigger_note == note {
            groups.set(m, GroupTrigger { trigger_active: true, ..g });
        }
        m = m + 1;
    }
    assert forall|i: int| 0 <= i < start.len() implies (#[trigger] groups@[i]) == (GroupTrigger {
        trigger_active: after_key_on(start[i], note, latches_on(start, note)),
        ..start[i]
    }) by {
        assert(groups@[i].trigger_active == after_key_on(start[i], note, latched));
    }
}

/// Applies a key release to the groups' keyswitches.
pub fn handle_keyswitch_off(groups: &mut Vec<GroupTrigger>, note: u8)
    ensures
        final(groups)@.len() == old(groups)@.len(),
        forall|i: int| 0 <= i < old(groups)@.len() ==> (#[trigger] final(groups)@[i]) == (GroupTrigger {
            trigger_active: after_key_off(old(groups)@[i], note),
            ..old(groups)@[i]
        }),
{
    let ghost start = groups@;
    let mut i: usize = 0;
    while i < groups.len()
        invariant
            groups@.len() == start.len(),
            i <= start.len(),
            forall|k: int| 0 <= k < i ==> (#[trigger] groups@[k]) == (GroupTrigger {
                trigger_active: after_key_off(start[k], note),
                ..start[k]
            }),
            forall|k: int| i <= k < start.len() ==> #[trigger] groups@[k] == start[k],
        decreases start.len() - i,
    {
        let g = groups[i];
        if g.trigger_type == TriggerType::KeyswitchMomentary && g.trigger_note == note {
            groups.set(i, GroupTrigger { trigger_active: false, ..g });
        }
        i = i + 1;
    }
}

/// After a key press that some latch group answers, exactly the latch
/// groups on that key are switched on.
pub proof fn law_latch_keyswitch_is_exclusive(groups: Seq<GroupTrigger>, note: u8, i: int)
    requires
        latches_on(groups, note),
        0 <= i < groups.len(),
        groups[i].trigger_type == TriggerType::KeyswitchLatch,
    ensures
        after_key_on(groups[i], note, latches_on(groups, note)) == (groups[i].trigger_note == note),
{
}

/// Releasing the key of a momentary group switches it off, whatever the
/// press before it did.
pub proof fn law_momentary_key_release(g: GroupTrigger, note: u8, latched: bool)
    requires
        g.trigger_type == TriggerType::KeyswitchMomentary,
        g.trigger_note == note,
    ensures
        after_key_on(g, note, latched),
        !after_key_off(GroupTrigger { trigger_active: after_key_on(g, note, latched), ..g }, note),
{
}

/// A keyswitch group (latch or momentary) plays exactly while its switch is
/// on, whatever the macros and controllers say; an `Always` group always
/// plays. So a momentary group plays while its key is held and stops when
/// the key comes up, and a latch group plays once its key is pressed.
pub proof fn law_keyswitch_group_follows_its_switch(
    t: GroupTrigger,
    conds: Seq<TriggerCondition>,
    conj: Seq<TriggerConjunction>,
    macro_high: Seq<bool>,
    cc_values: Seq<u8>,
    latched: bool,
)
    ensures
        t.trigger_type == TriggerType::KeyswitchLatch || t.trigger_type == TriggerType::KeyswitchMomentary
            ==> group_active(t, conds, conj, macro_high, cc_values) == t.trigger_active,
        t.trigger_type == TriggerType::Always ==> group_active(t, conds, conj, macro_high, cc_values),
        t.trigger_type == TriggerType::KeyswitchMomentary ==> ({
            let down = GroupTrigger { trigger_active: after_key_on(t, t.trigger_note, latched), ..t };
            let up = GroupTrigger { trigger_active: after_key_off(down, t.trigger_note), ..t };
            &&& group_active(down, conds, conj, macro_high, cc_values)
            &&& !group_active(up, conds, conj, macro_high, cc_values)
        }),
        t.trigger_type == TriggerType::KeyswitchLatch ==> group_active(
            GroupTrigger { trigger_active: after_key_on(t, t.trigger_note, latched), ..t },
            conds,
            conj,
            macro_high,
            cc_values,
        ),
{
}

/// A controller group whose conditions are all joined by "and" plays
/// exactly when each of its four controllers (by number modulo 128) is at
/// least its threshold; a macro group joined the same way plays exactly
/// when each of its four macros (by id modulo 16) is above its midpoint.
pub proof fn law_all_and_conditions(
    t: GroupTrigger,
    conds: Seq<TriggerCondition>,
    conj: Seq<TriggerConjunction>,
    macro_high: Seq<bool>,
    cc_values: Seq<u8>,
)
    requires
        conds.len() == 4,
        conj.len() == 3,
        forall|i: int| 0 <= i < 3 ==> conj[i] == TriggerConjunction::And,
    ensures
        t.trigger_type == TriggerType::MidiCc ==> (group_active(t, conds, conj, macro_high, cc_values) <==> forall|
            i: int,
        | 0 <= i < 4 ==> cc_values[((#[trigger] conds[i]).cc % 128) as int] >= conds[i].cc_value),
        t.trigger_type == TriggerType::Macro ==> (group_active(t, conds, conj, macro_high, cc_values) <==> forall|
            i: int,
        | 0 <= i < 4 ==> macro_high[((#[trigger] conds[i]).macro_id % 16) as int]),
{
    assert(conj[0] == TriggerConjunction::And && conj[1] == TriggerConjunction::And && conj[2]
        == TriggerConjunction::And);
    let rs = Seq::new(4, |i: int| condition_met(t.trigger_type, conds[i], macro_high, cc_values));
    assert(rs[0] == condition_met(t.trigger_type, conds[0], macro_high, cc_values));
    assert(rs[1] == condition_met(t.trigger_type, conds[1], macro_high, cc_values));
    assert(rs[2] == condition_met(t.trigger_type, conds[2], macro_high, cc_values));
    assert(rs[3] == condition_met(t.trigger_type, conds[3], macro_high, cc_values));
}

} // verus!
