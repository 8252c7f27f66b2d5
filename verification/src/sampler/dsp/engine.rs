//! Note handling decisions of the sampler engine: which part answers a MIDI
//! channel, which notes are keyswitches, and which held note a monophonic
//! part plays.

use vstd::prelude::*;
use crate::sampler::dsp::group::{GroupTrigger, TriggerType};

verus! {

/// Which held note a monophonic part plays.
#[derive(Debug, Clone, Copy, PartialEq, Eq, Structural)]
pub enum VoicePriority {
    Last,
    AlwaysLatest,
    High,
    AlwaysHighest,
    Low,
    AlwaysLowest,
}

/// The largest note held, if any.
pub open spec fn max_note(held: Seq<(u8, u8)>) -> Option<u8>
    decreases held.len(),
{
    if held.len() == 0 {
        None
    } else {
        match max_note(held.drop_last()) {
            Some(m) => Some(if held.last().0 > m { held.last().0 } else { m }),
            None => Some(held.last().0),
        }
    }
}

/// The smallest note held, if any.
pub open spec fn min_note(held: Seq<(u8, u8)>) -> Option<u8>
    decreases held.len(),
{
    if held.len() == 0 {
        None
    } else {
        match min_note(held.drop_last()) {
            Some(m) => Some(if held.last().0 < m { held.last().0 } else { m }),
            None => Some(held.last().0),
        }
    }
}

/// The note to play among the held `(note, channel)` pairs: the latest,
/// highest or lowest by priority; the last note played when none is held.
pub open spec fn priority_note(p: VoicePriority, held: Seq<(u8, u8)>, last_note: u8) -> u8 {
    match p {
        VoicePriority::High | VoicePriority::AlwaysHighest => match max_note(held) {
            Some(n) => n,
            None => last_note,
        },
        VoicePriority::Low | VoicePriority::AlwaysLowest => match min_note(held) {
            Some(n) => n,
            None => last_note,
        },
        _ => if held.len() > 0 {
            held.last().0
        } else {
            last_note
        },
    }
}

pub fn select_note_priority(p: VoicePriority, held: &[(u8, u8)], last_note: u8) -> (r: u8)
    ensures
        r == priority_note(p, held@, last_note),
{
    match p {
        VoicePriority::High | VoicePriority::AlwaysHighest | VoicePriority::Low | VoicePriority::AlwaysLowest => {
            let high = match p {
                VoicePriority::High | VoicePriority::AlwaysHighest => true,
                _ => false,
            };
            let mut best: Option<u8> = None;
            let mut i: usize = 0;
            while i < held.len()
                invariant
                    i <= held@.len(),
                    best == (if high { max_note(held@.take(i as int)) } else { min_note(held@.take(i as int)) }),
                decreases held@.len() - i,
            {
                assert(held@.take(i + 1).drop_last() =~= held@.take(i as int));
                let n = held[i].0;
                best = match best {
                    Some(m) => Some(if high { if n > m { n } else { m } } else { if n < m { n } else { m } }),
                    None => Some(n),
                };
                i = i + 1;
            }
            assert(held@.take(held@.len() as int) =~= held@);
            match best {
                Some(n) => n,
                None => last_note,
            }
        },
        _ => {
            if held.len() > 0 {
                held[held.len() - 1].0
            } else {
                last_note
            }
        },
    }
}

/// Whether some keyswitch group of a part switches on `note`.
pub open spec fn is_keyswitch(groups: Seq<GroupTrigger>, note: u8) -> bool {
    exists|i: int| 0 <= i < groups.len() && (#[trigger] groups[i].trigger_type == TriggerType::KeyswitchLatch
        || groups[i].trigger_type == TriggerType::KeyswitchMomentary) && groups[i].trigger_note == note
}

pub fn is_keyswitch_note(groups: &[GroupTrigger], note: u8) -> (r: bool)
    ensures
        r == is_keyswitch(groups@, note),
{
    let mut i: usize = 0;
    while i < groups.len()
        invariant
            i <= groups@.len(),
            forall|k: int| 0 <= k < i ==> !((#[trigger] groups@[k].trigger_type == TriggerType::KeyswitchLatch
                || groups@[k].trigger_type == TriggerType::KeyswitchMomentary) && groups@[k].trigger_note == note),
        decreases groups@.len() - i,
    {
        let g = groups[i];
        if (g.trigger_type == TriggerType::KeyswitchLatch || g.trigger_type == TriggerType::KeyswitchMomentary)
            && g.trigger_note == note {
            assert(groups@[i as int] == g);
            return true;
        }
        i = i + 1;
    }
    false
}

/// The first part, by position, whose MIDI channel is `channel` or that
/// listens on every channel (255).
pub open spec fn part_for_channel(channels: Seq<u8>, channel: u8) -> Option<int>
    decreases channels.len(),
{
    if channels.len() == 0 {
        None
    } else if channels[0] == 255 || channels[0] == channel {
        Some(0)
    } else {
        match part_for_channel(channels.drop_first(), channel) {
            Some(i) => Some(i + 1),
            None => None,
        }
    }
}

/// The position of the part that answers `channel`, given each part's
/// MIDI channel.
pub fn find_part(channels: &[u8], channel: u8) -> (r: Option<usize>)
    ensures
        match part_for_channel(channels@, channel) {
            Some(i) => r == Some(i as usize),
            None => r is None,
        },
{
    let mut i: usize = 0;
    assert(channels@.skip(0) =~= channels@);
    while i < channels.len()
        invariant
            i <= channels@.len(),
            part_for_channel(channels@, channel) == (match part_for_channel(channels@.skip(i as int), channel) {
                Some(k) => Some(k + i),
                None => None,
            }),
        decreases channels@.len() - i,
    {
        let ghost rest = channels@.skip(i as int);
        assert(rest.drop_first() =~= channels@.skip(i + 1));
        if channels[i] == 255 || channels[i] == channel {
            return Some(i);
        }
        i = i + 1;
    }
    None
}

/// The note a monophonic part plays is one of the held notes when any is
/// held, and otherwise the last note played.
pub proof fn law_priority_note_is_held(p: VoicePriority, held: Seq<(u8, u8)>, last_note: u8)
    ensures
        held.len() == 0 ==> priority_note(p, held, last_note) == last_note,
        held.len() > 0 ==> exists|i: int| 0 <= i < held.len() && #[trigger] held[i].0 == priority_note(p, held, last_note),
{
    lemma_extreme_is_held(held);
    if held.len() > 0 {
        assert(held[held.len() - 1].0 == held.last().0);
    }
}

/// A monophonic part that favours high notes plays a held note at least as
/// high as every held note, one that favours low notes a held note at most
/// as low as every held note, and one that favours the latest plays the
/// note held last.
pub proof fn law_priority_note_is_extreme(p: VoicePriority, held: Seq<(u8, u8)>, last_note: u8)
    requires
        held.len() > 0,
    ensures
        exists|i: int| 0 <= i < held.len() && #[trigger] held[i].0 == priority_note(p, held, last_note),
        (p == VoicePriority::High || p == VoicePriority::AlwaysHighest) ==> forall|i: int|
            0 <= i < held.len() ==> #[trigger] held[i].0 <= priority_note(p, held, last_note),
        (p == VoicePriority::Low || p == VoicePriority::AlwaysLowest) ==> forall|i: int|
            0 <= i < held.len() ==> #[trigger] held[i].0 >= priority_note(p, held, last_note),
        (p == VoicePriority::Last || p == VoicePriority::AlwaysLatest) ==> priority_note(p, held, last_note)
            == held[held.len() - 1].0,
{
    law_priority_note_is_held(p, held, last_note);
    lemma_extreme_bounds(held);
}

proof fn lemma_extreme_bounds(held: Seq<(u8, u8)>)
    ensures
        max_note(held) matches Some(m) ==> forall|i: int| 0 <= i < held.len() ==> #[trigger] held[i].0 <= m,
        min_note(held) matches Some(m) ==> forall|i: int| 0 <= i < held.len() ==> #[trigger] held[i].0 >= m,
    decreases held.len(),
{
    if held.len() > 0 {
        let d = held.drop_last();
        lemma_extreme_bounds(d);
        assert forall|i: int| 0 <= i < d.len() implies held[i] == d[i] by {}
        assert(held[held.len() - 1] == held.last());
    }
}

proof fn lemma_extreme_is_held(held: Seq<(u8, u8)>)
    ensures
        held.len() == 0 <==> max_note(held) is None,
        held.len() == 0 <==> min_note(held) is None,
        max_note(held) matches Some(m) ==> exists|i: int| 0 <= i < held.len() && #[trigger] held[i].0 == m,
        min_note(held) matches Some(m) ==> exists|i: int| 0 <= i < held.len() && #[trigger] held[i].0 == m,
    decreases held.len(),
{
    if held.len() > 0 {
        let d = held.drop_last();
        lemma_extreme_is_held(d);
        assert(held[held.len() - 1] == held.last());
        if let Some(m) = max_note(d) {
            let i = choose|i: int| 0 <= i < d.len() && #[trigger] d[i].0 == m;
            assert(held[i] == d[i]);
        }
        if let Some(m) = min_note(d) {
            let i = choose|i: int| 0 <= i < d.len() && #[trigger] d[i].0 == m;
            assert(held[i] == d[i]);
        }
    }
}

// ---------------------------------------------------------------------------
// Voices
// ---------------------------------------------------------------------------

/// How a part voices a new note.
#[derive(Debug, Clone, Copy, PartialEq, Eq, Structural)]
pub enum PlayMode {
    Poly,
    Mono,
    MonoLatch,
    MonoST,
    MonoLegato,
    MonoFP,
    PolyReuseSingle,
    PolyStackMultiple,
}

/// Which sounding voice gives way when every voice is busy.
#[derive(Debug, Clone, Copy, PartialEq, Eq, Structural)]
pub enum StealMode {
    Oldest,
    ReleasedFirst,
}

/// What the engine's voice decisions read of one voice: whether it sounds,
/// its note, its exclusive (choke) group, and the group and part that
/// started it.
#[derive(Debug, Clone, Copy, PartialEq, Eq, Structural)]
pub struct VoiceSlot {
    pub active: bool,
    pub note: u8,
    pub exclusive_group: u8,
    pub group_index: usize,
    pub part_index: usize,
}

/// A set of sounding voices counted together.
#[derive(Debug, Clone, Copy, PartialEq, Eq, Structural)]
pub enum VoiceScope {
    /// The voices of one exclusive group.
    Exclusive(u8),
    /// The voices playing one note.
    Note(u8),
    /// The voices of one group of one part.
    Group(usize, usize),
    /// The voices of one part.
    Part(usize),
    /// Every sounding voice.
    All,
}

/// Whether a voice sounds and belongs to a scope.
pub open spec fn in_scope(v: VoiceSlot, scope: VoiceScope) -> bool {
    v.active && match scope {
        VoiceScope::Exclusive(g) => v.exclusive_group == g,
        VoiceScope::Note(n) => v.note == n,
        VoiceScope::Group(g, p) => v.group_index == g && v.part_index == p,
        VoiceScope::Part(p) => v.part_index == p,
        VoiceScope::All => true,
    }
}

/// The positions, in order, of the voices in a scope.
pub open spec fn scope_indices(slots: Seq<VoiceSlot>, scope: VoiceScope) -> Seq<int>
    decreases slots.len(),
{
    if slots.len() == 0 {
        Seq::empty()
    } else {
        let rest = scope_indices(slots.drop_last(), scope);
        if in_scope(slots.last(), scope) {
            rest.push(slots.len() - 1)
        } else {
            rest
        }
    }
}

pub open spec fn as_ints(v: Seq<usize>) -> Seq<int> {
    v.map_values(|i: usize| i as int)
}

/// The positions of the voices in a scope, in order.
pub fn voices_in_scope(slots: &[VoiceSlot], scope: VoiceScope) -> (r: Vec<usize>)
    ensures
        as_ints(r@) == scope_indices(slots@, scope),
{
    let mut r: Vec<usize> = Vec::new();
    let mut i: usize = 0;
    while i < slots.len()
        invariant
            i <= slots@.len(),
            as_ints(r@) == scope_indices(slots@.take(i as int), scope),
        decreases slots@.len() - i,
    {
        assert(slots@.take(i + 1).drop_last() =~= slots@.take(i as int));
        let v = slots[i];
        let inside = v.active && match scope {
            VoiceScope::Exclusive(g) => v.exclusive_group == g,
            VoiceScope::Note(n) => v.note == n,
            VoiceScope::Group(g, p) => v.group_index == g && v.part_index == p,
            VoiceScope::Part(p) => v.part_index == p,
            VoiceScope::All => true,
        };
        if inside {
            let ghost before = r@;
            r.push(i);
            assert(as_ints(r@) =~= as_ints(before).push(i as int));
        }
        i = i + 1;
    }
    assert(slots@.take(slots@.len() as int) =~= slots@);
    r
}

proof fn lemma_scope_indices(slots: Seq<VoiceSlot>, scope: VoiceScope)
    ensures
        forall|k: int| 0 <= k < scope_indices(slots, scope).len() ==> 0 <= #[trigger] scope_indices(slots, scope)[k]
            < slots.len() && in_scope(slots[scope_indices(slots, scope)[k]], scope),
        scope_indices(slots, scope).len() <= slots.len(),
    decreases slots.len(),
{
    if slots.len() > 0 {
        lemma_scope_indices(slots.drop_last(), scope);
        let rest = scope_indices(slots.drop_last(), scope);
        assert forall|k: int| 0 <= k < rest.len() implies slots[rest[k]] == slots.drop_last()[rest[k]] by {}
    }
}

/// The position of the first voice that is (or is not) sounding.
pub open spec fn first_with(slots: Seq<VoiceSlot>, active: bool) -> Option<int>
    decreases slots.len(),
{
    if slots.len() == 0 {
        None
    } else if slots[0].active == active {
        Some(0)
    } else {
        match first_with(slots.drop_first(), active) {
            Some(i) => Some(i + 1),
            None => None,
        }
    }
}

proof fn lemma_first_with(slots: Seq<VoiceSlot>, active: bool)
    ensures
        first_with(slots, active) matches Some(i) ==> 0 <= i < slots.len() && slots[i].active == active
            && forall|k: int| 0 <= k < i ==> #[trigger] slots[k].active != active,
        first_with(slots, active) is None ==> forall|k: int| 0 <= k < slots.len() ==> #[trigger] slots[k].active != active,
    decreases slots.len(),
{
    if slots.len() > 0 && slots[0].active != active {
        let d = slots.drop_first();
        lemma_first_with(d, active);
        match first_with(d, active) {
            Some(j) => {
                assert(slots[j + 1] == d[j]);
                assert forall|k: int| 0 <= k < j + 1 implies #[trigger] slots[k].active != active by {
                    if k > 0 {
                        assert(slots[k] == d[k - 1]);
                    }
                }
            },
            None => {
                assert forall|k: int| 0 <= k < slots.len() implies #[trigger] slots[k].active != active by {
                    if k > 0 {
                        assert(slots[k] == d[k - 1]);
                    }
                }
            },
        }
    }
}

fn first_voice_with(slots: &[VoiceSlot], active: bool) -> (r: Option<usize>)
    ensures
        match first_with(slots@, active) {
            Some(i) => r == Some(i as usize),
            None => r is None,
        },
{
    let mut i: usize = 0;
    assert(slots@.skip(0) =~= slots@);
    while i < slots.len()
        invariant
            i <= slots@.len(),
            first_with(slots@, active) == (match first_with(slots@.skip(i as int), active) {
                Some(k) => Some(k + i),
                None => None,
            }),
        decreases slots@.len() - i,
    {
        assert(slots@.skip(i as int).drop_first() =~= slots@.skip(i + 1));
        if slots[i].active == active {
            return Some(i);
        }
        i = i + 1;
    }
    None
}

/// The first silent voice, if any.
pub fn find_free_voice(slots: &[VoiceSlot]) -> (r: Option<usize>)
    ensures
        match first_with(slots@, false) {
            Some(i) => r == Some(i as usize),
            None => r is None,
        },
{
    first_voice_with(slots, false)
}

/// The voice taken when every voice is busy: the first sounding voice, the
/// one started longest ago, whichever mode is set.
pub fn find_voice_to_steal(slots: &[VoiceSlot], mode: StealMode) -> (r: Option<usize>)
    ensures
        match first_with(slots@, true) {
            Some(i) => r == Some(i as usize),
            None => r is None,
        },
{
    match mode {
        StealMode::Oldest => first_voice_with(slots, true),
        StealMode::ReleasedFirst => first_voice_with(slots, true),
    }
}

/// The voice a polyphony limit gives up: the first voice of the scope, when
/// the limit is set and the scope already holds that many voices.
pub open spec fn limit_steal(slots: Seq<VoiceSlot>, scope: VoiceScope, limit: usize) -> Option<int> {
    let idx = scope_indices(slots, scope);
    if limit > 0 && idx.len() >= limit {
        Some(idx[0])
    } else {
        None
    }
}

/// The voice a new note takes: one given up by the group's, then the part's,
/// then the engine's polyphony limit; else the first silent voice; else the
/// first sounding one.
pub open spec fn voice_choice(
    slots: Seq<VoiceSlot>,
    group_index: usize,
    part_index: usize,
    group_poly: usize,
    part_poly: usize,
    global_poly: usize,
) -> Option<int> {
    match limit_steal(slots, VoiceScope::Group(group_index, part_index), group_poly) {
        Some(i) => Some(i),
        None => match limit_steal(slots, VoiceScope::Part(part_index), part_poly) {
            Some(i) => Some(i),
            None => match limit_steal(slots, VoiceScope::All, global_poly) {
                Some(i) => Some(i),
                None => match first_with(slots, false) {
                    Some(i) => Some(i),
                    None => first_with(slots, true),
                },
            },
        },
    }
}

/// The voices a new voice of an exclusive group silences: the sounding
/// voices of that group; none for group 0.
pub open spec fn choked(slots: Seq<VoiceSlot>, exclusive_group: u8) -> Seq<int> {
    if exclusive_group == 0 {
        Seq::empty()
    } else {
        scope_indices(slots, VoiceScope::Exclusive(exclusive_group))
    }
}

/// Where a new voice goes: the voices it chokes, and the voice it takes.
pub struct VoicePlan {
    pub choke: Vec<usize>,
    pub voice: Option<usize>,
}

fn steal_for_limit(slots: &[VoiceSlot], scope: VoiceScope, limit: usize) -> (r: Option<usize>)
    ensures
        match limit_steal(slots@, scope, limit) {
            Some(i) => r == Some(i as usize),
            None => r is None,
        },
{
    if limit == 0 {
        return None;
    }
    let idx = voices_in_scope(slots, scope);
    proof {
        lemma_scope_indices(slots@, scope);
    }
    if idx.len() >= limit {
        assert(as_ints(idx@)[0] == idx@[0] as int);
        Some(idx[0])
    } else {
        None
    }
}

/// Plans a new voice of a group and part: which sounding voices its
/// exclusive group chokes, and which voice it takes under the group's, the
/// part's and the engine's polyphony limits (0 for none).
pub fn plan_voice(
    slots: &[VoiceSlot],
    exclusive_group: u8,
    group_index: usize,
    part_index: usize,
    group_poly: usize,
    part_poly: usize,
    global_poly: usize,
    steal: StealMode,
) -> (r: VoicePlan)
    ensures
        as_ints(r.choke@) == choked(slots@, exclusive_group),
        match voice_choice(slots@, group_index, part_index, group_poly, part_poly, global_poly) {
            Some(i) => r.voice == Some(i as usize),
            None => r.voice is None,
        },
{
    let choke = if exclusive_group != 0 {
        voices_in_scope(slots, VoiceScope::Exclusive(exclusive_group))
    } else {
        let v: Vec<usize> = Vec::new();
        assert(as_ints(v@) =~= Seq::<int>::empty());
        v
    };
    let voice = match steal_for_limit(slots, VoiceScope::Group(group_index, part_index), group_poly) {
        Some(i) => Some(i),
        None => match steal_for_limit(slots, VoiceScope::Part(part_index), part_poly) {
            Some(i) => Some(i),
            None => match steal_for_limit(slots, VoiceScope::All, global_poly) {
                Some(i) => Some(i),
                None => match find_free_voice(slots) {
                    Some(i) => Some(i),
                    None => find_voice_to_steal(slots, steal),
                },
            },
        },
    };
    VoicePlan { choke, voice }
}

/// A new note always finds a voice when there is any, and it is one of
/// them; a voice given up to a polyphony limit sounds in that limit's scope.
pub proof fn law_voice_choice_in_range(
    slots: Seq<VoiceSlot>,
    group_index: usize,
    part_index: usize,
    group_poly: usize,
    part_poly: usize,
    global_poly: usize,
)
    ensures
        voice_choice(slots, group_index, part_index, group_poly, part_poly, global_poly) is None <==> slots.len() == 0,
        voice_choice(slots, group_index, part_index, group_poly, part_poly, global_poly) matches Some(i)
            ==> 0 <= i < slots.len(),
        limit_steal(slots, VoiceScope::Group(group_index, part_index), group_poly) matches Some(i)
            ==> in_scope(slots[i], VoiceScope::Group(group_index, part_index)),
        limit_steal(slots, VoiceScope::Part(part_index), part_poly) matches Some(i)
            ==> in_scope(slots[i], VoiceScope::Part(part_index)),
{
    lemma_scope_indices(slots, VoiceScope::Group(group_index, part_index));
    lemma_scope_indices(slots, VoiceScope::Part(part_index));
    lemma_scope_indices(slots, VoiceScope::All);
    lemma_first_with(slots, false);
    lemma_first_with(slots, true);
    if slots.len() > 0 {
        if slots[0].active {
            assert(first_with(slots, true) is Some);
        } else {
            assert(first_with(slots, false) is Some);
        }
    }
}

/// The note a voice plays: the key moved by the part's transpose, kept
/// within 0 to 127.
pub open spec fn transposed(note: u8, transpose: i8) -> u8 {
    let t = note + transpose;
    if t < 0 { 0 } else if t > 127 { 127 } else { t as u8 }
}

pub fn transposed_note(note: u8, transpose: i8) -> (r: u8)
    ensures
        r == transposed(note, transpose),
{
    let t: i16 = note as i16 + transpose as i16;
    if t < 0 {
        0
    } else if t > 127 {
        127
    } else {
        t as u8
    }
}

/// What a note-on does to the voices.
#[derive(Debug, Clone, Copy, PartialEq, Eq)]
pub enum NoteOnAction {
    /// Start a new voice.
    Trigger,
    /// Release every sounding voice, then start a new one.
    ReleaseAllAndTrigger,
    /// Release the given voice, if any, then start a new one.
    ReleaseAndTrigger(Option<usize>),
    /// Move the given sounding voice to the new note instead.
    Retarget(usize),
}

/// What a note-on does in each play mode: polyphonic modes start a voice;
/// mono modes release the others first; legato modes move the first
/// sounding voice to the new note when one sounds; the reusing mode first
/// releases the first voice already on that note.
pub open spec fn note_on_plan(mode: PlayMode, slots: Seq<VoiceSlot>, play_note: u8) -> NoteOnAction {
    match mode {
        PlayMode::Poly | PlayMode::PolyStackMultiple => NoteOnAction::Trigger,
        PlayMode::Mono | PlayMode::MonoLatch => NoteOnAction::ReleaseAllAndTrigger,
        PlayMode::MonoST | PlayMode::MonoLegato | PlayMode::MonoFP => match first_with(slots, true) {
            Some(i) => NoteOnAction::Retarget(i as usize),
            None => NoteOnAction::Trigger,
        },
        PlayMode::PolyReuseSingle => {
            let same = scope_indices(slots, VoiceScope::Note(play_note));
            NoteOnAction::ReleaseAndTrigger(if same.len() > 0 { Some(same[0] as usize) } else { None })
        },
    }
}

/// Decides what a note-on does to the voices in a play mode.
pub fn note_on_action(mode: PlayMode, slots: &[VoiceSlot], play_note: u8) -> (r: NoteOnAction)
    ensures
        r == note_on_plan(mode, slots@, play_note),
{
    match mode {
        PlayMode::Poly | PlayMode::PolyStackMultiple => NoteOnAction::Trigger,
        PlayMode::Mono | PlayMode::MonoLatch => NoteOnAction::ReleaseAllAndTrigger,
        PlayMode::MonoST | PlayMode::MonoLegato | PlayMode::MonoFP => match first_voice_with(slots, true) {
            Some(i) => NoteOnAction::Retarget(i),
            None => NoteOnAction::Trigger,
        },
        PlayMode::PolyReuseSingle => {
            let same = voices_in_scope(slots, VoiceScope::Note(play_note));
            proof {
                lemma_scope_indices(slots@, VoiceScope::Note(play_note));
            }
            if same.len() > 0 {
                assert(as_ints(same@)[0] == same@[0] as int);
                NoteOnAction::ReleaseAndTrigger(Some(same[0]))
            } else {
                NoteOnAction::ReleaseAndTrigger(None)
            }
        },
    }
}

/// The held `(note, channel)` pairs without a released note, on any channel.
pub open spec fn without_note(held: Seq<(u8, u8)>, note: u8) -> Seq<(u8, u8)>
    decreases held.len(),
{
    if held.len() == 0 {
        held
    } else {
        let rest = without_note(held.drop_last(), note);
        if held.last().0 == note {
            rest
        } else {
            rest.push(held.last())
        }
    }
}

/// Forgets a released note among the held notes.
pub fn release_held_note(held: &mut Vec<(u8, u8)>, note: u8)
    ensures
        final(held)@ == without_note(old(held)@, note),
{
    let mut kept: Vec<(u8, u8)> = Vec::new();
    let mut i: usize = 0;
    while i < held.len()
        invariant
            i <= held@.len(),
            held@ == old(held)@,
            kept@ == without_note(held@.take(i as int), note),
        decreases held@.len() - i,
    {
        assert(held@.take(i + 1).drop_last() =~= held@.take(i as int));
        let h = held[i];
        if h.0 != note {
            kept.push(h);
        }
        i = i + 1;
    }
    assert(held@.take(held@.len() as int) =~= held@);
    *held = kept;
}

/// What a note-off does to the voices.
#[derive(Debug, Clone, Copy, PartialEq, Eq)]
pub enum NoteOffAction {
    /// Keep the note sounding until the sustain pedal lifts.
    Sustain,
    /// Release every sounding voice.
    ReleaseAll,
    /// Move the sounding voice to this held note.
    Retarget(u8),
    /// Release the voices playing the released note.
    ReleaseNote,
    /// Leave the voices as they are.
    Nothing,
}

/// What a note-off does, given the notes still held after it: with the
/// pedal down the note is sustained; mono modes release everything once no
/// note is held; legato modes otherwise move to the held note that the
/// priority picks; other modes release the voices on that note.
pub open spec fn note_off_plan(
    mode: PlayMode,
    held: Seq<(u8, u8)>,
    sustain: bool,
    priority: VoicePriority,
    last_note: u8,
) -> NoteOffAction {
    if sustain {
        NoteOffAction::Sustain
    } else {
        match mode {
            PlayMode::Mono | PlayMode::MonoLatch => if held.len() == 0 {
                NoteOffAction::ReleaseAll
            } else {
                NoteOffAction::Nothing
            },
            PlayMode::MonoST | PlayMode::MonoLegato | PlayMode::MonoFP => if held.len() == 0 {
                NoteOffAction::ReleaseAll
            } else {
                NoteOffAction::Retarget(priority_note(priority, held, last_note))
            },
            _ => NoteOffAction::ReleaseNote,
        }
    }
}

/// Decides what a note-off does, given the notes still held after it.
pub fn note_off_action(
    mode: PlayMode,
    held: &[(u8, u8)],
    sustain: bool,
    priority: VoicePriority,
    last_note: u8,
) -> (r: NoteOffAction)
    ensures
        r == note_off_plan(mode, held@, sustain, priority, last_note),
{
    if sustain {
        return NoteOffAction::Sustain;
    }
    match mode {
        PlayMode::Mono | PlayMode::MonoLatch => if held.len() == 0 {
            NoteOffAction::ReleaseAll
        } else {
            NoteOffAction::Nothing
        },
        PlayMode::MonoST | PlayMode::MonoLegato | PlayMode::MonoFP => if held.len() == 0 {
            NoteOffAction::ReleaseAll
        } else {
            NoteOffAction::Retarget(select_note_priority(priority, held, last_note))
        },
        _ => NoteOffAction::ReleaseNote,
    }
}

/// The voices released when the sustain pedal lifts: for each sustained
/// note in turn, the sounding voices on that note.
pub open spec fn sustain_releases(slots: Seq<VoiceSlot>, sustained: Seq<u8>) -> Seq<int>
    decreases sustained.len(),
{
    if sustained.len() == 0 {
        Seq::empty()
    } else {
        sustain_releases(slots, sustained.drop_last()) + scope_indices(slots, VoiceScope::Note(sustained.last()))
    }
}

/// The voices a sustain-pedal change releases: those of the sustained notes
/// when the pedal goes up, none otherwise.
pub fn pedal_releases(slots: &[VoiceSlot], was_down: bool, down: bool, sustained: &[u8]) -> (r: Vec<usize>)
    ensures
        as_ints(r@) == (if was_down && !down {
            sustain_releases(slots@, sustained@)
        } else {
            Seq::empty()
        }),
{
    let mut r: Vec<usize> = Vec::new();
    if !(was_down && !down) {
        assert(as_ints(r@) =~= Seq::<int>::empty());
        return r;
    }
    let mut i: usize = 0;
    while i < sustained.len()
        invariant
            i <= sustained@.len(),
            as_ints(r@) == sustain_releases(slots@, sustained@.take(i as int)),
        decreases sustained@.len() - i,
    {
        assert(sustained@.take(i + 1).drop_last() =~= sustained@.take(i as int));
        let on_note = voices_in_scope(slots, VoiceScope::Note(sustained[i]));
        let ghost before = r@;
        let mut k: usize = 0;
        while k < on_note.len()
            invariant
                k <= on_note@.len(),
                as_ints(r@) == as_ints(before) + as_ints(on_note@).take(k as int),
            decreases on_note@.len() - k,
        {
            let ghost prev = r@;
            r.push(on_note[k]);
            assert(as_ints(r@) =~= as_ints(prev).push(on_note@[k as int] as int));
            assert(as_ints(on_note@).take(k + 1) =~= as_ints(on_note@).take(k as int).push(on_note@[k as int] as int));
            k = k + 1;
            assert(as_ints(r@) =~= as_ints(before) + as_ints(on_note@).take(k as int));
        }
        assert(as_ints(on_note@).take(on_note@.len() as int) =~= as_ints(on_note@));
        i = i + 1;
    }
    assert(sustained@.take(sustained@.len() as int) =~= sustained@);
    r
}

// ---------------------------------------------------------------------------
// Note state
// ---------------------------------------------------------------------------

/// What the engine keeps of the notes played: the held `(note, channel)`
/// pairs in the order pressed, the last note played, the notes held on by
/// the sustain pedal, and whether the pedal is down.
pub struct NoteState {
    pub held: Vec<(u8, u8)>,
    pub last_note: u8,
    pub sustained: Vec<u8>,
    pub sustain_pedal: bool,
}

/// A note event as the engine receives it.
#[derive(Debug, Clone, Copy, PartialEq, Eq)]
pub enum NoteEvent {
    NoteOn { note: u8, velocity: u8, channel: u8 },
    NoteOff { note: u8, channel: u8 },
    /// The sustain pedal goes down (`true`) or up.
    Sustain(bool),
    /// Release every note (controller 123).
    AllNotesOff,
    /// Silence every voice at once (controller 120).
    AllSoundOff,
}

/// What an event asks of the voices after the note state has taken it.
#[derive(Debug, Clone, PartialEq, Eq)]
pub enum NoteStep {
    /// Start the note: keyswitches, zone lookup and voicing follow.
    Play { note: u8, velocity: u8, channel: u8 },
    /// The note is released; what that does to the voices.
    Release { note: u8, channel: u8, action: NoteOffAction },
    /// The pedal lifted: release the voices on these notes.
    ReleaseNotes(Vec<u8>),
    /// Release every sounding voice.
    ReleaseAll,
    /// Stop every voice at once.
    StopAll,
    /// Nothing to do.
    Nothing,
}

impl NoteState {
    /// No note held or sustained, pedal up, last note 60.
    pub fn new() -> (r: Self)
        ensures
            r.held@ == Seq::<(u8, u8)>::empty(),
            r.last_note == 60,
            r.sustained@ == Seq::<u8>::empty(),
            !r.sustain_pedal,
    {
        NoteState { held: Vec::new(), last_note: 60, sustained: Vec::new(), sustain_pedal: false }
    }

    /// A key goes down: it is held, last, and played.
    pub fn note_on(&mut self, note: u8, channel: u8)
        ensures
            final(self).held@ == old(self).held@.push((note, channel)),
            final(self).last_note == note,
            final(self).sustained@ == old(self).sustained@,
            final(self).sustain_pedal == old(self).sustain_pedal,
    {
        self.held.push((note, channel));
        self.last_note = note;
    }

    /// A key goes up: it is no longer held (on any channel); with the pedal
    /// down it is sustained; the answer is what the release does to the
    /// voices.
    pub fn note_off(&mut self, note: u8, mode: PlayMode, priority: VoicePriority) -> (r: NoteOffAction)
        ensures
            final(self).held@ == without_note(old(self).held@, note),
            final(self).last_note == old(self).last_note,
            final(self).sustained@ == (if old(self).sustain_pedal {
                old(self).sustained@.push(note)
            } else {
                old(self).sustained@
            }),
            final(self).sustain_pedal == old(self).sustain_pedal,
            r == note_off_plan(mode, final(self).held@, old(self).sustain_pedal, priority, old(self).last_note),
    {
        release_held_note(&mut self.held, note);
        if self.sustain_pedal {
            self.sustained.push(note);
        }
        note_off_action(mode, self.held.as_slice(), self.sustain_pedal, priority, self.last_note)
    }

    /// The pedal moves: when it lifts, the notes it held on are handed back
    /// for release and forgotten; otherwise none.
    pub fn set_sustain_pedal(&mut self, down: bool) -> (released: Vec<u8>)
        ensures
            final(self).sustain_pedal == down,
            final(self).held@ == old(self).held@,
            final(self).last_note == old(self).last_note,
            old(self).sustain_pedal && !down ==> released@ == old(self).sustained@ && final(self).sustained@
                == Seq::<u8>::empty(),
            !(old(self).sustain_pedal && !down) ==> released@ == Seq::<u8>::empty() && final(self).sustained@
                == old(self).sustained@,
    {
        let was = self.sustain_pedal;
        self.sustain_pedal = down;
        if was && !down {
            let mut released: Vec<u8> = Vec::new();
            std::mem::swap(&mut released, &mut self.sustained);
            released
        } else {
            Vec::new()
        }
    }

    /// Every note is let go: nothing is held or sustained any more.
    pub fn clear_notes(&mut self)
        ensures
            final(self).held@ == Seq::<(u8, u8)>::empty(),
            final(self).sustained@ == Seq::<u8>::empty(),
            final(self).last_note == old(self).last_note,
            final(self).sustain_pedal == old(self).sustain_pedal,
    {
        self.held.clear();
        self.sustained.clear();
    }

    /// Takes one event and says what it asks of the voices.
    pub fn step(&mut self, event: NoteEvent, mode: PlayMode, priority: VoicePriority) -> (r: NoteStep)
        ensures
            match event {
                NoteEvent::NoteOn { note, velocity, channel } => {
                    &&& final(self).held@ == old(self).held@.push((note, channel))
                    &&& final(self).last_note == note
                    &&& final(self).sustained@ == old(self).sustained@
                    &&& final(self).sustain_pedal == old(self).sustain_pedal
                    &&& r == NoteStep::Play { note, velocity, channel }
                },
                NoteEvent::NoteOff { note, channel } => {
                    &&& final(self).held@ == without_note(old(self).held@, note)
                    &&& final(self).last_note == old(self).last_note
                    &&& final(self).sustained@ == (if old(self).sustain_pedal {
                        old(self).sustained@.push(note)
                    } else {
                        old(self).sustained@
                    })
                    &&& final(self).sustain_pedal == old(self).sustain_pedal
                    &&& r == NoteStep::Release {
                        note,
                        channel,
                        action: note_off_plan(
                            mode,
                            without_note(old(self).held@, note),
                            old(self).sustain_pedal,
                            priority,
                            old(self).last_note,
                        ),
                    }
                },
                NoteEvent::Sustain(down) => {
                    &&& final(self).sustain_pedal == down
                    &&& final(self).held@ == old(self).held@
                    &&& final(self).last_note == old(self).last_note
                    &&& if old(self).sustain_pedal && !down {
                        &&& r matches NoteStep::ReleaseNotes(v) && v@ == old(self).sustained@
                        &&& final(self).sustained@ == Seq::<u8>::empty()
                    } else {
                        &&& r == NoteStep::Nothing
                        &&& final(self).sustained@ == old(self).sustained@
                    }
                },
                NoteEvent::AllNotesOff => {
                    &&& final(self).held@ == Seq::<(u8, u8)>::empty()
                    &&& final(self).sustained@ == Seq::<u8>::empty()
                    &&& final(self).last_note == old(self).last_note
                    &&& final(self).sustain_pedal == old(self).sustain_pedal
                    &&& r == NoteStep::ReleaseAll
                },
                NoteEvent::AllSoundOff => {
                    &&& final(self).held@ == Seq::<(u8, u8)>::empty()
                    &&& final(self).sustained@ == Seq::<u8>::empty()
                    &&& final(self).last_note == old(self).last_note
                    &&& final(self).sustain_pedal == old(self).sustain_pedal
                    &&& r == NoteStep::StopAll
                },
            },
    {
        match event {
            NoteEvent::NoteOn { note, velocity, channel } => {
                self.note_on(note, channel);
                NoteStep::Play { note, velocity, channel }
            },
            NoteEvent::NoteOff { note, channel } => {
                let action = self.note_off(note, mode, priority);
                NoteStep::Release { note, channel, action }
            },
            NoteEvent::Sustain(down) => {
                let was = self.sustain_pedal;
                let released = self.set_sustain_pedal(down);
                if was && !down {
                    NoteStep::ReleaseNotes(released)
                } else {
                    NoteStep::Nothing
                }
            },
            NoteEvent::AllNotesOff => {
                self.clear_notes();
                NoteStep::ReleaseAll
            },
            NoteEvent::AllSoundOff => {
                self.clear_notes();
                NoteStep::StopAll
            },
        }
    }
}

/// Once a key is released, no held pair has its note, whichever channel
/// pressed it.
pub proof fn law_released_note_is_not_held(held: Seq<(u8, u8)>, note: u8, channel: u8)
    ensures
        forall|k: int| 0 <= k < without_note(held.push((note, channel)), note).len() ==> #[trigger] without_note(
            held.push((note, channel)),
            note,
        )[k].0 != note,
{
    lemma_without_note(held.push((note, channel)), note);
}

proof fn lemma_without_note(held: Seq<(u8, u8)>, note: u8)
    ensures
        forall|k: int| 0 <= k < without_note(held, note).len() ==> #[trigger] without_note(held, note)[k].0 != note,
    decreases held.len(),
{
    if held.len() > 0 {
        lemma_without_note(held.drop_last(), note);
        let rest = without_note(held.drop_last(), note);
        if held.last().0 != note {
            assert forall|k: int| 0 <= k < rest.push(held.last()).len() implies #[trigger] rest.push(held.last())[k].0 != note by {
                if k < rest.len() {
                    assert(rest.push(held.last())[k] == rest[k]);
                }
            }
        }
    }
}

} // verus!
