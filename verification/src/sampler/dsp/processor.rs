//! Insert processor slots: their kinds, the routing patterns of a chain of
//! four slots, and the order in which a pattern runs the slots.

use vstd::prelude::*;

verus! {

/// Routing pattern for the four insert slots.
#[derive(Debug, Clone, Copy, PartialEq, Eq, Structural, Default)]
pub enum ProcessorRouting {
    /// 1 → 2 → 3 → 4
    #[default]
    S1,
    /// {1|2} → {3|4}
    S2,
    /// 1 → {2|3} → 4
    S3,
    /// {1|2|3|4}
    P1,
    /// {{1→2}|{3→4}}
    P2,
    /// {1|2|3} → 4
    P3,
    /// No slot runs.
    Bypass,
}

/// The kind of an insert slot.
#[derive(Debug, Clone, Copy, PartialEq, Eq, Structural, Default)]
pub enum ProcessorType {
    #[default]
    NoProcessor,
    Filter,
    Waveshaper,
    Gain,
    Pan,
    Width,
    Delay,
    Chorus,
    Bitcrusher,
    Reverb,
    Eq3Band,
    FloatyDelay,
    TreeMonster,
    Nimbus,
    RotarySpeaker,
    Bonsai,
}

/// One step of running a chain.
pub enum RouteStage {
    /// Run the slot on the signal in place.
    Serial(usize),
    /// Run each listed slot on its own copy of the signal, then mix the
    /// copies into the signal.
    Parallel(Vec<usize>),
    /// For each listed branch `b`, run slots `b` and `b + 1` in turn on a
    /// copy of the signal, then mix the copies into the signal.
    ParallelPairs(Vec<usize>),
}

/// A step of running a chain, as values.
pub ghost enum StageView {
    Serial(int),
    Parallel(Seq<int>),
    ParallelPairs(Seq<int>),
}

pub open spec fn ints(v: Seq<usize>) -> Seq<int> {
    v.map_values(|x: usize| x as int)
}

impl View for RouteStage {
    type V = StageView;

    open spec fn view(&self) -> StageView {
        match self {
            RouteStage::Serial(s) => StageView::Serial(*s as int),
            RouteStage::Parallel(v) => StageView::Parallel(ints(v@)),
            RouteStage::ParallelPairs(v) => StageView::ParallelPairs(ints(v@)),
        }
    }
}

/// A slot takes part in a parallel stage when it is enabled and holds a
/// processor.
pub open spec fn slot_active(enabled: bool, kind: ProcessorType) -> bool {
    enabled && kind != ProcessorType::NoProcessor
}

/// The active slots among `from..to`, ascending.
pub open spec fn active_in(active: Seq<bool>, from: int, to: int) -> Seq<int>
    decreases to - from,
{
    if to <= from {
        Seq::empty()
    } else if active[to - 1] {
        active_in(active, from, to - 1).push(to - 1)
    } else {
        active_in(active, from, to - 1)
    }
}

/// A parallel stage over the active slots among `from..to`, when there is one.
pub open spec fn parallel_over(active: Seq<bool>, from: int, to: int) -> Seq<StageView> {
    if active_in(active, from, to).len() > 0 {
        seq![StageView::Parallel(active_in(active, from, to))]
    } else {
        Seq::empty()
    }
}

/// The steps a routing pattern runs, given which slots are active.
pub open spec fn plan_of(routing: ProcessorRouting, active: Seq<bool>) -> Seq<StageView> {
    match routing {
        ProcessorRouting::S1 => seq![
            StageView::Serial(0),
            StageView::Serial(1),
            StageView::Serial(2),
            StageView::Serial(3),
        ],
        ProcessorRouting::S2 => parallel_over(active, 0, 2) + parallel_over(active, 2, 4),
        ProcessorRouting::S3 => seq![StageView::Serial(0)] + parallel_over(active, 1, 3) + seq![
            StageView::Serial(3),
        ],
        ProcessorRouting::P1 => parallel_over(active, 0, 4),
        ProcessorRouting::P2 => {
            let b01: Seq<int> = if active[0] || active[1] {
                seq![0int]
            } else {
                Seq::empty()
            };
            let b23: Seq<int> = if active[2] || active[3] {
                seq![2int]
            } else {
                Seq::empty()
            };
            let branches = b01 + b23;
            if branches.len() > 0 {
                seq![StageView::ParallelPairs(branches)]
            } else {
                Seq::empty()
            }
        },
        ProcessorRouting::P3 => parallel_over(active, 0, 3) + seq![StageView::Serial(3)],
        ProcessorRouting::Bypass => Seq::empty(),
    }
}

pub open spec fn stage_views(stages: Seq<RouteStage>) -> Seq<StageView> {
    stages.map_values(|s: RouteStage| s@)
}

/// The active slots among `from..to`.
fn collect_active(active: &[bool; 4], from: usize, to: usize) -> (r: Vec<usize>)
    requires
        from <= to <= 4,
    ensures
        ints(r@) == active_in(active@, from as int, to as int),
{
    let mut out: Vec<usize> = Vec::new();
    let mut i = from;
    assert(ints(out@) =~= active_in(active@, from as int, from as int));
    while i < to
        invariant
            from <= i <= to <= 4,
            ints(out@) == active_in(active@, from as int, i as int),
        decreases to - i,
    {
        let ghost before = out@;
        if active[i] {
            out.push(i);
            assert(ints(out@) =~= ints(before).push(i as int));
        }
        i = i + 1;
    }
    out
}

/// Appends a parallel stage over the active slots among `from..to`, when
/// there is one.
fn push_parallel(plan: &mut Vec<RouteStage>, active: &[bool; 4], from: usize, to: usize)
    requires
        from <= to <= 4,
    ensures
        stage_views(final(plan)@) == stage_views(old(plan)@) + parallel_over(active@, from as int, to as int),
{
    let members = collect_active(active, from, to);
    let ghost before = plan@;
    if members.len() > 0 {
        let ghost m = ints(members@);
        plan.push(RouteStage::Parallel(members));
        assert(stage_views(plan@) =~= stage_views(before) + seq![StageView::Parallel(m)]);
    } else {
        assert(stage_views(plan@) =~= stage_views(before) + Seq::<StageView>::empty());
    }
}

fn push_serial(plan: &mut Vec<RouteStage>, slot: usize)
    ensures
        stage_views(final(plan)@) == stage_views(old(plan)@) + seq![StageView::Serial(slot as int)],
{
    let ghost before = plan@;
    plan.push(RouteStage::Serial(slot));
    assert(stage_views(plan@) =~= stage_views(before) + seq![StageView::Serial(slot as int)]);
}

/// The order in which a chain with a routing pattern runs its four slots.
pub fn routing_plan(routing: ProcessorRouting, enabled: &[bool; 4], kinds: &[ProcessorType; 4]) -> (r: Vec<RouteStage>)
    ensures
        stage_views(r@) == plan_of(routing, Seq::new(4, |i: int| slot_active(enabled@[i], kinds@[i]))),
{
    let active: [bool; 4] = [
        enabled[0] && kinds[0] != ProcessorType::NoProcessor,
        enabled[1] && kinds[1] != ProcessorType::NoProcessor,
        enabled[2] && kinds[2] != ProcessorType::NoProcessor,
        enabled[3] && kinds[3] != ProcessorType::NoProcessor,
    ];
    let ghost want = Seq::new(4, |i: int| slot_active(enabled@[i], kinds@[i]));
    assert(active@ =~= want);
    let mut plan: Vec<RouteStage> = Vec::new();
    assert(stage_views(plan@) =~= Seq::<StageView>::empty());
    match routing {
        ProcessorRouting::S1 => {
            push_serial(&mut plan, 0);
            push_serial(&mut plan, 1);
            push_serial(&mut plan, 2);
            push_serial(&mut plan, 3);
            assert(stage_views(plan@) =~= plan_of(routing, want));
        },
        ProcessorRouting::S2 => {
            push_parallel(&mut plan, &active, 0, 2);
            push_parallel(&mut plan, &active, 2, 4);
            assert(stage_views(plan@) =~= plan_of(routing, want));
        },
        ProcessorRouting::S3 => {
            push_serial(&mut plan, 0);
            push_parallel(&mut plan, &active, 1, 3);
            push_serial(&mut plan, 3);
            assert(stage_views(plan@) =~= plan_of(routing, want));
        },
        ProcessorRouting::P1 => {
            push_parallel(&mut plan, &active, 0, 4);
            assert(stage_views(plan@) =~= plan_of(routing, want));
        },
        ProcessorRouting::P2 => {
            let mut branches: Vec<usize> = Vec::new();
            if active[0] || active[1] {
                branches.push(0);
            }
            if active[2] || active[3] {
                branches.push(2);
            }
            let ghost b = ints(branches@);
            let ghost b01: Seq<int> = if want[0] || want[1] { seq![0int] } else { Seq::empty() };
            let ghost b23: Seq<int> = if want[2] || want[3] { seq![2int] } else { Seq::empty() };
            assert(b =~= b01 + b23);
            if branches.len() > 0 {
                plan.push(RouteStage::ParallelPairs(branches));
                assert(stage_views(plan@) =~= seq![StageView::ParallelPairs(b)]);
            }
            assert(stage_views(plan@) =~= plan_of(routing, want));
        },
        ProcessorRouting::P3 => {
            push_parallel(&mut plan, &active, 0, 3);
            push_serial(&mut plan, 3);
            assert(stage_views(plan@) =~= plan_of(routing, want));
        },
        ProcessorRouting::Bypass => {
            assert(stage_views(plan@) =~= plan_of(routing, want));
        },
    }
    plan
}

/// Every slot that a plan names is one of the four, and a parallel stage
/// names only active slots, each once, in ascending order.
pub proof fn law_plan_slots_in_range(routing: ProcessorRouting, active: Seq<bool>, k: int)
    requires
        active.len() == 4,
        0 <= k < plan_of(routing, active).len(),
    ensures
        plan_of(routing, active)[k] matches StageView::Serial(s) ==> 0 <= s < 4,
        plan_of(routing, active)[k] matches StageView::Parallel(v) ==> (v.len() > 0 && forall|a: int, b: int|
            0 <= a < b < v.len() ==> v[a] < v[b]) && forall|a: int| 0 <= a < v.len() ==> 0 <= #[trigger] v[a] < 4
            && active[v[a]],
        plan_of(routing, active)[k] matches StageView::ParallelPairs(v) ==> v.len() > 0 && forall|a: int|
            0 <= a < v.len() ==> (#[trigger] v[a] == 0 || v[a] == 2),
{
    lemma_active_in(active, 0, 2);
    lemma_active_in(active, 2, 4);
    lemma_active_in(active, 1, 3);
    lemma_active_in(active, 0, 4);
    lemma_active_in(active, 0, 3);
}

proof fn lemma_active_in(active: Seq<bool>, from: int, to: int)
    requires
        0 <= from <= to <= active.len(),
    ensures
        forall|a: int, b: int| 0 <= a < b < active_in(active, from, to).len() ==> active_in(active, from, to)[a]
            < active_in(active, from, to)[b],
        forall|a: int| 0 <= a < active_in(active, from, to).len() ==> from <= #[trigger] active_in(active, from, to)[a]
            < to && active[active_in(active, from, to)[a]],
    decreases to - from,
{
    if to > from {
        lemma_active_in(active, from, to - 1);
        let prev = active_in(active, from, to - 1);
        let cur = active_in(active, from, to);
        if active[to - 1] {
            assert(cur == prev.push(to - 1));
            assert forall|a: int| 0 <= a < cur.len() implies from <= #[trigger] cur[a] < to && active[cur[a]] by {
                if a < prev.len() {
                    assert(cur[a] == prev[a]);
                }
            }
            assert forall|a: int, b: int| 0 <= a < b < cur.len() implies cur[a] < cur[b] by {
                assert(cur[a] == prev[a]);
                if b < prev.len() {
                    assert(cur[b] == prev[b]);
                }
            }
        }
    }
}

} // verus!
