//! Zone playback modes.

use vstd::prelude::*;

verus! {

/// When a zone's sample sounds.
#[derive(Debug, Clone, Copy, PartialEq, Eq, Structural)]
pub enum SamplePlayMode {
    Normal,
    OneShot,
    OnRelease,
}

impl SamplePlayMode {
    /// The variant's numeric code.
    pub open spec fn code(self) -> u8 {
        match self {
            SamplePlayMode::Normal => 0,
            SamplePlayMode::OneShot => 1,
            SamplePlayMode::OnRelease => 2,
        }
    }

    /// The variant for a numeric code; unknown codes give `Normal`.
    pub open spec fn from_code(value: u8) -> Self {
        match value {
            1 => SamplePlayMode::OneShot,
            2 => SamplePlayMode::OnRelease,
            _ => SamplePlayMode::Normal,
        }
    }

    pub fn from_u8(value: u8) -> (r: Self)
        ensures
            r == Self::from_code(value),
    {
        match value {
            1 => SamplePlayMode::OneShot,
            2 => SamplePlayMode::OnRelease,
            _ => SamplePlayMode::Normal,
        }
    }
}

/// Reading back the code of any `SamplePlayMode` gives that `SamplePlayMode`.
pub proof fn law_sample_play_mode_code_roundtrip(x: SamplePlayMode)
    ensures
        SamplePlayMode::from_code(x.code()) == x,
        x.code() <= 2,
{
}

/// How a zone's loop region repeats.
#[derive(Debug, Clone, Copy, PartialEq, Eq, Structural)]
pub enum LoopMode {
    Off,
    DuringVoice,
    WhileGated,
    Count,
}

impl LoopMode {
    /// The variant's numeric code.
    pub open spec fn code(self) -> u8 {
        match self {
            LoopMode::Off => 0,
            LoopMode::DuringVoice => 1,
            LoopMode::WhileGated => 2,
            LoopMode::Count => 3,
        }
    }

    /// The variant for a numeric code; unknown codes give `Off`.
    pub open spec fn from_code(value: u8) -> Self {
        match value {
            1 => LoopMode::DuringVoice,
            2 => LoopMode::WhileGated,
            3 => LoopMode::Count,
            _ => LoopMode::Off,
        }
    }

    pub fn from_u8(value: u8) -> (r: Self)
        ensures
            r == Self::from_code(value),
    {
        match value {
            1 => LoopMode::DuringVoice,
            2 => LoopMode::WhileGated,
            3 => LoopMode::Count,
            _ => LoopMode::Off,
        }
    }
}

/// Reading back the code of any `LoopMode` gives that `LoopMode`.
pub proof fn law_loop_mode_code_roundtrip(x: LoopMode)
    ensures
        LoopMode::from_code(x.code()) == x,
        x.code() <= 3,
{
}

/// Loop playback direction.
#[derive(Debug, Clone, Copy, PartialEq, Eq, Structural)]
pub enum LoopDirection {
    Forward,
    Alternate,
}

impl LoopDirection {
    /// The variant's numeric code.
    pub open spec fn code(self) -> u8 {
        match self {
            LoopDirection::Forward => 0,
            LoopDirection::Alternate => 1,
        }
    }

    /// The variant for a numeric code; unknown codes give `Forward`.
    pub open spec fn from_code(value: u8) -> Self {
        match value {
            1 => LoopDirection::Alternate,
            _ => LoopDirection::Forward,
        }
    }

    pub fn from_u8(value: u8) -> (r: Self)
        ensures
            r == Self::from_code(value),
    {
        match value {
            1 => LoopDirection::Alternate,
            _ => LoopDirection::Forward,
        }
    }
}

/// Reading back the code of any `LoopDirection` gives that `LoopDirection`.
pub proof fn law_loop_direction_code_roundtrip(x: LoopDirection)
    ensures
        LoopDirection::from_code(x.code()) == x,
        x.code() <= 1,
{
}

/// Response curve for velocity and key tracking.
#[derive(Debug, Clone, Copy, PartialEq, Eq, Structural)]
pub enum CurveType {
    Linear,
    Exponential,
    Logarithmic,
    SCurve,
}

impl CurveType {
    /// The variant's numeric code.
    pub open spec fn code(self) -> u8 {
        match self {
            CurveType::Linear => 0,
            CurveType::Exponential => 1,
            CurveType::Logarithmic => 2,
            CurveType::SCurve => 3,
        }
    }

    /// The variant for a numeric code; unknown codes give `Linear`.
    pub open spec fn from_code(value: u8) -> Self {
        match value {
            1 => CurveType::Exponential,
            2 => CurveType::Logarithmic,
            3 => CurveType::SCurve,
            _ => CurveType::Linear,
        }
    }

    pub fn from_u8(value: u8) -> (r: Self)
        ensures
            r == Self::from_code(value),
    {
        match value {
            1 => CurveType::Exponential,
            2 => CurveType::Logarithmic,
            3 => CurveType::SCurve,
            _ => CurveType::Linear,
        }
    }
}

/// Reading back the code of any `CurveType` gives that `CurveType`.
pub proof fn law_curve_type_code_roundtrip(x: CurveType)
    ensures
        CurveType::from_code(x.code()) == x,
        x.code() <= 3,
{
}

/// How a zone picks among its sample variants.
#[derive(Debug, Clone, Copy, PartialEq, Eq, Structural)]
pub enum VariantMode {
    First,
    RoundRobin,
    Random,
    RandomNoRepeat,
    RandomCycle,
    Unison,
}

impl VariantMode {
    /// The variant's numeric code.
    pub open spec fn code(self) -> u8 {
        match self {
            VariantMode::First => 0,
            VariantMode::RoundRobin => 1,
            VariantMode::Random => 2,
            VariantMode::RandomNoRepeat => 3,
            VariantMode::RandomCycle => 4,
            VariantMode::Unison => 5,
        }
    }

    /// The variant for a numeric code; unknown codes give `First`.
    pub open spec fn from_code(value: u8) -> Self {
        match value {
            1 => VariantMode::RoundRobin,
            2 => VariantMode::Random,
            3 => VariantMode::RandomNoRepeat,
            _ => VariantMode::First,
        }
    }

    pub fn from_u8(value: u8) -> (r: Self)
        ensures
            r == Self::from_code(value),
    {
        match value {
            1 => VariantMode::RoundRobin,
            2 => VariantMode::Random,
            3 => VariantMode::RandomNoRepeat,
            _ => VariantMode::First,
        }
    }
}

/// Codes 0 to 3 read back as their variant; `RandomCycle` (4) and `Unison`
/// (5) have no code of their own and read back as `First`.
pub proof fn law_variant_mode_codes(x: VariantMode)
    ensures
        x.code() <= 3 ==> VariantMode::from_code(x.code()) == x,
        x.code() > 3 ==> VariantMode::from_code(x.code()) == VariantMode::First,
{
}


// ---------------------------------------------------------------------------
// Variant choice
// ---------------------------------------------------------------------------

/// A value from `0..=i`: `rand::random_range(0..=i)`.
///
/// The value depends on chance; the contract states only the range, which
/// the call documents and which is never empty.
#[verifier::external_body]
fn random_index_upto(i: usize) -> (r: usize)
    ensures
        r <= i,
{
    rand::random_range(0..=i)
}

/// A 32-bit value from the thread-local generator: `rand::random::<u32>`.
///
/// The value depends on chance, so the contract states nothing of it.
#[verifier::external_body]
fn random_u32() -> u32 {
    rand::random::<u32>()
}

/// Whether `pool` holds each of `0..pool.len()` exactly once.
pub open spec fn is_permutation(pool: Seq<usize>) -> bool {
    &&& forall|i: int| 0 <= i < pool.len() ==> #[trigger] pool[i] < pool.len()
    &&& forall|i: int, j: int| 0 <= i < j < pool.len() ==> pool[i] != pool[j]
}

/// The variant among `count` that the drawn value `r` selects.
pub open spec fn drawn_variant(r: u32, count: usize) -> int {
    r as int % count as int
}

/// The variant among `count`, other than `last`, that the drawn value `r`
/// selects: the draw is reduced over the `count - 1` other variants and
/// steps over `last`. A `last` that names no variant excludes nothing.
pub open spec fn drawn_other_variant(r: u32, count: usize, last: usize) -> int {
    if last >= count {
        r as int % count as int
    } else {
        let q = r as int % (count - 1);
        if q >= last {
            q + 1
        } else {
            q
        }
    }
}

/// The variant among `count` that the drawn value `r` selects.
pub fn variant_for_draw(r: u32, count: usize) -> (idx: usize)
    requires
        count > 0,
    ensures
        idx == drawn_variant(r, count),
        idx < count,
{
    (r as usize) % count
}

/// The variant among `count`, other than `last`, that the drawn value `r`
/// selects.
pub fn other_variant(r: u32, count: usize, last: usize) -> (idx: usize)
    requires
        count > 1,
    ensures
        idx == drawn_other_variant(r, count, last),
        idx < count,
        idx != last,
{
    if last >= count {
        (r as usize) % count
    } else {
        let q = (r as usize) % (count - 1);
        if q >= last {
            q + 1
        } else {
            q
        }
    }
}

/// One step of a shuffle: the entries at `top` and `j` change places.
pub fn shuffle_step(pool: &mut Vec<usize>, top: usize, j: usize)
    requires
        top < old(pool)@.len(),
        j < old(pool)@.len(),
    ensures
        final(pool)@ == old(pool)@.update(top as int, old(pool)@[j as int]).update(
            j as int,
            old(pool)@[top as int],
        ),
        is_permutation(old(pool)@) ==> is_permutation(final(pool)@),
{
    let a = pool[top];
    let b = pool[j];
    let ghost before = pool@;
    pool.set(top, b);
    pool.set(j, a);
    proof {
        if is_permutation(before) {
            assert forall|x: int, y: int| 0 <= x < y < pool@.len() implies pool@[x] != pool@[y] by {
                let sx = if x == j { top as int } else if x == top { j as int } else { x };
                let sy = if y == j { top as int } else if y == top { j as int } else { y };
                assert(pool@[x] == before[sx]);
                assert(pool@[y] == before[sy]);
            }
            assert forall|x: int| 0 <= x < pool@.len() implies #[trigger] pool@[x] < pool@.len() by {
                let sx = if x == j { top as int } else if x == top { j as int } else { x };
                assert(pool@[x] == before[sx]);
            }
        }
    }
}

/// The round-robin and shuffle state a zone keeps between variant choices.
pub struct VariantCursor {
    pub current_variant: usize,
    pub last_variant: usize,
    pub pool_position: usize,
    pub variant_pool: Vec<usize>,
}

impl VariantCursor {
    /// The shuffle pool holds each variant once.
    pub open spec fn wf(&self) -> bool {
        is_permutation(self.variant_pool@)
    }

    pub fn new() -> (r: Self)
        ensures
            r.wf(),
            r.current_variant == 0,
            r.last_variant == 0,
            r.pool_position == 0,
            r.variant_pool@.len() == 0,
    {
        VariantCursor { current_variant: 0, last_variant: 0, pool_position: 0, variant_pool: Vec::new() }
    }

    /// The next of `count` variants in turn.
    pub fn next_round_robin(&mut self, count: usize) -> (idx: usize)
        requires
            count > 0,
        ensures
            idx == old(self).current_variant % count,
            final(self).current_variant == (idx + 1) % count as int,
            final(self).last_variant == old(self).last_variant,
            final(self).pool_position == old(self).pool_position,
            final(self).variant_pool@ == old(self).variant_pool@,
    {
        let idx = self.current_variant % count;
        self.current_variant = (idx + 1) % count;
        idx
    }

    /// Refills the pool with `0..count` in a random order (a Fisher-Yates
    /// shuffle from the back: each slot, from the last down, trades places
    /// through `shuffle_step` with a drawn slot at or below it).
    fn reshuffle(&mut self, count: usize)
        ensures
            final(self).variant_pool@.len() == count,
            final(self).wf(),
            final(self).current_variant == old(self).current_variant,
            final(self).last_variant == old(self).last_variant,
            final(self).pool_position == old(self).pool_position,
    {
        let mut pool: Vec<usize> = Vec::new();
        let mut k: usize = 0;
        while k < count
            invariant
                k <= count,
                pool@.len() == k,
                forall|i: int| 0 <= i < k ==> #[trigger] pool@[i] == i,
            decreases count - k,
        {
            pool.push(k);
            k = k + 1;
        }
        let mut i = pool.len();
        while i > 1
            invariant
                i <= pool@.len() == count,
                is_permutation(pool@),
            decreases i,
        {
            let top = i - 1;
            let j = random_index_upto(top);
            shuffle_step(&mut pool, top, j);
            i = i - 1;
        }
        self.variant_pool = pool;
    }

    /// The next variant of a shuffled cycle over `count` variants: each
    /// cycle reshuffles the pool and then hands out its entries in order.
    pub fn next_random_cycle(&mut self, count: usize) -> (idx: usize)
        requires
            count > 0,
            old(self).wf(),
        ensures
            final(self).wf(),
            final(self).variant_pool@.len() == count,
            idx < count,
            1 <= final(self).pool_position <= count,
            idx == final(self).variant_pool@[final(self).pool_position - 1],
            old(self).pool_position < count && old(self).variant_pool@.len() == count
                ==> final(self).variant_pool@ == old(self).variant_pool@,
            old(self).pool_position < count && old(self).variant_pool@.len() == count
                ==> final(self).pool_position == old(self).pool_position + 1,
            !(old(self).pool_position < count && old(self).variant_pool@.len() == count)
                ==> final(self).pool_position == 1,
            final(self).current_variant == old(self).current_variant,
            final(self).last_variant == old(self).last_variant,
    {
        let mut pos = self.pool_position;
        if pos >= count || self.variant_pool.len() != count {
            self.reshuffle(count);
            pos = 0;
        }
        let idx = self.variant_pool[pos];
        self.pool_position = pos + 1;
        idx
    }

    /// A random one of `count` variants other than the last one this picked,
    /// when there are at least two; the pick is recorded as the last one.
    /// With one variant (or none) it is variant 0 and nothing is recorded.
    /// The pick is a drawn value handed to `other_variant`.
    pub fn next_random_no_repeat(&mut self, count: usize) -> (idx: usize)
        ensures
            count <= 1 ==> idx == 0 && *final(self) == *old(self),
            count > 1 ==> idx < count && idx != old(self).last_variant && final(self).last_variant == idx,
            count > 1 ==> exists|r: u32| idx == #[trigger] drawn_other_variant(r, count, old(self).last_variant),
            final(self).current_variant == old(self).current_variant,
            final(self).pool_position == old(self).pool_position,
            final(self).variant_pool@ == old(self).variant_pool@,
    {
        if count <= 1 {
            return 0;
        }
        let r = random_u32();
        let idx = other_variant(r, count, self.last_variant);
        self.last_variant = idx;
        idx
    }

    /// A random one of `count` variants: a drawn value reduced by
    /// `variant_for_draw`.
    pub fn random_variant(count: usize) -> (idx: usize)
        requires
            count > 0,
        ensures
            idx < count,
            exists|r: u32| idx == #[trigger] drawn_variant(r, count),
    {
        let r = random_u32();
        variant_for_draw(r, count)
    }
}

/// Within one shuffled cycle, two picks at different pool positions give
/// different variants.
pub proof fn law_random_cycle_no_repeat(pool: Seq<usize>, p: int, q: int)
    requires
        is_permutation(pool),
        0 <= p < q < pool.len(),
    ensures
        pool[p] != pool[q],
{
}

} // verus!
