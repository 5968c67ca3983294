//! The render bookkeeping that is plain counting and packing: instance
//! buckets keyed by unit kind and detail level, the overlay's drawn counts,
//! the per-soldier words of the GPU snapshot, and a regiment's stance tier.
use vstd::prelude::*;
use crate::regiment::{GroupData, Order};
use crate::morale::{band, band_of, Band};

verus! {

/// Detail levels per unit kind.
pub const NUM_LODS: usize = 4;
/// Instance buckets (kind-major: one per kind and detail level).
pub const NUM_BUCKETS: usize = 16;

/// The bucket a soldier of `kind` renders in at detail level `lod`.
pub fn bucket_of(kind: usize, lod: usize) -> (b: usize)
    requires
        kind < 4,
        lod < NUM_LODS,
    ensures
        b == kind * NUM_LODS + lod,
        b < NUM_BUCKETS,
{
    kind * NUM_LODS + lod
}

/// Sum of `s[from..to]`.
pub open spec fn range_sum(s: Seq<u32>, from: int, to: int) -> int
    decreases to - from,
{
    if to <= from {
        0
    } else {
        range_sum(s, from, to - 1) + s[to - 1]
    }
}

/// Sum of the entries of detail level `lod` over the first `kinds` kinds.
pub open spec fn level_sum(s: Seq<u32>, lod: int, kinds: int) -> int
    decreases kinds,
{
    if kinds <= 0 {
        0
    } else {
        level_sum(s, lod, kinds - 1) + s[(kinds - 1) * 4 + lod]
    }
}

proof fn lemma_range_sum_bound(s: Seq<u32>, from: int, to: int)
    ensures
        0 <= range_sum(s, from, to),
        from <= to ==> range_sum(s, from, to) <= (to - from) * 0xffff_ffff,
    decreases to - from,
{
    if to > from {
        lemma_range_sum_bound(s, from, to - 1);
    }
}

proof fn lemma_range_sum_split(s: Seq<u32>, a: int, m: int, b: int)
    requires
        a <= m <= b,
    ensures
        range_sum(s, a, b) == range_sum(s, a, m) + range_sum(s, m, b),
    decreases b - m,
{
    if m < b {
        lemma_range_sum_split(s, a, m, b - 1);
    }
}

proof fn lemma_range_sum_mono(s: Seq<u32>, from: int, mid: int, to: int)
    requires
        from <= mid <= to,
    ensures
        range_sum(s, from, mid) <= range_sum(s, from, to),
    decreases to - mid,
{
    if mid < to {
        lemma_range_sum_mono(s, from, mid, to - 1);
    }
}

proof fn lemma_level_sum_bound(s: Seq<u32>, lod: int, kinds: int)
    ensures
        0 <= level_sum(s, lod, kinds),
        kinds >= 0 ==> level_sum(s, lod, kinds) <= kinds * 0xffff_ffff,
    decreases kinds,
{
    if kinds > 0 {
        lemma_level_sum_bound(s, lod, kinds - 1);
    }
}

/// The overlay's drawn counts.
pub struct RenderCounts {
    /// Living soldiers drawn.
    pub drawn: usize,
    /// Per unit kind, summed over detail levels.
    pub bucket_drawn: Vec<usize>,
    /// Per detail level, summed over kinds.
    pub lod_drawn: [usize; 4],
    /// Fallen soldiers drawn.
    pub corpses_drawn: usize,
}

fn sum_range(s: &[u32; 16], from: usize, to: usize) -> (t: usize)
    requires
        from <= to <= 16,
        range_sum(s@, from as int, to as int) <= usize::MAX,
    ensures
        t == range_sum(s@, from as int, to as int),
{
    let mut t: usize = 0;
    let mut i: usize = from;
    while i < to
        invariant
            from <= i <= to <= 16,
            t == range_sum(s@, from as int, i as int),
            range_sum(s@, from as int, to as int) <= usize::MAX,
        decreases to - i,
    {
        proof {
            lemma_range_sum_mono(s@, from as int, i + 1, to as int);
        }
        t = t + s[i] as usize;
        i = i + 1;
    }
    t
}

impl RenderCounts {
    /// Fill the display counts from per-bucket living and fallen counts
    /// (buckets kind-major): per-kind counts sum each run of levels,
    /// per-level counts sum across kinds.
    pub fn set_from_buckets(&mut self, living: &[u32; 16], fallen: &[u32; 16])
        requires
            range_sum(living@, 0, 16) <= usize::MAX,
            range_sum(fallen@, 0, 16) <= usize::MAX,
            forall|l: int| 0 <= l < 4 ==> #[trigger] level_sum(living@, l, 4) <= usize::MAX,
        ensures
            final(self).drawn == range_sum(living@, 0, 16),
            final(self).corpses_drawn == range_sum(fallen@, 0, 16),
            final(self).bucket_drawn@.len() == 4,
            forall|k: int| 0 <= k < 4 ==> #[trigger] final(self).bucket_drawn@[k] == range_sum(living@, k * 4, k * 4 + 4),
            forall|l: int| 0 <= l < 4 ==> #[trigger] final(self).lod_drawn@[l] == level_sum(living@, l, 4),
    {
        self.drawn = sum_range(living, 0, 16);
        let mut per_kind: Vec<usize> = Vec::new();
        let mut k: usize = 0;
        while k < 4
            invariant
                k <= 4,
                per_kind.len() == k,
                range_sum(living@, 0, 16) <= usize::MAX,
                forall|j: int| 0 <= j < k ==> #[trigger] per_kind@[j] == range_sum(living@, j * 4, j * 4 + 4),
            decreases 4 - k,
        {
            proof {
                lemma_range_sum_split(living@, 0, k * 4, 16);
                lemma_range_sum_split(living@, k * 4, k * 4 + 4, 16);
                lemma_range_sum_bound(living@, 0, k * 4);
                lemma_range_sum_bound(living@, k * 4 + 4, 16);
            }
            per_kind.push(sum_range(living, k * 4, k * 4 + 4));
            k = k + 1;
        }
        self.bucket_drawn = per_kind;
        let mut levels: [usize; 4] = [0, 0, 0, 0];
        let mut l: usize = 0;
        while l < 4
            invariant
                l <= 4,
                forall|j: int| 0 <= j < l ==> #[trigger] levels@[j] == level_sum(living@, j, 4),
                forall|j: int| 0 <= j < 4 ==> #[trigger] level_sum(living@, j, 4) <= usize::MAX,
            decreases 4 - l,
        {
            let mut t: usize = 0;
            let mut kk: usize = 0;
            while kk < 4
                invariant
                    kk <= 4,
                    l < 4,
                    t == level_sum(living@, l as int, kk as int),
                    level_sum(living@, l as int, 4) <= usize::MAX,
                decreases 4 - kk,
            {
                proof {
                    lemma_level_sum_bound(living@, l as int, kk as int);
                    assert(level_sum(living@, l as int, kk + 1) <= level_sum(living@, l as int, 4)) by {
                        lemma_level_sum_mono(living@, l as int, kk + 1, 4);
                    }
                }
                t = t + living[kk * 4 + l] as usize;
                kk = kk + 1;
            }
            levels[l] = t;
            l = l + 1;
        }
        self.lod_drawn = levels;
        self.corpses_drawn = sum_range(fallen, 0, 16);
    }
}

proof fn lemma_level_sum_mono(s: Seq<u32>, lod: int, a: int, b: int)
    requires
        0 <= a <= b,
    ensures
        level_sum(s, lod, a) <= level_sum(s, lod, b),
    decreases b - a,
{
    if a < b {
        lemma_level_sum_mono(s, lod, a, b - 1);
    }
}

/// Every living soldier drawn is counted once per kind and once per
/// level: the per-kind and per-level counts each add up to the total.
pub proof fn law_counts_partition(s: Seq<u32>)
    requires
        s.len() == 16,
    ensures
        range_sum(s, 0, 4) + range_sum(s, 4, 8) + range_sum(s, 8, 12) + range_sum(s, 12, 16)
            == range_sum(s, 0, 16),
        level_sum(s, 0, 4) + level_sum(s, 1, 4) + level_sum(s, 2, 4) + level_sum(s, 3, 4)
            == range_sum(s, 0, 16),
{
    reveal_with_fuel(range_sum, 17);
    reveal_with_fuel(level_sum, 5);
}

/// The two packed words of a soldier's GPU record: kind, swing state,
/// swing timer and hit flash byte by byte; then the regiment index in the
/// low 24 bits under the death timer.
pub fn pack_words(kind: u8, swing: u8, swing_t: u8, flash: u8, group: u32, death_t: u8) -> (w: (u32, u32))
    ensures
        w.0 == kind + 256 * swing + 65536 * swing_t + 16777216 * flash,
        w.1 == group % 16777216 + 16777216 * death_t,
{
    let a: u32 = (kind as u32) | (swing as u32) << 8u32 | (swing_t as u32) << 16u32 | (flash as u32) << 24u32;
    let b: u32 = (group & 0x00ff_ffffu32) | (death_t as u32) << 24u32;
    proof {
        let (k, s, t, f, d) = (kind as u32, swing as u32, swing_t as u32, flash as u32, death_t as u32);
        assert(k | s << 8u32 | t << 16u32 | f << 24u32 == k + 256 * s + 65536 * t + 16777216 * f) by (bit_vector)
            requires
                k < 256,
                s < 256,
                t < 256,
                f < 256,
        ;
        assert((group & 0x00ff_ffffu32) | d << 24u32 == group % 16777216 + 16777216 * d) by (bit_vector)
            requires
                d < 256,
        ;
    }
    (a, b)
}

/// The GPU record decodes back to what was packed: each byte of the first
/// word is its field, and the second word gives the regiment index in its
/// low 24 bits (for an index that fits them) and the death timer above.
pub proof fn law_packed_fields_decode(kind: u8, swing: u8, swing_t: u8, flash: u8, group: u32, death_t: u8)
    requires
        group < 16777216,
    ensures
        ({
            let a = (kind + 256 * swing + 65536 * swing_t + 16777216 * flash) as u32;
            let b = (group % 16777216 + 16777216 * death_t) as u32;
            &&& a & 0xffu32 == kind as u32
            &&& (a >> 8u32) & 0xffu32 == swing as u32
            &&& (a >> 16u32) & 0xffu32 == swing_t as u32
            &&& a >> 24u32 == flash as u32
            &&& b & 0x00ff_ffffu32 == group
            &&& b >> 24u32 == death_t as u32
        }),
{
    let (k, s, t, f, d) = (kind as u32, swing as u32, swing_t as u32, flash as u32, death_t as u32);
    let a = (kind + 256 * swing + 65536 * swing_t + 16777216 * flash) as u32;
    let b = (group % 16777216 + 16777216 * death_t) as u32;
    assert(a == k + 256 * s + 65536 * t + 16777216 * f);
    assert(b == group + 16777216 * d);
    assert({
        let x = (k + 256 * s + 65536 * t + 16777216 * f) as u32;
        &&& x & 0xffu32 == k
        &&& (x >> 8u32) & 0xffu32 == s
        &&& (x >> 16u32) & 0xffu32 == t
        &&& x >> 24u32 == f
    }) by (bit_vector)
        requires
            k < 256,
            s < 256,
            t < 256,
            f < 256,
    ;
    assert({
        let y = (group + 16777216 * d) as u32;
        &&& y & 0x00ff_ffffu32 == group
        &&& y >> 24u32 == d
    }) by (bit_vector)
        requires
            group < 16777216,
            d < 256,
    ;
}

/// Soldiers of kind `k` among the first `n`.
pub open spec fn kind_count(kind: Seq<u8>, k: int, n: int) -> int
    decreases n,
{
    if n <= 0 {
        0
    } else {
        kind_count(kind, k, n - 1) + if kind[n - 1] as int == k { 1int } else { 0int }
    }
}

proof fn lemma_kind_count_bounded(kind: Seq<u8>, k: int, n: int)
    requires
        n >= 0,
    ensures
        0 <= kind_count(kind, k, n) <= n,
    decreases n,
{
    if n > 0 {
        lemma_kind_count_bounded(kind, k, n - 1);
    }
}

/// Soldiers per kind in the snapshot.
pub fn count_kinds(kind: &Vec<u8>) -> (c: [u32; 4])
    requires
        kind.len() <= u32::MAX,
        forall|i: int| 0 <= i < kind.len() ==> #[trigger] kind@[i] < 4,
    ensures
        forall|k: int| 0 <= k < 4 ==> #[trigger] c@[k] == kind_count(kind@, k, kind.len() as int),
{
    let mut c: [u32; 4] = [0, 0, 0, 0];
    let mut i: usize = 0;
    while i < kind.len()
        invariant
            i <= kind.len(),
            kind.len() <= u32::MAX,
            forall|j: int| 0 <= j < kind.len() ==> #[trigger] kind@[j] < 4,
            forall|k: int| 0 <= k < 4 ==> #[trigger] c@[k] == kind_count(kind@, k, i as int),
        decreases kind.len() - i,
    {
        let k = kind[i] as usize;
        proof {
            lemma_kind_count_bounded(kind@, k as int, i as int);
        }
        c[k] = c[k] + 1;
        i = i + 1;
    }
    c
}

/// A regiment's battle stance for the animation: charging (sprint lean),
/// fighting confident, fighting wavering, bracing with an enemy in watch
/// range, or lowered.
#[derive(Clone, Copy, PartialEq, Eq, Structural, Debug)]
pub enum Stance {
    Lowered,
    Brace,
    Wavering,
    Confident,
    Charge,
}

/// The stance tier: the charge first, then the fight (an attack order
/// counts as one), confident only in the steady morale band, then an
/// enemy in watch range.
pub fn stance_of<P>(r: &GroupData<P>, enemy_near: bool) -> (s: Stance)
    ensures
        s == if r.charging {
            Stance::Charge
        } else if r.engaged || r.order matches Some(Order::Attack(_)) {
            if band_of(*r) == Band::Steady { Stance::Confident } else { Stance::Wavering }
        } else if enemy_near {
            Stance::Brace
        } else {
            Stance::Lowered
        },
{
    if r.charging {
        Stance::Charge
    } else if r.engaged || matches!(r.order, Some(Order::Attack(_))) {
        let b = band(r);
        if b == Band::Steady { Stance::Confident } else { Stance::Wavering }
    } else if enemy_near {
        Stance::Brace
    } else {
        Stance::Lowered
    }
}

/// Words in the GPU counter readback: living-plus-fallen per bucket, fallen
/// per bucket, the frame stamp, and padding.
pub const READBACK_WORDS: usize = 36;

/// The little-endian word at byte offset `4 * i`.
pub open spec fn le_word(bytes: Seq<u8>, i: int) -> int {
    bytes[4 * i] + 256 * bytes[4 * i + 1] + 65536 * bytes[4 * i + 2] + 16777216 * bytes[4 * i + 3]
}

/// The decoded counter readback.
pub struct Readback {
    pub living: [u32; 16],
    pub fallen: [u32; 16],
    pub frame: u32,
}

/// Decode the GPU counter readback (whole little-endian words; a trailing
/// partial word is ignored): per bucket the fallen count and the living
/// count (the bucket total less the fallen, never below zero), and the
/// frame it belongs to. A short readback decodes to nothing.
pub fn decode_readback(bytes: &Vec<u8>) -> (r: Option<Readback>)
    ensures
        bytes.len() / 4 < READBACK_WORDS ==> r is None,
        bytes.len() / 4 >= READBACK_WORDS ==> (r matches Some(rb) && {
            &&& forall|b: int| 0 <= b < 16 ==> #[trigger] rb.fallen@[b] == le_word(bytes@, 16 + b)
            &&& forall|b: int|
                0 <= b < 16 ==> #[trigger] rb.living@[b] == if le_word(bytes@, b) > le_word(bytes@, 16 + b) {
                    le_word(bytes@, b) - le_word(bytes@, 16 + b)
                } else {
                    0
                }
            &&& rb.frame == le_word(bytes@, 32)
        }),
{
    if bytes.len() / 4 < READBACK_WORDS {
        return None;
    }
    let mut living: [u32; 16] = [0; 16];
    let mut fallen: [u32; 16] = [0; 16];
    let mut b: usize = 0;
    while b < 16
        invariant
            b <= 16,
            bytes.len() / 4 >= READBACK_WORDS,
            forall|k: int| 0 <= k < b ==> #[trigger] fallen@[k] == le_word(bytes@, 16 + k),
            forall|k: int|
                0 <= k < b ==> #[trigger] living@[k] == if le_word(bytes@, k) > le_word(bytes@, 16 + k) {
                    le_word(bytes@, k) - le_word(bytes@, 16 + k)
                } else {
                    0
                },
        decreases 16 - b,
    {
        let total = word_at(bytes, b);
        let f = word_at(bytes, 16 + b);
        fallen[b] = f;
        living[b] = if total > f { total - f } else { 0 };
        b = b + 1;
    }
    let frame = word_at(bytes, 32);
    Some(Readback { living, fallen, frame })
}

fn word_at(bytes: &Vec<u8>, i: usize) -> (w: u32)
    requires
        4 * i + 3 < bytes.len(),
    ensures
        w == le_word(bytes@, i as int),
{
    let b0 = bytes[4 * i] as u32;
    let b1 = bytes[4 * i + 1] as u32;
    let b2 = bytes[4 * i + 2] as u32;
    let b3 = bytes[4 * i + 3] as u32;
    b0 + 256 * b1 + 65536 * b2 + 16777216 * b3
}

/// The largest per-bucket disagreement between the GPU counts and the CPU
/// sweep's, living or fallen.
pub fn worst_mismatch(gpu_living: &[u32; 16], gpu_fallen: &[u32; 16], cpu_living: &[u32; 16], cpu_fallen: &[u32; 16]) -> (w: u32)
    ensures
        forall|b: int|
            0 <= b < 16 ==> w >= #[trigger] abs_diff(gpu_living@[b], cpu_living@[b]) && w >= abs_diff(
                gpu_fallen@[b],
                cpu_fallen@[b],
            ),
        w == 0 || exists|b: int|
            0 <= b < 16 && (w == #[trigger] abs_diff(gpu_living@[b], cpu_living@[b]) || w == abs_diff(
                gpu_fallen@[b],
                cpu_fallen@[b],
            )),
{
    let mut worst: u32 = 0;
    let ghost mut wit: int = 0;
    let mut b: usize = 0;
    while b < 16
        invariant
            b <= 16,
            forall|k: int|
                0 <= k < b ==> worst >= #[trigger] abs_diff(gpu_living@[k], cpu_living@[k]) && worst >= abs_diff(
                    gpu_fallen@[k],
                    cpu_fallen@[k],
                ),
            worst == 0 || (0 <= wit < b && (worst == abs_diff(gpu_living@[wit], cpu_living@[wit]) || worst
                == abs_diff(gpu_fallen@[wit], cpu_fallen@[wit]))),
        decreases 16 - b,
    {
        let dl = if gpu_living[b] > cpu_living[b] { gpu_living[b] - cpu_living[b] } else { cpu_living[b] - gpu_living[b] };
        let df = if gpu_fallen[b] > cpu_fallen[b] { gpu_fallen[b] - cpu_fallen[b] } else { cpu_fallen[b] - gpu_fallen[b] };
        proof {
            assert(dl == abs_diff(gpu_living@[b as int], cpu_living@[b as int]));
            assert(df == abs_diff(gpu_fallen@[b as int], cpu_fallen@[b as int]));
        }
        if dl > worst {
            worst = dl;
            proof {
                wit = b as int;
            }
        }
        if df > worst {
            worst = df;
            proof {
                wit = b as int;
            }
        }
        proof {
            assert forall|k: int| 0 <= k < b + 1 implies worst >= #[trigger] abs_diff(gpu_living@[k], cpu_living@[k])
                && worst >= abs_diff(gpu_fallen@[k], cpu_fallen@[k]) by {
                if k < b {
                } else {
                    assert(k == b);
                }
            }
        }
        b = b + 1;
    }
    proof {
        if worst != 0 {
            assert(worst == abs_diff(gpu_living@[wit], cpu_living@[wit]) || worst == abs_diff(
                gpu_fallen@[wit],
                cpu_fallen@[wit],
            ));
        }
    }
    worst
}

/// The distance between two counts.
pub open spec fn abs_diff(a: u32, b: u32) -> u32 {
    if a > b { (a - b) as u32 } else { (b - a) as u32 }
}

/// The running GPU-against-CPU count check.
#[derive(Clone, Copy, PartialEq, Eq, Structural, Debug)]
pub struct GpuCheck {
    pub compared: u32,
    pub mismatched: u32,
    pub worst: u32,
    /// Mismatches reported in full so far (at most five are).
    pub detailed: u32,
}

/// Record one compared frame with its worst bucket disagreement. Returns
/// whether to report this mismatch in full (the first five are) and
/// whether to print the running summary (every 300 frames).
pub fn record_check(c: &mut GpuCheck, worst: u32) -> (report: (bool, bool))
    requires
        old(c).compared < u32::MAX,
        old(c).mismatched < u32::MAX,
    ensures
        final(c).compared == old(c).compared + 1,
        final(c).mismatched == old(c).mismatched + if worst > 0 { 1int } else { 0int },
        final(c).worst == if worst > old(c).worst { worst } else { old(c).worst },
        report.0 == (worst > 0 && old(c).detailed < 5),
        final(c).detailed == old(c).detailed + if report.0 { 1int } else { 0int },
        report.1 == (final(c).compared % 300 == 0),
{
    c.compared = c.compared + 1;
    let mut detail = false;
    if worst > 0 {
        c.mismatched = c.mismatched + 1;
        if worst > c.worst {
            c.worst = worst;
        }
        if c.detailed < 5 {
            c.detailed = c.detailed + 1;
            detail = true;
        }
    }
    (detail, c.compared % 300 == 0)
}

/// Index-list slots of bucket `b` in the GPU layout: a soldier of a kind
/// can land in any of its kind's levels, and the fallen share them, so
/// each bucket of kind `k` reserves `kind_cap[k] + CORPSE_CAP` slots.
pub open spec fn bucket_slots(kind_cap: Seq<usize>, b: int) -> int {
    kind_cap[b / 4] + crate::buffers::CORPSE_CAP
}

/// Slots of the first `n` buckets together.
pub open spec fn slots_before(kind_cap: Seq<usize>, n: int) -> int
    decreases n,
{
    if n <= 0 {
        0
    } else {
        slots_before(kind_cap, n - 1) + bucket_slots(kind_cap, n - 1)
    }
}

proof fn lemma_slots_before_mono(kind_cap: Seq<usize>, a: int, b: int)
    requires
        0 <= a <= b,
    ensures
        0 <= slots_before(kind_cap, a) <= slots_before(kind_cap, b),
    decreases b - a,
{
    if a < b {
        lemma_slots_before_mono(kind_cap, a, b - 1);
    } else {
        lemma_slots_before_nonneg(kind_cap, a);
    }
}

proof fn lemma_slots_before_nonneg(kind_cap: Seq<usize>, n: int)
    ensures
        0 <= slots_before(kind_cap, n),
    decreases n,
{
    if n > 0 {
        lemma_slots_before_nonneg(kind_cap, n - 1);
    }
}

/// The first index-list slot of every bucket (kind-major, then level), as
/// the 32-bit offsets the GPU reads, and the slots of all buckets together.
pub fn bucket_bases(kind_cap: &[usize; 4]) -> (r: ([u32; 16], usize))
    requires
        slots_before(kind_cap@, 16) <= usize::MAX,
    ensures
        forall|b: int| 0 <= b < 16 ==> #[trigger] r.0@[b] == slots_before(kind_cap@, b) as u32,
        r.1 == slots_before(kind_cap@, 16),
{
    let mut bases: [u32; 16] = [0; 16];
    let mut total: usize = 0;
    let mut b: usize = 0;
    while b < 16
        invariant
            b <= 16,
            total == slots_before(kind_cap@, b as int),
            slots_before(kind_cap@, 16) <= usize::MAX,
            forall|k: int| 0 <= k < b ==> #[trigger] bases@[k] == slots_before(kind_cap@, k) as u32,
        decreases 16 - b,
    {
        proof {
            lemma_slots_before_mono(kind_cap@, b + 1, 16);
        }
        bases[b] = total as u32;
        total = total + kind_cap[b / 4] + crate::buffers::CORPSE_CAP;
        b = b + 1;
    }
    (bases, total)
}

/// The GPU buffers need to grow: none are allocated yet, or the live
/// capacity or some kind's capacity is short of what the snapshot needs.
pub open spec fn must_grow(old: Option<(usize, [usize; 4])>, n: usize, need: Seq<usize>) -> bool {
    match old {
        None => true,
        Some((live, kc)) => live < n || exists|k: int| 0 <= k < 4 && #[trigger] kc@[k] < need[k],
    }
}

/// The GPU buffer regrowth policy for `n` soldiers of which `need[k]` are
/// of kind `k`: when the buffers must grow, the new live capacity is
/// `n + n / 4` (at least 1024) and each kind keeps the larger of its old
/// capacity, its need and 256. Returns the new capacities, or nothing when
/// the allocation stands.
pub fn grow_alloc(old: Option<(usize, [usize; 4])>, n: usize, need: &[usize; 4]) -> (r: Option<(usize, [usize; 4])>)
    requires
        n + n / 4 <= usize::MAX,
    ensures
        !must_grow(old, n, need@) ==> r is None,
        must_grow(old, n, need@) ==> (r matches Some((live, kc)) && {
            &&& live == if n + n / 4 > 1024 { (n + n / 4) as int } else { 1024 }
            &&& forall|k: int|
                0 <= k < 4 ==> #[trigger] kc@[k] == {
                    let o: int = match old {
                        Some((_, c)) => c@[k] as int,
                        None => 0,
                    };
                    let m = if o > need@[k] { o } else { need@[k] as int };
                    if m > 256 { m } else { 256 }
                }
        }),
{
    let grow = match old {
        None => true,
        Some((live, kc)) => {
            let mut short = live < n;
            let mut k: usize = 0;
            while k < 4
                invariant
                    k <= 4,
                    short == (live < n || exists|j: int| 0 <= j < k && #[trigger] kc@[j] < need@[j]),
                decreases 4 - k,
            {
                if kc[k] < need[k] {
                    short = true;
                }
                k = k + 1;
            }
            short
        },
    };
    if !grow {
        return None;
    }
    let live = if n + n / 4 > 1024 { n + n / 4 } else { 1024 };
    let oldc: [usize; 4] = match old {
        Some((_, c)) => c,
        None => [0, 0, 0, 0],
    };
    let mut kc: [usize; 4] = [0, 0, 0, 0];
    let mut k: usize = 0;
    while k < 4
        invariant
            k <= 4,
            oldc@ == match old {
                Some((_, c)) => c@,
                None => seq![0usize, 0usize, 0usize, 0usize],
            },
            forall|j: int|
                0 <= j < k ==> #[trigger] kc@[j] == {
                    let o: int = match old {
                        Some((_, c)) => c@[j] as int,
                        None => 0,
                    };
                    let m = if o > need@[j] { o } else { need@[j] as int };
                    if m > 256 { m } else { 256 }
                },
        decreases 4 - k,
    {
        let m = if oldc[k] > need[k] { oldc[k] } else { need[k] };
        kc[k] = if m > 256 { m } else { 256 };
        k = k + 1;
    }
    Some((live, kc))
}

} // verus!
