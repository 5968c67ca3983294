//! The morale state machine (steady, routing, shattered), the outflank
//! ring's safe arc, and army leadership. The morale LEVEL itself is a sum
//! of floating-point modifiers computed by the game; this module takes the
//! outcome of its threshold tests and decides.
use vstd::prelude::*;
use crate::regiment::{GroupData, RegState, KIND_HEAVY};

verus! {

/// Sectors of the flank-probe ring around a regiment.
pub const RING_SECTORS: usize = 8;

/// Sector `s` of the ring, counting around it past the last sector.
pub open spec fn sector(hostile: Seq<bool>, s: int) -> bool {
    hostile[s % 8]
}

/// The `len` sectors from `start` on, going round the ring, are all free
/// of hostiles.
pub open spec fn arc_safe(hostile: Seq<bool>, start: int, len: int) -> bool {
    forall|j: int| 0 <= j < len ==> !#[trigger] sector(hostile, start + j)
}

/// Length of the longest run of hostile-free sectors around the ring (at
/// most the whole ring). A frontal contact of three adjacent hostile
/// sectors leaves a run of five; a full encirclement leaves none.
pub fn safe_run(hostile: &[bool; 8]) -> (best: usize)
    ensures
        best <= 8,
        forall|start: int, len: int|
            0 <= start < 8 && 0 <= len <= 8 && arc_safe(hostile@, start, len) ==> len <= best,
        exists|start: int| 0 <= start < 8 && arc_safe(hostile@, start, best as int),
{
    let ghost h = hostile@;
    let mut best: usize = 0;
    let mut run: usize = 0;
    let mut s: usize = 0;
    proof {
        assert(arc_safe(h, 0, 0));
        assert(0 + best <= s);
    }
    while s < 16
        invariant
            h == hostile@,
            h.len() == 8,
            s <= 16,
            run <= s,
            best <= s,
            // the run ending just before `s` is safe and maximal
            forall|j: int| 0 <= j < run ==> !#[trigger] sector(h, s - 1 - j),
            run < s ==> sector(h, s - 1 - run),
            // every arc ending before `s` is no longer than `best`
            forall|start: int, len: int|
                0 <= start < 8 && 1 <= len <= 8 && start + len <= s && arc_safe(h, start, len)
                    ==> len <= best,
            // `best` is achieved by a safe arc
            exists|st: int| 0 <= st && st + best <= s && #[trigger] arc_safe(h, st, best as int),
        decreases 16 - s,
    {
        let ghost old_run = run;
        let ghost old_best = best;
        if hostile[s % 8] {
            run = 0;
        } else {
            run = run + 1;
            if run > best {
                best = run;
            }
        }
        proof {
            assert(sector(h, s as int) == hostile@[(s % 8) as int]);
            if !hostile@[(s % 8) as int] {
                assert forall|j: int| 0 <= j < run implies !#[trigger] sector(h, s + 1 - 1 - j) by {
                    if j > 0 {
                        assert(!sector(h, s - 1 - (j - 1)));
                    }
                }
            }
            assert forall|start: int, len: int|
                0 <= start < 8 && 1 <= len <= 8 && start + len <= s + 1 && arc_safe(h, start, len)
                    implies len <= best by {
                if start + len == s + 1 {
                    assert(!sector(h, start + (len - 1)));
                    if len > run {
                        // position s - run lies inside the arc and is hostile
                        if old_run < s {
                            let j = len - 1 - old_run - 1;
                            assert(start + j == s - 1 - old_run);
                            assert(!sector(h, start + j));
                        }
                    }
                }
            }
            if best != old_best {
                let st = s + 1 - best;
                assert forall|j: int| 0 <= j < best implies !#[trigger] sector(h, st + j) by {
                    assert(st + j == s + 1 - 1 - (best - 1 - j));
                }
                assert(arc_safe(h, st, best as int));
            } else {
                let st = choose|st: int| 0 <= st && st + best <= s && #[trigger] arc_safe(h, st, best as int);
                assert(st + best <= s + 1);
            }
        }
        s = s + 1;
    }
    let out: usize = if best > 8 { 8 } else { best };
    proof {
        let st0 = choose|st: int| 0 <= st && st + best <= 16 && #[trigger] arc_safe(h, st, best as int);
        let st = st0 % 8;
        assert forall|j: int| 0 <= j < out implies !#[trigger] sector(h, st + j) by {
            assert((st + j) % 8 == (st0 + j) % 8);
            assert(!sector(h, st0 + j));
        }
        assert(arc_safe(h, st, out as int));
    }
    out
}

/// The morale band a regiment shows: wavering before shaken before
/// steady.
#[derive(Clone, Copy, PartialEq, Eq, Structural, Debug)]
pub enum Band {
    Steady,
    Shaken,
    Wavering,
}

/// The band read off a regiment's morale flags.
pub open spec fn band_of<P>(r: GroupData<P>) -> Band {
    if r.wavering {
        Band::Wavering
    } else if r.shaken {
        Band::Shaken
    } else {
        Band::Steady
    }
}

/// The morale band of a regiment (see `band_of`).
pub fn band<P>(r: &GroupData<P>) -> (b: Band)
    ensures
        b == band_of(*r),
{
    if r.wavering {
        Band::Wavering
    } else if r.shaken {
        Band::Shaken
    } else {
        Band::Steady
    }
}

/// One morale tick of a regiment, given the outcome of the level tests:
/// `at_shaken` and `at_waver` (the level is at or below the shaken or
/// the wavering line), `at_rout` (at or below the rout line), `held` (it
/// has sat there long enough, the anti-thrash hold), `shatter` (a broken
/// regiment below the shatter fraction of its strength) and `rally` (long
/// enough broken, and the level climbed back over the rally line). A
/// steady regiment takes its shaken and wavering flags from the tests,
/// also on the tick it breaks; a broken one carries neither. The tick's
/// deaths and kills have been read into the exchange and start over; a
/// regiment with no men left changes nothing else.
pub open spec fn morale_next<P>(
    r: GroupData<P>,
    tick: u32,
    at_shaken: bool,
    at_waver: bool,
    at_rout: bool,
    held: bool,
    shatter: bool,
    rally: bool,
) -> GroupData<P> {
    let r = GroupData { recent_deaths: 0, recent_kills: 0, ..r };
    if r.count == 0 {
        r
    } else {
        match r.state {
            RegState::Steady => {
                let r = GroupData { shaken: at_shaken, wavering: at_waver, ..r };
                if at_rout {
                    if held {
                        GroupData { state: RegState::Routing { since: tick }, order: None, break_ticks: 0, ..r }
                    } else {
                        GroupData {
                            break_ticks: if r.break_ticks == u8::MAX { u8::MAX } else { (r.break_ticks + 1) as u8 },
                            ..r
                        }
                    }
                } else {
                    GroupData { break_ticks: 0, ..r }
                }
            },
            RegState::Routing { since } => {
                let r = GroupData { shaken: false, wavering: false, ..r };
                if shatter {
                    GroupData { state: RegState::Shattered, ..r }
                } else if rally {
                    GroupData { state: RegState::Steady, anchor: r.centroid, reform: true, ..r }
                } else {
                    r
                }
            },
            RegState::Shattered => GroupData { shaken: false, wavering: false, ..r },
        }
    }
}

/// Apply one morale tick (see `morale_next`). A rallied regiment re-forms
/// where the rout ended; its facing is the caller's.
pub fn morale_step<P: Copy>(
    r: &mut GroupData<P>,
    tick: u32,
    at_shaken: bool,
    at_waver: bool,
    at_rout: bool,
    held: bool,
    shatter: bool,
    rally: bool,
)
    ensures
        *final(r) == morale_next(*old(r), tick, at_shaken, at_waver, at_rout, held, shatter, rally),
{
    let base = GroupData { recent_deaths: 0, recent_kills: 0, ..*r };
    if base.count == 0 {
        *r = base;
        return;
    }
    let next = match base.state {
        RegState::Steady => {
            let s = GroupData { shaken: at_shaken, wavering: at_waver, ..base };
            if !at_rout {
                GroupData { break_ticks: 0, ..s }
            } else if held {
                GroupData { state: RegState::Routing { since: tick }, order: None, break_ticks: 0, ..s }
            } else {
                let b: u8 = if s.break_ticks == u8::MAX { u8::MAX } else { s.break_ticks + 1 };
                GroupData { break_ticks: b, ..s }
            }
        },
        RegState::Routing { since: _ } => {
            let s = GroupData { shaken: false, wavering: false, ..base };
            if shatter {
                GroupData { state: RegState::Shattered, ..s }
            } else if rally {
                GroupData { state: RegState::Steady, anchor: s.centroid, reform: true, ..s }
            } else {
                s
            }
        },
        RegState::Shattered => GroupData { shaken: false, wavering: false, ..base },
    };
    *r = next;
}

/// A shattered regiment never rallies: whatever the level does, it stays
/// shattered, and nothing but the tick's tallies and the morale flags
/// changes; with men left, it shows neither flag.
pub proof fn law_shattered_is_final<P>(
    r: GroupData<P>,
    tick: u32,
    at_shaken: bool,
    at_waver: bool,
    at_rout: bool,
    held: bool,
    shatter: bool,
    rally: bool,
)
    requires
        r.state == RegState::Shattered,
    ensures
        ({
            let n = morale_next(r, tick, at_shaken, at_waver, at_rout, held, shatter, rally);
            &&& n == (GroupData {
                recent_deaths: 0,
                recent_kills: 0,
                shaken: n.shaken,
                wavering: n.wavering,
                ..r
            })
            &&& r.count > 0 ==> !n.shaken && !n.wavering
        }),
{
}

/// A steady regiment only breaks after its level has sat at the rout line
/// for the hold time: a single spiked tick never breaks it, and breaking
/// drops its order.
pub proof fn law_break_needs_hold<P>(
    r: GroupData<P>,
    tick: u32,
    at_shaken: bool,
    at_waver: bool,
    at_rout: bool,
    held: bool,
    shatter: bool,
    rally: bool,
)
    requires
        r.state == RegState::Steady,
    ensures
        morale_next(r, tick, at_shaken, at_waver, at_rout, held, shatter, rally).state.spec_is_broken() <==> (
        at_rout && held && r.count > 0),
        morale_next(r, tick, at_shaken, at_waver, at_rout, held, shatter, rally).state.spec_is_broken()
            ==> morale_next(r, tick, at_shaken, at_waver, at_rout, held, shatter, rally).order is None,
{
}

/// A broken regiment never becomes shattered and steady at once: it
/// shatters in preference to rallying, and only a routing one rallies.
/// It comes back carrying neither the shaken nor the wavering flag.
pub proof fn law_rally_only_from_routing<P>(
    r: GroupData<P>,
    tick: u32,
    at_shaken: bool,
    at_waver: bool,
    at_rout: bool,
    held: bool,
    shatter: bool,
    rally: bool,
)
    requires
        r.state.spec_is_broken(),
        morale_next(r, tick, at_shaken, at_waver, at_rout, held, shatter, rally).state == RegState::Steady,
    ensures
        r.state is Routing,
        !shatter,
        rally,
        band_of(morale_next(r, tick, at_shaken, at_waver, at_rout, held, shatter, rally)) == Band::Steady,
{
}

/// A routing regiment with men left keeps routing, from the tick it broke,
/// until one of the two tests decides otherwise: it shatters exactly when
/// the shatter test holds, and rallies to steady exactly when the rally
/// test holds and the shatter test does not.
pub proof fn law_routing_keeps_routing<P>(
    r: GroupData<P>,
    tick: u32,
    at_shaken: bool,
    at_waver: bool,
    at_rout: bool,
    held: bool,
    shatter: bool,
    rally: bool,
)
    requires
        r.state is Routing,
        r.count > 0,
    ensures
        ({
            let n = morale_next(r, tick, at_shaken, at_waver, at_rout, held, shatter, rally);
            &&& !shatter && !rally ==> n.state == r.state
            &&& n.state == RegState::Shattered <==> shatter
            &&& n.state == RegState::Steady <==> rally && !shatter
            &&& n.count == r.count
        }),
{
}

/// The first regiment among the first `n` of team `team` with men left,
/// of kind `kind` when `heavy_only`.
pub open spec fn first_of<P>(regs: Seq<GroupData<P>>, team: u8, heavy_only: bool, n: int) -> Option<int>
    decreases n,
{
    if n <= 0 {
        None
    } else {
        match first_of(regs, team, heavy_only, n - 1) {
            Some(i) => Some(i),
            None => if regs[n - 1].team == team && regs[n - 1].count > 0 && (!heavy_only
                || regs[n - 1].kind == KIND_HEAVY) {
                Some(n - 1)
            } else {
                None
            },
        }
    }
}

proof fn lemma_first_of_range<P>(regs: Seq<GroupData<P>>, team: u8, heavy_only: bool, n: int)
    ensures
        first_of(regs, team, heavy_only, n) matches Some(i) ==> 0 <= i < n,
    decreases n,
{
    if n > 0 {
        lemma_first_of_range(regs, team, heavy_only, n - 1);
    }
}

/// Side `team` already has a command regiment.
pub open spec fn has_leader<P>(regs: Seq<GroupData<P>>, team: u8) -> bool {
    exists|g: int| 0 <= g < regs.len() && (#[trigger] regs[g]).leader && regs[g].team == team
}

/// The regiment that takes command of side `team`: the first heavy
/// regiment with men left (the captain rides with the armor), else the
/// first regiment with men left.
pub open spec fn command_pick<P>(regs: Seq<GroupData<P>>, team: u8) -> Option<int> {
    match first_of(regs, team, true, regs.len() as int) {
        Some(i) => Some(i),
        None => first_of(regs, team, false, regs.len() as int),
    }
}

fn find_first<P>(regs: &Vec<GroupData<P>>, team: u8, heavy_only: bool) -> (out: Option<usize>)
    ensures
        match out {
            Some(i) => first_of(regs@, team, heavy_only, regs.len() as int) == Some(i as int),
            None => first_of(regs@, team, heavy_only, regs.len() as int) is None,
        },
{
    let mut g: usize = 0;
    while g < regs.len()
        invariant
            g <= regs.len(),
            first_of(regs@, team, heavy_only, g as int) is None,
        decreases regs.len() - g,
    {
        let r = &regs[g];
        if r.team == team && r.count > 0 && (!heavy_only || r.kind == KIND_HEAVY) {
            proof {
                assert(first_of(regs@, team, heavy_only, g + 1) == Some(g as int));
                lemma_first_of_prefix(regs@, team, heavy_only, g + 1, regs.len() as int);
            }
            return Some(g);
        }
        g = g + 1;
    }
    None
}

proof fn lemma_first_of_prefix<P>(regs: Seq<GroupData<P>>, team: u8, heavy_only: bool, i: int, n: int)
    requires
        i <= n,
        first_of(regs, team, heavy_only, i) is Some,
    ensures
        first_of(regs, team, heavy_only, n) == first_of(regs, team, heavy_only, i),
    decreases n - i,
{
    if i < n {
        lemma_first_of_prefix(regs, team, heavy_only, i, n - 1);
    }
}

fn side_has_leader<P>(regs: &Vec<GroupData<P>>, team: u8) -> (b: bool)
    ensures
        b == has_leader(regs@, team),
{
    let mut g: usize = 0;
    while g < regs.len()
        invariant
            g <= regs.len(),
            forall|h: int| 0 <= h < g ==> !((#[trigger] regs@[h]).leader && regs@[h].team == team),
        decreases regs.len() - g,
    {
        if regs[g].leader && regs[g].team == team {
            return true;
        }
        g = g + 1;
    }
    false
}

/// Every army is led: a side without a command regiment gets one (see
/// `command_pick`), assigned once for the battle. Only `leader` flags
/// change.
#[verifier::rlimit(40)]
pub fn assign_leader<P: Copy>(regs: &mut Vec<GroupData<P>>, team: u8)
    ensures
        final(regs).len() == old(regs).len(),
        has_leader(old(regs)@, team) || command_pick(old(regs)@, team) is None ==> final(regs)@
            == old(regs)@,
        !has_leader(old(regs)@, team) && command_pick(old(regs)@, team) is Some ==> final(regs)@
            == old(regs)@.update(
            command_pick(old(regs)@, team)->0,
            GroupData { leader: true, ..old(regs)@[command_pick(old(regs)@, team)->0] },
        ),
{
    if side_has_leader(regs, team) {
        return;
    }
    let pick = match find_first(regs, team, true) {
        Some(i) => Some(i),
        None => find_first(regs, team, false),
    };
    match pick {
        Some(i) => {
            proof {
                lemma_first_of_range(regs@, team, true, regs.len() as int);
                lemma_first_of_range(regs@, team, false, regs.len() as int);
            }
            let r = GroupData { leader: true, ..regs[i] };
            regs.set(i, r);
        },
        None => {},
    }
}

/// The state of an army's leadership this tick.
#[derive(Clone, Copy, PartialEq, Eq, Structural, Debug)]
pub enum Leadership {
    /// The command regiment stands: the army-wide bonus applies.
    Standing,
    /// The command regiment fell (broke or died) on tick `since`: the
    /// shock, then the permanent loss.
    Fallen { since: u32 },
    /// No command regiment was ever assigned.
    Unled,
}

/// The command regiment of `team` stands: men left and not broken.
pub open spec fn leader_stands<P>(regs: Seq<GroupData<P>>, team: u8) -> bool {
    exists|g: int|
        0 <= g < regs.len() && (#[trigger] regs[g]).leader && regs[g].team == team && regs[g].count
            > 0 && !regs[g].state.spec_is_broken()
}

/// Track the leadership of side `team` on tick `tick` (a tick number of
/// at least 1). `lost` remembers the tick the commander fell (0 while he
/// stands); a rallied command regiment takes back up its standard.
pub fn leadership<P>(regs: &Vec<GroupData<P>>, team: u8, tick: u32, lost: &mut u32) -> (l: Leadership)
    requires
        tick > 0,
    ensures
        leader_stands(regs@, team) ==> l == Leadership::Standing && *final(lost) == 0,
        !leader_stands(regs@, team) && has_leader(regs@, team) ==> {
            &&& *final(lost) == if *old(lost) == 0 { tick } else { *old(lost) }
            &&& l == Leadership::Fallen { since: *final(lost) }
        },
        !leader_stands(regs@, team) && !has_leader(regs@, team) ==> l == Leadership::Unled
            && *final(lost) == *old(lost),
{
    let mut g: usize = 0;
    while g < regs.len()
        invariant
            g <= regs.len(),
            *lost == *old(lost),
            forall|h: int|
                0 <= h < g ==> !((#[trigger] regs@[h]).leader && regs@[h].team == team
                    && regs@[h].count > 0 && !regs@[h].state.spec_is_broken()),
        decreases regs.len() - g,
    {
        let r = &regs[g];
        if r.leader && r.team == team && r.count > 0 && !r.state.is_broken() {
            *lost = 0;
            return Leadership::Standing;
        }
        g = g + 1;
    }
    if side_has_leader(regs, team) {
        if *lost == 0 {
            *lost = tick;
        }
        Leadership::Fallen { since: *lost }
    } else {
        Leadership::Unled
    }
}

} // verus!
