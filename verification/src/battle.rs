//! Army-level decisions: the battle outcome, at-ease engagement (an idle
//! regiment defends itself, and stands down when its target is finished),
//! and the skirmish AI's target bookkeeping.
use vstd::prelude::*;
use crate::regiment::{GroupData, Order, FormShape, RegState, targets_in_range};

verus! {

/// The enemy side, driven by the skirmish AI.
pub const AI_TEAM: u8 = 1;

/// A regiment still fighting: men left and not broken.
pub open spec fn fighting<P>(r: GroupData<P>) -> bool {
    r.count > 0 && !r.state.spec_is_broken()
}

/// Side `team` still has a fighting regiment.
pub open spec fn side_fights<P>(regs: Seq<GroupData<P>>, team: u8) -> bool {
    exists|g: int| 0 <= g < regs.len() && (#[trigger] regs[g]).team == team && fighting(regs[g])
}

/// The outcome once the fighting is decided: 0 = the player won, 1 = the
/// enemy won, 2 = both armies are broken; `None` while both fight.
pub open spec fn outcome_of<P>(regs: Seq<GroupData<P>>) -> Option<u8> {
    let a = side_fights(regs, 0);
    let b = side_fights(regs, 1);
    if a && !b {
        Some(0u8)
    } else if !a && b {
        Some(1u8)
    } else if !a && !b {
        Some(2u8)
    } else {
        None
    }
}

/// Whether side `team` still has a fighting regiment.
pub fn side_is_fighting<P>(regs: &Vec<GroupData<P>>, team: u8) -> (b: bool)
    ensures
        b == side_fights(regs@, team),
{
    let mut g: usize = 0;
    while g < regs.len()
        invariant
            g <= regs.len(),
            forall|h: int| 0 <= h < g ==> !((#[trigger] regs@[h]).team == team && fighting(regs@[h])),
        decreases regs.len() - g,
    {
        if regs[g].team == team && regs[g].count > 0 && !regs[g].state.is_broken() {
            return true;
        }
        g = g + 1;
    }
    false
}

/// The battle stays undecided while each side has at least one regiment
/// with men left and steady, whatever its other regiments' states.
pub proof fn law_undecided_while_both_fight<P>(regs: Seq<GroupData<P>>, a: int, b: int)
    requires
        0 <= a < regs.len(),
        0 <= b < regs.len(),
        regs[a].team == 0,
        regs[a].count > 0,
        regs[a].state == RegState::Steady,
        regs[b].team == 1,
        regs[b].count > 0,
        regs[b].state == RegState::Steady,
    ensures
        outcome_of(regs) is None,
{
    assert(regs[a].team == 0 && fighting(regs[a]));
    assert(regs[b].team == 1 && fighting(regs[b]));
}

/// A side with no regiment that has men left and is steady is beaten:
/// the other side wins if it still has one, else both armies are broken.
pub proof fn law_beaten_side<P>(regs: Seq<GroupData<P>>, loser: u8)
    requires
        loser < 2,
        forall|g: int|
            0 <= g < regs.len() && (#[trigger] regs[g]).team == loser ==> regs[g].count == 0
                || regs[g].state != RegState::Steady,
    ensures
        outcome_of(regs) is Some,
        outcome_of(regs) == Some((1 - loser) as u8) || outcome_of(regs) == Some(2u8),
        (exists|g: int| 0 <= g < regs.len() && (#[trigger] regs[g]).team == 1 - loser && regs[g].count > 0
            && regs[g].state == RegState::Steady) ==> outcome_of(regs) == Some((1 - loser) as u8),
{
    if exists|g: int| 0 <= g < regs.len() && (#[trigger] regs[g]).team == 1 - loser && regs[g].count > 0
        && regs[g].state == RegState::Steady {
        let g = choose|g: int| 0 <= g < regs.len() && (#[trigger] regs[g]).team == 1 - loser && regs[g].count > 0
            && regs[g].state == RegState::Steady;
        assert(regs[g].team == 1 - loser && fighting(regs[g]));
    }
}

/// The battle's outcome, set once when one side has no fighting regiments
/// left: the winning team, or 2 when both armies are broken.
#[derive(Clone, Copy, PartialEq, Eq, Structural, Debug)]
pub struct BattleOutcome(pub Option<u8>);

/// Decide the battle: a side is defeated when it has no steady regiment
/// with men left. A decided outcome never changes, and an empty field
/// decides nothing.
pub fn check_victory<P>(regs: &Vec<GroupData<P>>, outcome: &mut BattleOutcome)
    ensures
        old(outcome).0.is_some() || regs.len() == 0 ==> *final(outcome) == *old(outcome),
        old(outcome).0.is_none() && regs.len() > 0 ==> final(outcome).0 == outcome_of(regs@),
{
    if outcome.0.is_some() || regs.len() == 0 {
        return;
    }
    let a = side_is_fighting(regs, 0);
    let b = side_is_fighting(regs, 1);
    if a && !b {
        outcome.0 = Some(0);
    } else if !a && b {
        outcome.0 = Some(1);
    } else if !a && !b {
        outcome.0 = Some(2);
    }
}

/// At-ease rule for regiment `g`. An alive, unbroken regiment not holding
/// position whose automatic attack target is gone or broken stands down
/// where it is. An idle one (no order, not engaged) attacks `engage`, the
/// nearest unbroken enemy regiment inside at-ease range, as an automatic
/// order; a Rect block that must turn (`turn`) re-forms.
pub open spec fn at_ease<P>(regs: Seq<GroupData<P>>, g: int, engage: Option<u32>, turn: bool) -> GroupData<P> {
    let r = regs[g];
    if r.count == 0 || r.state.spec_is_broken() || r.hold {
        r
    } else if r.auto_order && r.order is Some && r.order->0 is Attack {
        let tg = r.order->0->Attack_0;
        if regs[tg as int].count == 0 || regs[tg as int].state.spec_is_broken() {
            GroupData { order: None, auto_order: false, anchor: r.centroid, ..r }
        } else {
            r
        }
    } else if r.order.is_some() || r.engaged {
        r
    } else {
        match engage {
            Some(tg) => GroupData {
                order: Some(Order::Attack(tg)),
                auto_order: true,
                reform: r.reform || (r.shape == FormShape::Rect && turn),
                ..r
            },
            None => r,
        }
    }
}

/// At ease touches only its own business: a regiment that holds position,
/// has no men or is broken, or carries an order the player gave, is left
/// exactly as it is; an idle steady one with an enemy in range attacks it
/// by an automatic order; and an automatic attack ends only when its
/// target is wiped out or broken.
pub proof fn law_at_ease_scope<P>(regs: Seq<GroupData<P>>, g: int, engage: Option<u32>, turn: bool)
    requires
        0 <= g < regs.len(),
    ensures
        ({
            let r = regs[g];
            let n = at_ease(regs, g, engage, turn);
            &&& r.hold || r.count == 0 || r.state != RegState::Steady ==> n == r
            &&& !r.auto_order && r.order is Some ==> n == r
            &&& n.count == r.count && n.state == r.state && n.team == r.team
            &&& !r.hold && r.count > 0 && r.state == RegState::Steady && r.order is None && !r.engaged
                && engage is Some ==> n.order == Some(Order::<P>::Attack(engage->0)) && n.auto_order
            &&& r.order == Some(Order::<P>::Attack(t_of(r))) && r.auto_order && n.order is None ==> (regs[t_of(
                r) as int].count == 0 || regs[t_of(r) as int].state != RegState::Steady)
            &&& n.order != r.order && n.order is Some ==> n.auto_order
        }),
{
}

/// The target of an attack order (0 for anything else).
pub open spec fn t_of<P>(r: GroupData<P>) -> u32 {
    match r.order {
        Some(Order::Attack(t)) => t,
        _ => 0,
    }
}

fn at_ease_step<P: Copy>(regs: &Vec<GroupData<P>>, g: usize, engage: Option<u32>, turn: bool) -> (out: Option<GroupData<P>>)
    requires
        g < regs.len(),
        targets_in_range(regs@),
    ensures
        match out {
            Some(r) => r == at_ease(regs@, g as int, engage, turn),
            None => at_ease(regs@, g as int, engage, turn) == regs@[g as int],
        },
{
    let r = &regs[g];
    if r.count == 0 || r.state.is_broken() || r.hold {
        return None;
    }
    if r.auto_order {
        match r.order {
            Some(Order::Attack(tg)) => {
                assert(tg < regs.len());
                if regs[tg as usize].count == 0 || regs[tg as usize].state.is_broken() {
                    return Some(GroupData { order: None, auto_order: false, anchor: r.centroid, ..*r });
                }
                return None;
            },
            _ => {},
        }
    }
    if r.order.is_some() || r.engaged {
        return None;
    }
    match engage {
        Some(tg) => Some(GroupData {
            order: Some(Order::Attack(tg)),
            auto_order: true,
            reform: r.reform || (r.shape == FormShape::Rect && turn),
            ..*r
        }),
        None => None,
    }
}

/// At ease, for both armies: an idle steady regiment not in hold attacks
/// an unbroken enemy that comes close on its own initiative (`engage[g]`,
/// the nearest one inside range), and stands down when an automatically
/// engaged target breaks or dies instead of pursuing it across the map.
#[verifier::rlimit(40)]
pub fn auto_engage<P: Copy>(regs: &mut Vec<GroupData<P>>, engage: &Vec<Option<u32>>, turn: &Vec<bool>)
    requires
        targets_in_range(old(regs)@),
        engage.len() == old(regs).len(),
        turn.len() == old(regs).len(),
        forall|g: int| 0 <= g < engage.len() ==> match #[trigger] engage@[g] {
            Some(t) => t < old(regs).len(),
            None => true,
        },
    ensures
        targets_in_range(old(regs)@) ==> targets_in_range(final(regs)@),
        final(regs).len() == old(regs).len(),
        forall|g: int|
            0 <= g < old(regs).len() ==> #[trigger] final(regs)@[g] == at_ease(
                old(regs)@,
                g,
                engage@[g],
                turn@[g],
            ),
{
    let ghost orig = regs@;
    let n = regs.len();
    let mut g: usize = 0;
    while g < n
        invariant
            n == regs.len(),
            n == orig.len(),
            engage.len() == n,
            turn.len() == n,
            forall|h: int| 0 <= h < n ==> match #[trigger] engage@[h] {
                Some(t) => t < n,
                None => true,
            },
            targets_in_range(orig),
            targets_in_range(regs@),
            g <= n,
            forall|h: int|
                0 <= h < n ==> (#[trigger] regs@[h]).count == orig[h].count && regs@[h].state
                    == orig[h].state,
            forall|h: int|
                0 <= h < n ==> #[trigger] regs@[h] == if h < g {
                    at_ease(orig, h, engage@[h], turn@[h])
                } else {
                    orig[h]
                },
        decreases n - g,
    {
        assert(at_ease(regs@, g as int, engage@[g as int], turn@[g as int]) == at_ease(
            orig,
            g as int,
            engage@[g as int],
            turn@[g as int],
        ));
        let step = at_ease_step(regs, g, engage[g], turn[g]);
        match step {
            Some(r) => {
                let ghost before = regs@;
                regs.set(g, r);
                assert forall|h: int| 0 <= h < n implies match #[trigger] regs@[h].order {
                    Some(Order::Attack(t)) => t < n,
                    _ => true,
                } by {
                    if h != g {
                        assert(regs@[h] == before[h]);
                    } else {
                        assert(engage@[h] matches Some(t) ==> t < n);
                    }
                }
            },
            None => {},
        }
        g = g + 1;
    }
}

/// A regiment the skirmish AI may give a new order: its own, alive,
/// steady, idle and not engaged.
pub open spec fn ai_idle<P>(r: GroupData<P>) -> bool {
    r.team == AI_TEAM && r.count > 0 && !r.state.spec_is_broken() && r.order is None && !r.engaged
}

pub fn is_ai_idle<P>(r: &GroupData<P>) -> (b: bool)
    ensures
        b == ai_idle(*r),
{
    r.team == AI_TEAM && r.count > 0 && !r.state.is_broken() && r.order.is_none() && !r.engaged
}

/// A player regiment the AI may still target: not its own, alive, steady.
pub open spec fn ai_target_ok<P>(r: GroupData<P>) -> bool {
    r.team != AI_TEAM && r.count > 0 && !r.state.spec_is_broken()
}

pub fn is_ai_target<P>(r: &GroupData<P>) -> (b: bool)
    ensures
        b == ai_target_ok(*r),
{
    r.team != AI_TEAM && r.count > 0 && !r.state.is_broken()
}

/// How many AI regiments are committed to player regiment `t`, among the
/// first `n` assignments.
pub open spec fn load_of<P>(regs: Seq<GroupData<P>>, targets: Seq<Option<usize>>, t: int, n: int) -> int
    decreases n,
{
    if n <= 0 {
        0
    } else {
        load_of(regs, targets, t, n - 1) + if regs[n - 1].team == AI_TEAM && targets[n - 1] == Some(
            t as usize,
        ) {
            1int
        } else {
            0
        }
    }
}

proof fn lemma_load_bound<P>(regs: Seq<GroupData<P>>, targets: Seq<Option<usize>>, t: int, n: int)
    requires
        0 <= n,
    ensures
        0 <= load_of(regs, targets, t, n) <= n,
    decreases n,
{
    if n > 0 {
        lemma_load_bound(regs, targets, t, n - 1);
    }
}

/// The AI's standing assignments, one per regiment: assignments whose
/// target is gone or broken are dropped, and the commitment load of each
/// player regiment (the spread penalty's input) is counted.
pub fn prune_targets<P>(regs: &Vec<GroupData<P>>, targets: &mut Vec<Option<usize>>) -> (load: Vec<u32>)
    requires
        old(targets).len() == regs.len(),
        regs.len() <= u32::MAX,
        forall|g: int| 0 <= g < old(targets).len() ==> match #[trigger] old(targets)@[g] {
            Some(t) => t < regs.len(),
            None => true,
        },
    ensures
        final(targets).len() == regs.len(),
        forall|g: int|
            0 <= g < regs.len() ==> #[trigger] final(targets)@[g] == match old(targets)@[g] {
                Some(t) => if ai_target_ok(regs@[t as int]) {
                    Some(t)
                } else {
                    None
                },
                None => None,
            },
        load.len() == regs.len(),
        forall|t: int|
            0 <= t < regs.len() ==> #[trigger] load@[t] == load_of(
                regs@,
                final(targets)@,
                t,
                regs.len() as int,
            ),
{
    let n = regs.len();
    let ghost orig = targets@;
    let mut g: usize = 0;
    while g < n
        invariant
            n == regs.len(),
            targets.len() == n,
            orig.len() == n,
            g <= n,
            forall|h: int| 0 <= h < n ==> match #[trigger] orig[h] {
                Some(t) => t < n,
                None => true,
            },
            forall|h: int|
                0 <= h < n ==> #[trigger] targets@[h] == if h < g {
                    match orig[h] {
                        Some(t) => if ai_target_ok(regs@[t as int]) {
                            Some(t)
                        } else {
                            None
                        },
                        None => None,
                    }
                } else {
                    orig[h]
                },
        decreases n - g,
    {
        match targets[g] {
            Some(t) => {
                assert(orig[g as int] == Some(t));
                if !is_ai_target(&regs[t]) {
                    targets.set(g, None);
                }
            },
            None => {},
        }
        g = g + 1;
    }
    let mut load: Vec<u32> = Vec::new();
    let mut t: usize = 0;
    while t < n
        invariant
            n == regs.len(),
            targets.len() == n,
            n <= u32::MAX,
            t <= n,
            load.len() == t,
            forall|k: int| 0 <= k < t ==> #[trigger] load@[k] == load_of(regs@, targets@, k, n as int),
        decreases n - t,
    {
        let mut c: u32 = 0;
        let mut g: usize = 0;
        while g < n
            invariant
                n == regs.len(),
                targets.len() == n,
                n <= u32::MAX,
                t < n,
                g <= n,
                c == load_of(regs@, targets@, t as int, g as int),
            decreases n - g,
        {
            proof {
                lemma_load_bound(regs@, targets@, t as int, g as int);
            }
            if regs[g].team == AI_TEAM {
                match targets[g] {
                    Some(x) => {
                        if x == t {
                            c = c + 1;
                        }
                    },
                    None => {},
                }
            }
            g = g + 1;
        }
        load.push(c);
        t = t + 1;
    }
    load
}

/// The skirmish AI commits idle regiment `g` to the player regiment it
/// chose (`best`: the cheapest by distance plus the spread penalty on the
/// current loads): an attack order, the standing assignment, and one more
/// regiment of load on the target. Anything else changes nothing.
pub fn ai_commit<P: Copy>(
    regs: &mut Vec<GroupData<P>>,
    targets: &mut Vec<Option<usize>>,
    load: &mut Vec<u32>,
    g: usize,
    best: Option<usize>,
)
    requires
        g < old(regs).len(),
        old(targets).len() == old(regs).len(),
        old(load).len() == old(regs).len(),
        best matches Some(t) ==> t < old(regs).len() && old(load)@[t as int] < u32::MAX,
    ensures
        targets_in_range(old(regs)@) ==> targets_in_range(final(regs)@),
        final(regs).len() == old(regs).len(),
        final(targets).len() == old(targets).len(),
        final(load).len() == old(load).len(),
        ({
            let commit = ai_idle(old(regs)@[g as int]) && (best matches Some(t) && ai_target_ok(
                old(regs)@[t as int],
            ));
            &&& commit ==> {
                let t = best->0;
                &&& final(regs)@ == old(regs)@.update(
                    g as int,
                    GroupData { order: Some(Order::Attack(t as u32)), ..old(regs)@[g as int] },
                )
                &&& final(targets)@ == old(targets)@.update(g as int, Some(t))
                &&& final(load)@ == old(load)@.update(t as int, (old(load)@[t as int] + 1) as u32)
            }
            &&& !commit ==> final(regs)@ == old(regs)@ && final(targets)@ == old(targets)@ && final(load)@
                == old(load)@
        }),
{
    if !is_ai_idle(&regs[g]) {
        return;
    }
    match best {
        Some(t) => {
            if !is_ai_target(&regs[t]) {
                return;
            }
            targets.set(g, Some(t));
            let l = load[t];
            load.set(t, l + 1);
            let r = &regs[g];
            let next = GroupData { order: Some(Order::Attack(t as u32)), ..*r };
            regs.set(g, next);
        },
        None => {},
    }
}

} // verus!
