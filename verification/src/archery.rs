//! Archer regiment upkeep before each tick: the regiment ammo pools (the
//! unit card's ammo bar) and the skirmish rule, which keeps a safe distance
//! from a closing formed enemy with an automatic withdrawal order and stands
//! again once the gap has reopened. Player orders always win.
use vstd::prelude::*;
use crate::regiment::{GroupData, Order, KIND_ARCHER, targets_in_range};

verus! {

/// Arrows carried by the living archers of regiment `g` among the first
/// `n` soldiers.
pub open spec fn ammo_sum(kind: Seq<u8>, group: Seq<u32>, living: Seq<bool>, ammo: Seq<u8>, g: int, n: int) -> int
    decreases n,
{
    if n <= 0 {
        0
    } else {
        ammo_sum(kind, group, living, ammo, g, n - 1) + if kind[n - 1] == KIND_ARCHER && living[n - 1] && group[n
            - 1] as int == g {
            ammo[n - 1] as int
        } else {
            0
        }
    }
}

proof fn lemma_ammo_sum_mono(kind: Seq<u8>, group: Seq<u32>, living: Seq<bool>, ammo: Seq<u8>, g: int, a: int, b: int)
    requires
        0 <= a <= b,
    ensures
        0 <= ammo_sum(kind, group, living, ammo, g, a) <= ammo_sum(kind, group, living, ammo, g, b),
    decreases b - a,
{
    if a < b {
        lemma_ammo_sum_mono(kind, group, living, ammo, g, a, b - 1);
    } else {
        lemma_ammo_sum_nonneg(kind, group, living, ammo, g, a);
    }
}

proof fn lemma_ammo_sum_nonneg(kind: Seq<u8>, group: Seq<u32>, living: Seq<bool>, ammo: Seq<u8>, g: int, n: int)
    ensures
        0 <= ammo_sum(kind, group, living, ammo, g, n),
    decreases n,
{
    if n > 0 {
        lemma_ammo_sum_nonneg(kind, group, living, ammo, g, n - 1);
    }
}

/// What a regiment's pool starts from before the soldiers' arrows are
/// added: archer pools are recounted from zero, other pools are left alone.
pub open spec fn pool_base<P>(r: GroupData<P>) -> int {
    if r.kind == KIND_ARCHER {
        0
    } else {
        r.ammo_left as int
    }
}

/// Refill the archer regiments' ammo pools from their living archers'
/// quivers. Per-soldier columns: kind, regiment, standing, arrows left.
#[verifier::rlimit(40)]
pub fn tally_ammo<P: Copy>(
    regs: &mut Vec<GroupData<P>>,
    kind: &Vec<u8>,
    group: &Vec<u32>,
    living: &Vec<bool>,
    ammo: &Vec<u8>,
)
    requires
        group.len() == kind.len(),
        living.len() == kind.len(),
        ammo.len() == kind.len(),
        forall|i: int| 0 <= i < kind.len() ==> (#[trigger] group@[i]) < old(regs).len(),
        forall|g: int|
            0 <= g < old(regs).len() ==> pool_base(#[trigger] old(regs)@[g]) + ammo_sum(
                kind@,
                group@,
                living@,
                ammo@,
                g,
                kind.len() as int,
            ) <= u32::MAX,
    ensures
        final(regs).len() == old(regs).len(),
        forall|g: int|
            0 <= g < old(regs).len() ==> (#[trigger] final(regs)@[g]).ammo_left == pool_base(old(regs)@[g])
                + ammo_sum(kind@, group@, living@, ammo@, g, kind.len() as int),
        forall|g: int|
            0 <= g < old(regs).len() ==> #[trigger] final(regs)@[g] == (GroupData {
                ammo_left: final(regs)@[g].ammo_left,
                ..old(regs)@[g]
            }),
{
    let ghost orig = regs@;
    let n = regs.len();
    let mut g: usize = 0;
    while g < n
        invariant
            n == regs.len(),
            n == orig.len(),
            g <= n,
            forall|h: int|
                0 <= h < n ==> #[trigger] regs@[h] == if h < g && orig[h].kind == KIND_ARCHER {
                    GroupData { ammo_left: 0, ..orig[h] }
                } else {
                    orig[h]
                },
        decreases n - g,
    {
        if regs[g].kind == KIND_ARCHER {
            let r = GroupData { ammo_left: 0, ..regs[g] };
            regs.set(g, r);
        }
        g = g + 1;
    }
    tally_archers(regs, kind, group, living, ammo, Ghost(orig));
}

/// `a` is `b` but for its ammo pool.
#[verifier::opaque]
spec fn alike<P>(a: GroupData<P>, b: GroupData<P>) -> bool {
    a == GroupData { ammo_left: a.ammo_left, ..b }
}

proof fn lemma_alike_refill<P>(a: GroupData<P>, b: GroupData<P>, pool: u32)
    requires
        alike(a, b),
    ensures
        alike(GroupData { ammo_left: pool, ..a }, b),
{
    reveal(alike);
}

/// The counting pass of `tally_ammo`, after the archer pools were zeroed.
#[verifier::rlimit(40)]
fn tally_archers<P: Copy>(
    regs: &mut Vec<GroupData<P>>,
    kind: &Vec<u8>,
    group: &Vec<u32>,
    living: &Vec<bool>,
    ammo: &Vec<u8>,
    Ghost(orig): Ghost<Seq<GroupData<P>>>,
)
    requires
        old(regs).len() == orig.len(),
        group.len() == kind.len(),
        living.len() == kind.len(),
        ammo.len() == kind.len(),
        forall|i: int| 0 <= i < kind.len() ==> (#[trigger] group@[i]) < orig.len(),
        forall|g: int|
            0 <= g < orig.len() ==> pool_base(#[trigger] orig[g]) + ammo_sum(
                kind@,
                group@,
                living@,
                ammo@,
                g,
                kind.len() as int,
            ) <= u32::MAX,
        forall|g: int|
            0 <= g < orig.len() ==> #[trigger] old(regs)@[g] == (GroupData {
                ammo_left: pool_base(orig[g]) as u32,
                ..orig[g]
            }),
    ensures
        final(regs).len() == orig.len(),
        forall|g: int|
            0 <= g < orig.len() ==> (#[trigger] final(regs)@[g]).ammo_left == pool_base(orig[g])
                + ammo_sum(kind@, group@, living@, ammo@, g, kind.len() as int),
        forall|g: int|
            0 <= g < orig.len() ==> #[trigger] final(regs)@[g] == (GroupData {
                ammo_left: final(regs)@[g].ammo_left,
                ..orig[g]
            }),
{
    let n = regs.len();
    proof {
        assert forall|h: int| 0 <= h < n implies pool_base(#[trigger] orig[h]) <= u32::MAX by {
            lemma_ammo_sum_nonneg(kind@, group@, living@, ammo@, h, kind.len() as int);
        }
        reveal(alike);
    }
    let mut i: usize = 0;
    while i < kind.len()
        invariant
            n == regs.len(),
            n == orig.len(),
            group.len() == kind.len(),
            living.len() == kind.len(),
            ammo.len() == kind.len(),
            i <= kind.len(),
            forall|j: int| 0 <= j < kind.len() ==> (#[trigger] group@[j]) < n,
            forall|h: int|
                0 <= h < n ==> pool_base(#[trigger] orig[h]) + ammo_sum(
                    kind@,
                    group@,
                    living@,
                    ammo@,
                    h,
                    kind.len() as int,
                ) <= u32::MAX,
            forall|h: int|
                0 <= h < n ==> (#[trigger] regs@[h]).ammo_left == pool_base(orig[h]) + ammo_sum(
                    kind@,
                    group@,
                    living@,
                    ammo@,
                    h,
                    i as int,
                ),
            forall|h: int| 0 <= h < n ==> alike(#[trigger] regs@[h], orig[h]),
        decreases kind.len() - i,
    {
        let ghost before = regs@;
        if kind[i] == KIND_ARCHER && living[i] {
            let gi = group[i] as usize;
            proof {
                lemma_ammo_sum_mono(kind@, group@, living@, ammo@, gi as int, i + 1, kind.len() as int);
                assert(before[gi as int].ammo_left == pool_base(orig[gi as int]) + ammo_sum(
                    kind@,
                    group@,
                    living@,
                    ammo@,
                    gi as int,
                    i as int,
                ));
                assert(pool_base(orig[gi as int]) + ammo_sum(kind@, group@, living@, ammo@, gi as int, kind.len() as int) <= u32::MAX);
            }
            let r = &regs[gi];
            let add = ammo[i] as u32;
            let next = GroupData { ammo_left: r.ammo_left + add, ..*r };
            regs.set(gi, next);
        }
        proof {
            assert forall|h: int| 0 <= h < n implies (#[trigger] regs@[h]).ammo_left == pool_base(orig[h])
                + ammo_sum(kind@, group@, living@, ammo@, h, i + 1) by {
                assert(before[h].ammo_left == pool_base(orig[h]) + ammo_sum(kind@, group@, living@, ammo@, h, i as int));
            }
            assert forall|h: int| 0 <= h < n implies alike(#[trigger] regs@[h], orig[h]) by {
                assert(alike(before[h], orig[h]));
                if regs@[h] != before[h] {
                    lemma_alike_refill(before[h], orig[h], regs@[h].ammo_left);
                }
            }
        }
        i = i + 1;
    }
    proof {
        reveal(alike);
    }
}

/// What an archer regiment sees of the nearest formed enemy block, by the
/// gap between the two blocks' edges.
#[derive(Clone, Copy)]
pub enum Skirmish<P> {
    /// The gap closed under the trigger distance: withdraw to this point
    /// (directly away, far enough to reopen it).
    Closing(P),
    /// The gap reopened past the reopen distance.
    Reopened,
    /// No formed enemy anywhere.
    NoEnemy,
    /// An enemy in between the two distances: carry on.
    Between,
}

/// The skirmish rule for one regiment. Only skirmishing archers that are
/// alive, unbroken, not holding and not engaged are steered, and only when
/// idle or on their own withdrawal (player orders win).
pub open spec fn skirmish_next<P>(r: GroupData<P>, sense: Skirmish<P>) -> GroupData<P> {
    if r.kind != KIND_ARCHER || r.count == 0 || r.state.spec_is_broken() || !r.skirmish || r.hold
        || r.engaged || (r.order is Some && !r.skirmishing) {
        r
    } else {
        match sense {
            Skirmish::Closing(dest) => GroupData {
                order: Some(Order::Move(dest)),
                auto_order: true,
                skirmishing: true,
                ..r
            },
            Skirmish::Reopened => if r.skirmishing {
                GroupData { skirmishing: false, order: None, anchor: r.centroid, reform: true, ..r }
            } else {
                r
            },
            Skirmish::NoEnemy => if r.skirmishing {
                GroupData { skirmishing: false, order: None, anchor: r.centroid, ..r }
            } else {
                r
            },
            Skirmish::Between => r,
        }
    }
}

/// Apply the skirmish rule to one regiment.
pub fn skirmish_step<P: Copy>(r: &mut GroupData<P>, sense: Skirmish<P>)
    ensures
        *final(r) == skirmish_next(*old(r), sense),
{
    if r.kind != KIND_ARCHER || r.count == 0 || r.state.is_broken() || !r.skirmish || r.hold || r.engaged
        || (r.order.is_some() && !r.skirmishing) {
        return;
    }
    match sense {
        Skirmish::Closing(dest) => {
            r.order = Some(Order::Move(dest));
            r.auto_order = true;
            r.skirmishing = true;
        },
        Skirmish::Reopened => {
            if r.skirmishing {
                r.skirmishing = false;
                r.order = None;
                r.anchor = r.centroid;
                r.reform = true;
            }
        },
        Skirmish::NoEnemy => {
            if r.skirmishing {
                r.skirmishing = false;
                r.order = None;
                r.anchor = r.centroid;
            }
        },
        Skirmish::Between => {},
    }
}

/// A player's order is never overridden by the skirmish rule.
pub proof fn law_player_orders_win<P>(r: GroupData<P>, sense: Skirmish<P>)
    requires
        r.order is Some,
        !r.skirmishing,
    ensures
        skirmish_next(r, sense) == r,
{
}

/// Apply the skirmish rule to every regiment, each with what it sees of
/// the nearest formed enemy block.
pub fn skirmish_all<P: Copy>(regs: &mut Vec<GroupData<P>>, senses: &Vec<Skirmish<P>>)
    requires
        senses.len() == old(regs).len(),
    ensures
        final(regs).len() == old(regs).len(),
        forall|g: int| 0 <= g < old(regs).len() ==> #[trigger] final(regs)@[g] == skirmish_next(old(regs)@[g], senses@[g]),
        targets_in_range(old(regs)@) ==> targets_in_range(final(regs)@),
{
    let ghost orig = regs@;
    let n = regs.len();
    let mut g: usize = 0;
    while g < n
        invariant
            g <= n,
            n == regs.len(),
            n == orig.len(),
            senses.len() == n,
            forall|h: int| 0 <= h < n ==> #[trigger] regs@[h] == if h < g { skirmish_next(orig[h], senses@[h]) } else { orig[h] },
        decreases n - g,
    {
        let mut r = GroupData { ..regs[g] };
        skirmish_step(&mut r, senses[g]);
        regs.set(g, r);
        g = g + 1;
    }
    proof {
        if targets_in_range(orig) {
            assert forall|h: int| 0 <= h < n implies match #[trigger] regs@[h].order {
                Some(Order::Attack(t)) => t < n,
                _ => true,
            } by {
                assert(match orig[h].order {
                    Some(Order::Attack(t)) => t < n,
                    _ => true,
                });
            }
        }
    }
}

} // verus!
