//! Player orders and the order lifecycle. A move order keeps the army's
//! arrangement (each regiment gets the target translated by its own offset
//! from the selection centroid); an attack order sends every selected
//! regiment at one enemy regiment; halt drops orders in place; and each
//! tick orders end on arrival, on the death of the target, or when a
//! pursuit ran too far from the fight.
use vstd::prelude::*;
use crate::regiment::{GroupData, Order, FormShape, RegState, controllable, targets_in_range};
use crate::selection::Selection;

verus! {

/// The selected regiments that are not broken, in selection order.
pub open spec fn unbroken_of<P>(regs: Seq<GroupData<P>>, selected: Seq<usize>) -> Seq<usize>
    decreases selected.len(),
{
    if selected.len() == 0 {
        Seq::empty()
    } else {
        let rest = unbroken_of(regs, selected.drop_last());
        if !regs[selected.last() as int].state.spec_is_broken() {
            rest.push(selected.last())
        } else {
            rest
        }
    }
}

/// Growing a prefix by one element adds exactly that element.
pub proof fn lemma_prefix_contains(s: Seq<usize>, i: int, h: usize)
    requires
        0 <= i < s.len(),
    ensures
        s.subrange(0, i + 1).contains(h) <==> (s.subrange(0, i).contains(h) || s[i] == h),
{
    if s.subrange(0, i + 1).contains(h) {
        let k = choose|k: int| 0 <= k < i + 1 && #[trigger] s.subrange(0, i + 1)[k] == h;
        if k < i {
            assert(s.subrange(0, i)[k] == h);
        }
    }
    if s.subrange(0, i).contains(h) {
        let k = choose|k: int| 0 <= k < i && #[trigger] s.subrange(0, i)[k] == h;
        assert(s.subrange(0, i + 1)[k] == h);
    }
    if s[i] == h {
        assert(s.subrange(0, i + 1)[i] == h);
    }
}

/// The regiments an order acts on are exactly the selected ones that are
/// steady, in selection order: each kept index was selected and is
/// steady, and each selected steady regiment is kept.
pub proof fn law_unbroken_are_steady<P>(regs: Seq<GroupData<P>>, selected: Seq<usize>)
    ensures
        forall|k: int|
            0 <= k < unbroken_of(regs, selected).len() ==> selected.contains(
                #[trigger] unbroken_of(regs, selected)[k],
            ) && regs[unbroken_of(regs, selected)[k] as int].state == RegState::Steady,
        forall|k: int|
            0 <= k < selected.len() && regs[selected[k] as int].state == RegState::Steady
                ==> #[trigger] unbroken_of(regs, selected).contains(selected[k]),
        unbroken_of(regs, selected).len() <= selected.len(),
    decreases selected.len(),
{
    if selected.len() > 0 {
        let init = selected.drop_last();
        law_unbroken_are_steady(regs, init);
        let rest = unbroken_of(regs, init);
        let out = unbroken_of(regs, selected);
        let last = selected.last();
        assert forall|x: usize| init.contains(x) implies selected.contains(x) by {
            let i = choose|i: int| 0 <= i < init.len() && init[i] == x;
            assert(selected[i] == x);
        }
        assert(selected[selected.len() - 1] == last);
        if regs[last as int].state == RegState::Steady {
            assert(out == rest.push(last));
            assert forall|k: int| 0 <= k < out.len() implies selected.contains(#[trigger] out[k])
                && regs[out[k] as int].state == RegState::Steady by {
                if k < rest.len() {
                    assert(out[k] == rest[k]);
                }
            }
            assert forall|k: int|
                0 <= k < selected.len() && regs[selected[k] as int].state == RegState::Steady
                    implies #[trigger] out.contains(selected[k]) by {
                if k < selected.len() - 1 {
                    assert(init[k] == selected[k]);
                    assert(rest.contains(init[k]));
                    let i = choose|i: int| 0 <= i < rest.len() && rest[i] == init[k];
                    assert(out[i] == selected[k]);
                } else {
                    assert(out[rest.len() as int] == selected[k]);
                }
            }
        } else {
            assert(out == rest);
            assert forall|k: int|
                0 <= k < selected.len() && regs[selected[k] as int].state == RegState::Steady
                    implies #[trigger] out.contains(selected[k]) by {
                assert(k < selected.len() - 1);
                assert(init[k] == selected[k]);
                assert(rest.contains(init[k]));
            }
        }
    }
}

/// Halt acts on a selected regiment exactly when it has men left and is
/// steady.
pub proof fn law_halt_only_steady<P>(mask: Seq<bool>, r: GroupData<P>, g: int)
    ensures
        halts(mask, r, g) <==> g < mask.len() && mask[g] && r.count > 0 && r.state == RegState::Steady,
{
}

/// Every index of `s` names a regiment of the list.
pub open spec fn all_in_range(s: Seq<usize>, n: int) -> bool {
    forall|k: int| 0 <= k < s.len() ==> #[trigger] s[k] < n
}

/// Broken regiments are uncontrollable: the selection an order acts on.
pub fn unbroken<P>(regs: &Vec<GroupData<P>>, selected: &Vec<usize>) -> (out: Vec<usize>)
    requires
        all_in_range(selected@, regs.len() as int),
    ensures
        out@ == unbroken_of(regs@, selected@),
{
    let mut out: Vec<usize> = Vec::new();
    let mut i: usize = 0;
    while i < selected.len()
        invariant
            i <= selected.len(),
            all_in_range(selected@, regs.len() as int),
            out@ == unbroken_of(regs@, selected@.subrange(0, i as int)),
        decreases selected.len() - i,
    {
        let g = selected[i];
        assert(selected@.subrange(0, i + 1).drop_last() =~= selected@.subrange(0, i as int));
        if !regs[g].state.is_broken() {
            out.push(g);
        }
        i = i + 1;
    }
    assert(selected@.subrange(0, selected.len() as int) =~= selected@);
    out
}

/// A regiment given a move order to `dest`: a player order, and a Rect
/// block that must turn toward it (`turn`) re-forms.
pub open spec fn moved<P>(r: GroupData<P>, dest: P, turn: bool) -> GroupData<P> {
    GroupData {
        order: Some(Order::Move(dest)),
        auto_order: false,
        reform: r.reform || (r.shape == FormShape::Rect && turn),
        ..r
    }
}

/// A regiment given an attack order on regiment `t`.
pub open spec fn attacking<P>(r: GroupData<P>, t: u32, turn: bool) -> GroupData<P> {
    GroupData {
        order: Some(Order::Attack(t)),
        auto_order: false,
        reform: r.reform || (r.shape == FormShape::Rect && turn),
        ..r
    }
}

fn move_to<P: Copy>(r: &GroupData<P>, dest: P, turn: bool) -> (n: GroupData<P>)
    ensures
        n == moved(*r, dest, turn),
{
    GroupData {
        order: Some(Order::Move(dest)),
        auto_order: false,
        reform: r.reform || (r.shape == FormShape::Rect && turn),
        ..*r
    }
}

fn attack_on<P: Copy>(r: &GroupData<P>, t: u32, turn: bool) -> (n: GroupData<P>)
    ensures
        n == attacking(*r, t, turn),
{
    GroupData {
        order: Some(Order::Attack(t)),
        auto_order: false,
        reform: r.reform || (r.shape == FormShape::Rect && turn),
        ..*r
    }
}

/// Attack-move the selected regiments, keeping their arrangement: every
/// unbroken selected regiment `g` marches to `dest[g]` (the target
/// translated by its offset from the selection centroid). `turn[g]` says
/// the march points more than a meter away, so a Rect block faces it and
/// re-forms. Everyone else is untouched.
pub fn order_regiments<P: Copy>(
    regs: &mut Vec<GroupData<P>>,
    selected: &Vec<usize>,
    dest: &Vec<P>,
    turn: &Vec<bool>,
)
    requires
        all_in_range(selected@, old(regs).len() as int),
        dest.len() == old(regs).len(),
        turn.len() == old(regs).len(),
    ensures
        targets_in_range(old(regs)@) ==> targets_in_range(final(regs)@),
        final(regs).len() == old(regs).len(),
        forall|g: int|
            0 <= g < old(regs).len() ==> #[trigger] final(regs)@[g] == if selected@.contains(
                g as usize,
            ) && !old(regs)@[g].state.spec_is_broken() {
                moved(old(regs)@[g], dest@[g], turn@[g])
            } else {
                old(regs)@[g]
            },
{
    let ghost orig = regs@;
    let mut i: usize = 0;
    while i < selected.len()
        invariant
            i <= selected.len(),
            all_in_range(selected@, orig.len() as int),
            dest.len() == orig.len(),
            turn.len() == orig.len(),
            regs.len() == orig.len(),
            forall|g: int|
                0 <= g < orig.len() ==> #[trigger] regs@[g] == if selected@.subrange(
                    0,
                    i as int,
                ).contains(g as usize) && !orig[g].state.spec_is_broken() {
                    moved(orig[g], dest@[g], turn@[g])
                } else {
                    orig[g]
                },
        decreases selected.len() - i,
    {
        let g = selected[i];
        proof {
            assert forall|h: int| 0 <= h < orig.len() implies (#[trigger] selected@.subrange(0, i + 1).contains(h as usize)
                <==> (selected@.subrange(0, i as int).contains(h as usize) || h == g)) by {
                lemma_prefix_contains(selected@, i as int, h as usize);
            }
        }
        if !regs[g].state.is_broken() {
            let n = move_to(&regs[g], dest[g], turn[g]);
            regs.set(g, n);
        }
        i = i + 1;
    }
    assert(selected@.subrange(0, selected.len() as int) =~= selected@);
}

/// Attack-order the selected regiments at enemy regiment `target`: every
/// unbroken selected regiment hunts the same target (no arrangement
/// translation); `turn[g]` says the target lies more than a meter away,
/// so a Rect block faces it and re-forms.
pub fn attack_regiments<P: Copy>(
    regs: &mut Vec<GroupData<P>>,
    selected: &Vec<usize>,
    target: u32,
    turn: &Vec<bool>,
)
    requires
        all_in_range(selected@, old(regs).len() as int),
        target < old(regs).len(),
        turn.len() == old(regs).len(),
    ensures
        targets_in_range(old(regs)@) ==> targets_in_range(final(regs)@),
        final(regs).len() == old(regs).len(),
        forall|g: int|
            0 <= g < old(regs).len() ==> #[trigger] final(regs)@[g] == if selected@.contains(
                g as usize,
            ) && !old(regs)@[g].state.spec_is_broken() {
                attacking(old(regs)@[g], target, turn@[g])
            } else {
                old(regs)@[g]
            },
{
    let ghost orig = regs@;
    let mut i: usize = 0;
    while i < selected.len()
        invariant
            i <= selected.len(),
            all_in_range(selected@, orig.len() as int),
            turn.len() == orig.len(),
            regs.len() == orig.len(),
            forall|g: int|
                0 <= g < orig.len() ==> #[trigger] regs@[g] == if selected@.subrange(
                    0,
                    i as int,
                ).contains(g as usize) && !orig[g].state.spec_is_broken() {
                    attacking(orig[g], target, turn@[g])
                } else {
                    orig[g]
                },
        decreases selected.len() - i,
    {
        let g = selected[i];
        proof {
            assert forall|h: int| 0 <= h < orig.len() implies (#[trigger] selected@.subrange(0, i + 1).contains(h as usize)
                <==> (selected@.subrange(0, i as int).contains(h as usize) || h == g)) by {
                lemma_prefix_contains(selected@, i as int, h as usize);
            }
        }
        if !regs[g].state.is_broken() {
            let n = attack_on(&regs[g], target, turn[g]);
            regs.set(g, n);
        }
        i = i + 1;
    }
    assert(selected@.subrange(0, selected.len() as int) =~= selected@);
}

/// A regiment that halts: it drops its order and holds where it stands.
pub open spec fn halted_at_centroid<P>(r: GroupData<P>) -> GroupData<P> {
    GroupData { anchor: r.centroid, order: None, ..r }
}

/// Whether halt acts on regiment `g` of a selection mask.
pub open spec fn halts<P>(mask: Seq<bool>, r: GroupData<P>, g: int) -> bool {
    g < mask.len() && mask[g] && controllable(r)
}

/// Number of regiments halt acts on among the first `n`.
pub open spec fn halt_count<P>(mask: Seq<bool>, regs: Seq<GroupData<P>>, n: int) -> int
    decreases n,
{
    if n <= 0 {
        0
    } else {
        halt_count(mask, regs, n - 1) + if halts(mask, regs[n - 1], n - 1) { 1int } else { 0 }
    }
}

proof fn lemma_halt_count_bound<P>(mask: Seq<bool>, regs: Seq<GroupData<P>>, n: int)
    requires
        0 <= n,
    ensures
        0 <= halt_count(mask, regs, n) <= n,
    decreases n,
{
    if n > 0 {
        lemma_halt_count_bound(mask, regs, n - 1);
    }
}

/// Halt the selection (Backspace, or the Halt button): every selected
/// regiment that is alive and unbroken drops its order and holds where it
/// stands. Nothing happens when no units are selected. Returns how many
/// regiments halted.
pub fn halt_selected<P: Copy>(selection: &Selection, regs: &mut Vec<GroupData<P>>) -> (halted: usize)
    requires
        selection.regiments.len() <= old(regs).len(),
    ensures
        targets_in_range(old(regs)@) ==> targets_in_range(final(regs)@),
        final(regs).len() == old(regs).len(),
        selection.count_units == 0 ==> final(regs)@ == old(regs)@ && halted == 0,
        selection.count_units > 0 ==> {
            &&& halted == halt_count(selection.regiments@, old(regs)@, selection.regiments.len() as int)
            &&& forall|g: int|
                0 <= g < old(regs).len() ==> #[trigger] final(regs)@[g] == if halts(
                    selection.regiments@,
                    old(regs)@[g],
                    g,
                ) {
                    halted_at_centroid(old(regs)@[g])
                } else {
                    old(regs)@[g]
                }
        },
{
    if selection.count_units == 0 {
        return 0;
    }
    let ghost orig = regs@;
    let n = selection.regiments.len();
    let mut count: usize = 0;
    let mut g: usize = 0;
    while g < n
        invariant
            n == selection.regiments.len(),
            n <= orig.len(),
            regs.len() == orig.len(),
            g <= n,
            count == halt_count(selection.regiments@, orig, g as int),
            forall|h: int|
                0 <= h < orig.len() ==> #[trigger] regs@[h] == if h < g && halts(
                    selection.regiments@,
                    orig[h],
                    h,
                ) {
                    halted_at_centroid(orig[h])
                } else {
                    orig[h]
                },
        decreases n - g,
    {
        proof {
            lemma_halt_count_bound(selection.regiments@, orig, g as int);
        }
        if selection.regiments[g] && regs[g].count > 0 && !regs[g].state.is_broken() {
            let r = &regs[g];
            let h = GroupData { anchor: r.centroid, order: None, ..*r };
            regs.set(g, h);
            count = count + 1;
        }
        g = g + 1;
    }
    count
}

/// How the order lifecycle leaves regiment `g`. A move order ends when the
/// regiment, not fighting, has arrived near its point (`arrived[g]`): the
/// point becomes the new anchor. An attack order ends when the target has
/// no men left (hold where we stand), or when the target is broken and the
/// pursuit has run past its range from the fight (`pursuit_over[g]`):
/// then the regiment also re-forms.
pub open spec fn after_arrival<P>(
    regs: Seq<GroupData<P>>,
    g: int,
    arrived: bool,
    pursuit_over: bool,
) -> GroupData<P> {
    let r = regs[g];
    match r.order {
        Some(Order::Move(t)) => if r.count > 0 && !r.engaged && arrived {
            GroupData { anchor: t, order: None, ..r }
        } else {
            r
        },
        Some(Order::Attack(t)) => if regs[t as int].count == 0 {
            GroupData { anchor: r.centroid, order: None, ..r }
        } else if regs[t as int].state.spec_is_broken() && pursuit_over {
            GroupData { anchor: r.centroid, order: None, reform: true, ..r }
        } else {
            r
        },
        None => r,
    }
}

/// An attack order lives while its target has men left, unless the
/// pursuit-range test says the chase of a broken target has run out: a
/// broken target alone, or a finished pursuit of an unbroken one, ends
/// nothing, and a surviving order leaves the regiment untouched. When the
/// order ends, the regiment holds where it stands.
pub proof fn law_attack_order_lives<P>(
    regs: Seq<GroupData<P>>,
    g: int,
    t: u32,
    arrived: bool,
    pursuit_over: bool,
)
    requires
        0 <= g < regs.len(),
        t < regs.len(),
        regs[g].order == Some(Order::<P>::Attack(t)),
    ensures
        ({
            let n = after_arrival(regs, g, arrived, pursuit_over);
            let ends = regs[t as int].count == 0 || (regs[t as int].state != RegState::Steady
                && pursuit_over);
            &&& n.order is None <==> ends
            &&& !ends ==> n == regs[g]
            &&& ends ==> n.anchor == regs[g].centroid
            &&& n.count == regs[g].count
            &&& n.state == regs[g].state
        }),
{
}

/// What the order lifecycle does to regiment `g`: `None` leaves it as it is.
fn arrival_step<P: Copy>(regs: &Vec<GroupData<P>>, g: usize, arrived: bool, pursuit_over: bool) -> (out: Option<GroupData<P>>)
    requires
        g < regs.len(),
        targets_in_range(regs@),
    ensures
        match out {
            Some(r) => r == after_arrival(regs@, g as int, arrived, pursuit_over),
            None => after_arrival(regs@, g as int, arrived, pursuit_over) == regs@[g as int],
        },
{
    let r = &regs[g];
    match r.order {
        Some(Order::Move(t)) => {
            if r.count > 0 && !r.engaged && arrived {
                Some(GroupData { anchor: t, order: None, ..*r })
            } else {
                None
            }
        },
        Some(Order::Attack(t)) => {
            assert(t < regs.len());
            let tc = regs[t as usize].count;
            let tb = regs[t as usize].state.is_broken();
            if tc == 0 {
                Some(GroupData { anchor: r.centroid, order: None, ..*r })
            } else if tb && pursuit_over {
                Some(GroupData { anchor: r.centroid, order: None, reform: true, ..*r })
            } else {
                None
            }
        },
        None => None,
    }
}

/// The order lifecycle, run once per tick after the sim step. `arrived[g]`
/// is the centroid-to-move-point test, `pursuit_over[g]` the pursuit-range
/// test (only when the close-fight model is on and a fight took place).
#[verifier::rlimit(40)]
pub fn clear_arrived_orders<P: Copy>(
    regs: &mut Vec<GroupData<P>>,
    arrived: &Vec<bool>,
    pursuit_over: &Vec<bool>,
)
    requires
        targets_in_range(old(regs)@),
        arrived.len() == old(regs).len(),
        pursuit_over.len() == old(regs).len(),
    ensures
        targets_in_range(old(regs)@) ==> targets_in_range(final(regs)@),
        final(regs).len() == old(regs).len(),
        forall|g: int|
            0 <= g < old(regs).len() ==> #[trigger] final(regs)@[g] == after_arrival(
                old(regs)@,
                g,
                arrived@[g],
                pursuit_over@[g],
            ),
{
    let ghost orig = regs@;
    let n = regs.len();
    let mut g: usize = 0;
    while g < n
        invariant
            n == regs.len(),
            n == orig.len(),
            arrived.len() == n,
            pursuit_over.len() == n,
            targets_in_range(orig),
            targets_in_range(regs@),
            g <= n,
            forall|h: int|
                0 <= h < n ==> (#[trigger] regs@[h]).count == orig[h].count && regs@[h].state
                    == orig[h].state,
            forall|h: int|
                0 <= h < n ==> #[trigger] regs@[h] == if h < g {
                    after_arrival(orig, h, arrived@[h], pursuit_over@[h])
                } else {
                    orig[h]
                },
        decreases n - g,
    {
        assert(after_arrival(regs@, g as int, arrived@[g as int], pursuit_over@[g as int])
            == after_arrival(orig, g as int, arrived@[g as int], pursuit_over@[g as int]));
        let step = arrival_step(regs, g, arrived[g], pursuit_over[g]);
        match step {
            Some(r) => {
                let ghost before = regs@;
                regs.set(g, r);
                assert forall|h: int| 0 <= h < n implies match #[trigger] regs@[h].order {
                    Some(Order::Attack(t)) => t < n,
                    _ => true,
                } by {
                    if h != g {
                        assert(regs@[h] == before[h]);
                    }
                }
            },
            None => {},
        }
        g = g + 1;
    }
}

/// One regiment's place on a drawn order line: its block center (the
/// move target) and its width in files. The facing is the caller's.
pub struct LinePlacement<P> {
    pub g: usize,
    pub anchor: P,
    pub files: u32,
}

/// The regiment list after the first `n` placements of a drawn line.
pub open spec fn placed<P>(regs: Seq<GroupData<P>>, layout: Seq<LinePlacement<P>>, n: int) -> Seq<
    GroupData<P>,
>
    decreases n,
{
    if n <= 0 {
        regs
    } else {
        let prev = placed(regs, layout, n - 1);
        let p = layout[n - 1];
        prev.update(
            p.g as int,
            GroupData {
                files: p.files,
                shape: FormShape::Rect,
                order: Some(Order::Move(p.anchor)),
                auto_order: false,
                reform: true,
                ..prev[p.g as int]
            },
        )
    }
}

proof fn lemma_placed_len<P>(regs: Seq<GroupData<P>>, layout: Seq<LinePlacement<P>>, n: int)
    requires
        n <= layout.len(),
        forall|k: int| 0 <= k < layout.len() ==> (#[trigger] layout[k]).g < regs.len(),
    ensures
        placed(regs, layout, n).len() == regs.len(),
    decreases n,
{
    if n > 0 {
        lemma_placed_len(regs, layout, n - 1);
    }
}

/// Apply a drawn battle line: every placed regiment takes its files,
/// switches to ranks and marches to its block center as a player order,
/// re-forming on the way.
pub fn apply_line_order<P: Copy>(regs: &mut Vec<GroupData<P>>, layout: &Vec<LinePlacement<P>>)
    requires
        forall|k: int| 0 <= k < layout.len() ==> (#[trigger] layout@[k]).g < old(regs).len(),
    ensures
        targets_in_range(old(regs)@) ==> targets_in_range(final(regs)@),
        final(regs)@ == placed(old(regs)@, layout@, layout.len() as int),
{
    let ghost orig = regs@;
    let mut i: usize = 0;
    while i < layout.len()
        invariant
            i <= layout.len(),
            forall|k: int| 0 <= k < layout.len() ==> (#[trigger] layout@[k]).g < orig.len(),
            regs@ == placed(orig, layout@, i as int),
            regs.len() == orig.len(),
            targets_in_range(orig) ==> targets_in_range(regs@),
        decreases layout.len() - i,
    {
        proof {
            lemma_placed_len(orig, layout@, i as int);
        }
        let ghost before = regs@;
        let p = &layout[i];
        let r = &regs[p.g];
        let n = GroupData {
            files: p.files,
            shape: FormShape::Rect,
            order: Some(Order::Move(p.anchor)),
            auto_order: false,
            reform: true,
            ..*r
        };
        regs.set(p.g, n);
        proof {
            if targets_in_range(orig) {
                assert forall|h: int| 0 <= h < regs.len() implies match #[trigger] regs@[h].order {
                    Some(Order::Attack(t)) => t < regs.len(),
                    _ => true,
                } by {
                    if h != p.g {
                        assert(regs@[h] == before[h]);
                    }
                }
            }
        }
        i = i + 1;
    }
}

/// The right-button order gesture: where the press landed on the map, and
/// whether the drag has gone far enough to draw a battle line.
#[derive(Clone, Copy)]
pub struct OrderDrag<P> {
    pub start: Option<P>,
    pub active: bool,
}

/// What a released order gesture does.
#[derive(Clone, Copy)]
pub enum OrderAction<P> {
    Nothing,
    /// Apply the drawn battle line as move orders.
    LineOrder,
    /// Deployment: teleport the regiments onto the drawn line.
    DeployLine,
    /// Deployment: teleport the picked regiments, keeping their arrangement,
    /// around this point.
    DeployMove(P),
    /// Attack the enemy regiment under the click.
    Attack(u32),
    /// Move to the clicked point.
    Move(P),
}

/// No gesture in flight.
pub fn drag_idle<P>() -> (d: OrderDrag<P>)
    ensures
        d.start is None,
        !d.active,
{
    OrderDrag { start: None, active: false }
}

/// A press of the order button. A press over the HUD never starts an
/// order; one on the map starts at the ground point under the cursor (none
/// off the map).
pub fn drag_press<P: Copy>(drag: &mut OrderDrag<P>, over_ui: bool, ground: Option<P>)
    ensures
        over_ui ==> *final(drag) == *old(drag),
        !over_ui ==> final(drag).start == ground && !final(drag).active,
{
    if !over_ui {
        drag.start = ground;
        drag.active = false;
    }
}

/// The button held with the cursor on the map: the gesture becomes a line
/// drag once it has gone far enough from its start, and stays one.
pub fn drag_hold<P: Copy>(drag: &mut OrderDrag<P>, on_map: bool, far_enough: bool)
    ensures
        final(drag).start == old(drag).start,
        final(drag).active == (old(drag).active || (on_map && old(drag).start is Some && far_enough)),
{
    if on_map && drag.start.is_some() && !drag.active && far_enough {
        drag.active = true;
    }
}

/// The release of the order button: a line drag with a layout applies
/// the line (placed outright while deploying); a click teleports while
/// deploying, attacks the enemy regiment under the click, or moves there.
/// A release with no press on the map does nothing. The gesture ends.
pub fn drag_release<P: Copy>(
    drag: &mut OrderDrag<P>,
    layout_empty: bool,
    deploying: bool,
    enemy_at_start: Option<u32>,
) -> (act: OrderAction<P>)
    ensures
        final(drag).start is None,
        final(drag).active == (old(drag).active && old(drag).start is None),
        act == match old(drag).start {
            None => OrderAction::Nothing,
            Some(p) => if old(drag).active && !layout_empty {
                if deploying {
                    OrderAction::DeployLine
                } else {
                    OrderAction::LineOrder
                }
            } else if deploying {
                OrderAction::DeployMove(p)
            } else {
                match enemy_at_start {
                    Some(t) => OrderAction::Attack(t),
                    None => OrderAction::Move(p),
                }
            },
        },
{
    let start = drag.start;
    drag.start = None;
    match start {
        None => OrderAction::Nothing,
        Some(p) => {
            let act = if drag.active && !layout_empty {
                if deploying {
                    OrderAction::DeployLine
                } else {
                    OrderAction::LineOrder
                }
            } else if deploying {
                OrderAction::DeployMove(p)
            } else {
                match enemy_at_start {
                    Some(t) => OrderAction::Attack(t),
                    None => OrderAction::Move(p),
                }
            };
            drag.active = false;
            act
        },
    }
}

} // verus!
