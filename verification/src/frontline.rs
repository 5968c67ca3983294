//! The front line readout and the per-tick contact bookkeeping of the
//! regiments. The drawn front is the zero contour of the blue-minus-orange
//! density, traced cell by cell with marching squares; which cell edges a
//! cell's contour crosses depends only on which corners are blue-dominated.
//! The bookkeeping keeps the engaged flag alive across swing-cycle gaps,
//! plays the victory cheer, and flags the charge phase.
use vstd::prelude::*;
use crate::regiment::{GroupData, Order, KIND_ARCHER, targets_in_range};
use crate::selection::{flagged, lemma_flagged_bounded};

verus! {

/// Marching-squares case of a cell: bit `b` is set when corner `b`
/// (corners 00, 10, 11, 01 in turn) has phi >= 0.
pub fn contour_case(corner_pos: &[bool; 4]) -> (case: usize)
    ensures
        case == (if corner_pos@[0] { 1int } else { 0 }) + (if corner_pos@[1] { 2int } else { 0 }) + (
        if corner_pos@[2] { 4int } else { 0 }) + (if corner_pos@[3] { 8int } else { 0 }),
        case < 16,
{
    let mut case: usize = 0;
    if corner_pos[0] {
        case = case + 1;
    }
    if corner_pos[1] {
        case = case + 2;
    }
    if corner_pos[2] {
        case = case + 4;
    }
    if corner_pos[3] {
        case = case + 8;
    }
    case
}

/// The segment table: for each case, the pairs of cell edges the contour
/// joins (edge `k` runs from corner `k` to corner `(k + 1) % 4`). The two
/// saddle cases are split one fixed way.
pub open spec fn table(case: int) -> Seq<(usize, usize)> {
    if case == 1 {
        seq![(3usize, 0usize)]
    } else if case == 2 {
        seq![(0usize, 1usize)]
    } else if case == 3 {
        seq![(3usize, 1usize)]
    } else if case == 4 {
        seq![(1usize, 2usize)]
    } else if case == 5 {
        seq![(3usize, 0usize), (1usize, 2usize)]
    } else if case == 6 {
        seq![(0usize, 2usize)]
    } else if case == 7 {
        seq![(3usize, 2usize)]
    } else if case == 8 {
        seq![(2usize, 3usize)]
    } else if case == 9 {
        seq![(2usize, 0usize)]
    } else if case == 10 {
        seq![(0usize, 1usize), (2usize, 3usize)]
    } else if case == 11 {
        seq![(2usize, 1usize)]
    } else if case == 12 {
        seq![(1usize, 3usize)]
    } else if case == 13 {
        seq![(1usize, 0usize)]
    } else if case == 14 {
        seq![(0usize, 3usize)]
    } else {
        seq![]
    }
}

/// The edge pairs the contour joins in a cell of `case`.
pub fn case_edges(case: usize) -> (edges: Vec<(usize, usize)>)
    requires
        case < 16,
    ensures
        edges@ == table(case as int),
{
    let mut v: Vec<(usize, usize)> = Vec::new();
    if case == 1 || case == 5 {
        v.push((3, 0));
    }
    if case == 2 || case == 10 {
        v.push((0, 1));
    }
    if case == 3 {
        v.push((3, 1));
    }
    if case == 4 || case == 5 {
        v.push((1, 2));
    }
    if case == 6 {
        v.push((0, 2));
    }
    if case == 7 {
        v.push((3, 2));
    }
    if case == 8 || case == 10 {
        v.push((2, 3));
    }
    if case == 9 {
        v.push((2, 0));
    }
    if case == 11 {
        v.push((2, 1));
    }
    if case == 12 {
        v.push((1, 3));
    }
    if case == 13 {
        v.push((1, 0));
    }
    if case == 14 {
        v.push((0, 3));
    }
    assert(v@ =~= table(case as int));
    v
}

/// Corner `k` of a cell of `case` is blue-dominated.
pub open spec fn corner(case: int, k: int) -> bool {
    if k == 0 {
        case % 2 == 1
    } else if k == 1 {
        (case / 2) % 2 == 1
    } else if k == 2 {
        (case / 4) % 2 == 1
    } else {
        (case / 8) % 2 == 1
    }
}

/// The contour crosses edge `k`: its two corners lie on opposite sides.
pub open spec fn crossed(case: int, k: int) -> bool {
    corner(case, k) != corner(case, (k + 1) % 4)
}

/// The table is right for one case: every segment joins two crossed
/// edges, and every crossed edge is used by some segment.
pub open spec fn case_sound(case: int) -> bool {
    &&& forall|j: int|
        0 <= j < table(case).len() ==> crossed(case, (#[trigger] table(case)[j]).0 as int) && crossed(
            case,
            table(case)[j].1 as int,
        )
    &&& forall|k: int|
        0 <= k < 4 && #[trigger] crossed(case, k) ==> exists|j: int|
            0 <= j < table(case).len() && ((#[trigger] table(case)[j]).0 == k || table(case)[j].1 == k)
}

/// The front line never leaves a cell through an edge its corners do not
/// straddle, and never misses one that they do: in every case, segments
/// join exactly the crossed edges. (All-blue and all-orange cells draw
/// nothing.)
pub proof fn law_contour_joins_crossed_edges(case: int)
    requires
        0 <= case < 16,
    ensures
        case_sound(case),
        (case == 0 || case == 15) ==> table(case).len() == 0,
{
    if case == 0 {
        assert(case_sound(0));
    } else if case == 1 {
        assert(table(1)[0] == (3usize, 0usize));
        assert(case_sound(1));
    } else if case == 2 {
        assert(table(2)[0] == (0usize, 1usize));
        assert(case_sound(2));
    } else if case == 3 {
        assert(table(3)[0] == (3usize, 1usize));
        assert(case_sound(3));
    } else if case == 4 {
        assert(table(4)[0] == (1usize, 2usize));
        assert(case_sound(4));
    } else if case == 5 {
        assert(table(5)[0] == (3usize, 0usize));
        assert(table(5)[1] == (1usize, 2usize));
        assert(case_sound(5));
    } else if case == 6 {
        assert(table(6)[0] == (0usize, 2usize));
        assert(case_sound(6));
    } else if case == 7 {
        assert(table(7)[0] == (3usize, 2usize));
        assert(case_sound(7));
    } else if case == 8 {
        assert(table(8)[0] == (2usize, 3usize));
        assert(case_sound(8));
    } else if case == 9 {
        assert(table(9)[0] == (2usize, 0usize));
        assert(case_sound(9));
    } else if case == 10 {
        assert(table(10)[0] == (0usize, 1usize));
        assert(table(10)[1] == (2usize, 3usize));
        assert(case_sound(10));
    } else if case == 11 {
        assert(table(11)[0] == (2usize, 1usize));
        assert(case_sound(11));
    } else if case == 12 {
        assert(table(12)[0] == (1usize, 3usize));
        assert(case_sound(12));
    } else if case == 13 {
        assert(table(13)[0] == (1usize, 0usize));
        assert(case_sound(13));
    } else if case == 14 {
        assert(table(14)[0] == (0usize, 3usize));
        assert(case_sound(14));
    } else {
        assert(case_sound(15));
    }
}

/// Ticks `engaged` stays on after the last soldier's wind-up, bridging the
/// gaps between swing cycles.
pub const ENGAGE_HOLD_TICKS: u8 = 45;
/// Victory-cheer length in ticks.
pub const CELEBRATE_TICKS: u16 = 150;

/// A regiment's contact state after this tick's count. `count` is its
/// living strength now, `fighting` that some soldier is winding up a
/// melee blow, `hostile` that an unbroken enemy regiment is within watch
/// range, `target_alive` that its attack target has men left, and
/// `in_range` that the target is inside charge range.
pub open spec fn contact_next<P>(
    r: GroupData<P>,
    count: usize,
    fighting: bool,
    hostile: bool,
    target_alive: bool,
    in_range: bool,
) -> GroupData<P> {
    if count == 0 {
        GroupData { count: 0, engaged: false, engage_hold: 0, charging: false, ..r }
    } else {
        let broken = r.state.spec_is_broken();
        let cheer = if r.hostile_near && !hostile && !broken { CELEBRATE_TICKS } else { r.celebrate };
        let celebrate = if hostile || broken {
            0
        } else if cheer > 0 {
            (cheer - 1) as u16
        } else {
            0
        };
        let hold = if fighting {
            ENGAGE_HOLD_TICKS
        } else if r.engage_hold > 0 {
            (r.engage_hold - 1) as u8
        } else {
            0
        };
        let engaged = hold > 0;
        let charging = if engaged || broken {
            false
        } else {
            r.order matches Some(Order::Attack(_)) && target_alive && in_range && !(r.kind
                == KIND_ARCHER && r.ammo_left > 0)
        };
        GroupData {
            count,
            celebrate,
            hostile_near: hostile,
            engage_hold: hold,
            engaged,
            charging,
            ..r
        }
    }
}

fn contact_step<P: Copy>(
    r: &GroupData<P>,
    count: usize,
    fighting: bool,
    hostile: bool,
    target_alive: bool,
    in_range: bool,
) -> (n: GroupData<P>)
    ensures
        n == contact_next(*r, count, fighting, hostile, target_alive, in_range),
{
    if count == 0 {
        return GroupData { count: 0, engaged: false, engage_hold: 0, charging: false, ..*r };
    }
    let broken = r.state.is_broken();
    let cheer: u16 = if r.hostile_near && !hostile && !broken { CELEBRATE_TICKS } else { r.celebrate };
    let celebrate: u16 = if hostile || broken {
        0
    } else if cheer > 0 {
        cheer - 1
    } else {
        0
    };
    let hold: u8 = if fighting {
        ENGAGE_HOLD_TICKS
    } else if r.engage_hold > 0 {
        r.engage_hold - 1
    } else {
        0
    };
    let engaged = hold > 0;
    let attacking = match r.order {
        Some(Order::Attack(_)) => true,
        _ => false,
    };
    let charging = if engaged || broken {
        false
    } else {
        attacking && target_alive && in_range && !(r.kind == KIND_ARCHER && r.ammo_left > 0)
    };
    GroupData { count, celebrate, hostile_near: hostile, engage_hold: hold, engaged, charging, ..*r }
}

/// Whether regiment `g`'s attack target has men left, by this tick's
/// counts (false without an attack order).
pub open spec fn target_alive_in<P>(r: GroupData<P>, counts: Seq<usize>) -> bool {
    match r.order {
        Some(Order::Attack(t)) => counts[t as int] > 0,
        _ => false,
    }
}

/// Refresh every regiment's strength and contact state (one regiment of
/// the TW rule: one soldier fighting engages the whole regiment). Inputs
/// are per regiment, see `contact_next`.
pub fn refresh_contact<P: Copy>(
    regs: &mut Vec<GroupData<P>>,
    counts: &Vec<usize>,
    fighting: &Vec<bool>,
    hostile: &Vec<bool>,
    in_range: &Vec<bool>,
)
    requires
        targets_in_range(old(regs)@),
        counts.len() == old(regs).len(),
        fighting.len() == old(regs).len(),
        hostile.len() == old(regs).len(),
        in_range.len() == old(regs).len(),
    ensures
        final(regs).len() == old(regs).len(),
        forall|g: int|
            0 <= g < old(regs).len() ==> #[trigger] final(regs)@[g] == contact_next(
                old(regs)@[g],
                counts@[g],
                fighting@[g],
                hostile@[g],
                target_alive_in(old(regs)@[g], counts@),
                in_range@[g],
            ),
{
    let ghost orig = regs@;
    let n = regs.len();
    let mut g: usize = 0;
    while g < n
        invariant
            n == regs.len(),
            n == orig.len(),
            counts.len() == n,
            fighting.len() == n,
            hostile.len() == n,
            in_range.len() == n,
            targets_in_range(orig),
            g <= n,
            forall|h: int|
                0 <= h < n ==> #[trigger] regs@[h] == if h < g {
                    contact_next(
                        orig[h],
                        counts@[h],
                        fighting@[h],
                        hostile@[h],
                        target_alive_in(orig[h], counts@),
                        in_range@[h],
                    )
                } else {
                    orig[h]
                },
        decreases n - g,
    {
        let target_alive = match regs[g].order {
            Some(Order::Attack(t)) => {
                assert(orig[g as int].order == Some(Order::<P>::Attack(t)));
                assert(t < n);
                counts[t as usize] > 0
            },
            _ => false,
        };
        let next = contact_step(&regs[g], counts[g], fighting[g], hostile[g], target_alive, in_range[g]);
        regs.set(g, next);
        g = g + 1;
    }
}

/// The engaged flag survives a swing-cycle gap: a regiment that fought
/// this tick stays engaged for the next 44 quiet ticks.
pub proof fn law_engagement_bridges_gaps<P>(r: GroupData<P>, count: usize, hostile: bool, alive: bool, in_range: bool)
    requires
        count > 0,
        1 < r.engage_hold <= ENGAGE_HOLD_TICKS,
    ensures
        contact_next(r, count, false, hostile, alive, in_range).engaged,
        contact_next(r, count, false, hostile, alive, in_range).engage_hold == r.engage_hold - 1,
{
}

/// The line cheers when the last unbroken enemy near it breaks or dies,
/// and never while a hostile regiment is near.
pub proof fn law_cheer_on_falling_edge<P>(r: GroupData<P>, count: usize, fighting: bool, alive: bool, in_range: bool)
    requires
        count > 0,
        r.hostile_near,
        !r.state.spec_is_broken(),
    ensures
        contact_next(r, count, fighting, false, alive, in_range).celebrate == CELEBRATE_TICKS - 1,
        contact_next(r, count, fighting, true, alive, in_range).celebrate == 0,
{
}

/// Soldiers of regiment `g` among the first `n`.
pub open spec fn members(group: Seq<u32>, g: int, n: int) -> int
    decreases n,
{
    if n <= 0 {
        0
    } else {
        members(group, g, n - 1) + if group[n - 1] as int == g { 1int } else { 0int }
    }
}

proof fn lemma_members_bounded(group: Seq<u32>, g: int, n: int)
    requires
        n >= 0,
    ensures
        0 <= members(group, g, n) <= n,
    decreases n,
{
    if n > 0 {
        lemma_members_bounded(group, g, n - 1);
    }
}

/// Per regiment, the soldiers it has and whether any of them fights in
/// melee (one soldier fighting engages the regiment). Per-soldier
/// columns: regiment, fighting in melee.
pub fn tally_regiments(n_regs: usize, group: &Vec<u32>, melee: &Vec<bool>) -> (out: (Vec<usize>, Vec<bool>))
    requires
        melee.len() == group.len(),
        forall|i: int| 0 <= i < group.len() ==> (#[trigger] group@[i]) < n_regs,
    ensures
        out.0.len() == n_regs,
        out.1.len() == n_regs,
        forall|g: int| 0 <= g < n_regs ==> #[trigger] out.0@[g] == members(group@, g, group.len() as int),
        forall|g: int|
            0 <= g < n_regs ==> #[trigger] out.1@[g] == (flagged(group@, melee@, g, group.len() as int) > 0),
{
    let mut counts: Vec<usize> = Vec::new();
    let mut fighting: Vec<bool> = Vec::new();
    let mut g: usize = 0;
    while g < n_regs
        invariant
            g <= n_regs,
            counts.len() == g,
            fighting.len() == g,
            forall|h: int| 0 <= h < g ==> #[trigger] counts@[h] == 0,
            forall|h: int| 0 <= h < g ==> !#[trigger] fighting@[h],
        decreases n_regs - g,
    {
        counts.push(0);
        fighting.push(false);
        g = g + 1;
    }
    let mut i: usize = 0;
    while i < group.len()
        invariant
            i <= group.len(),
            melee.len() == group.len(),
            counts.len() == n_regs,
            fighting.len() == n_regs,
            forall|j: int| 0 <= j < group.len() ==> (#[trigger] group@[j]) < n_regs,
            forall|h: int| 0 <= h < n_regs ==> #[trigger] counts@[h] == members(group@, h, i as int),
            forall|h: int|
                0 <= h < n_regs ==> #[trigger] fighting@[h] == (flagged(group@, melee@, h, i as int) > 0),
        decreases group.len() - i,
    {
        let gi = group[i] as usize;
        proof {
            lemma_members_bounded(group@, gi as int, i as int);
            assert forall|h: int| 0 <= h < n_regs implies flagged(group@, melee@, h, i as int) >= 0 by {
                lemma_flagged_bounded(group@, melee@, h, i as int);
            }
        }
        let c = counts[gi];
        counts.set(gi, c + 1);
        if melee[i] {
            fighting.set(gi, true);
        }
        proof {
            assert forall|h: int| 0 <= h < n_regs implies #[trigger] fighting@[h] == (flagged(
                group@,
                melee@,
                h,
                i + 1,
            ) > 0) by {
                assert(flagged(group@, melee@, h, i + 1) == flagged(group@, melee@, h, i as int) + if group@[i as int]
                    as int == h && melee@[i as int] {
                    1int
                } else {
                    0int
                });
            }
        }
        i = i + 1;
    }
    (counts, fighting)
}

/// Soldiers of the first `r` regiments among the first `n` soldiers.
pub open spec fn members_of_first(group: Seq<u32>, r: int, n: int) -> int
    decreases r,
{
    if r <= 0 {
        0
    } else {
        members_of_first(group, r - 1, n) + members(group, r - 1, n)
    }
}

proof fn lemma_members_of_first_step(group: Seq<u32>, r: int, n: int)
    requires
        n > 0,
        r >= 0,
    ensures
        members_of_first(group, r, n) == members_of_first(group, r, n - 1) + if (group[n - 1] as int) < r {
            1int
        } else {
            0int
        },
    decreases r,
{
    if r > 0 {
        lemma_members_of_first_step(group, r - 1, n);
    }
}

proof fn lemma_members_prefix(group: Seq<u32>, n_regs: int, n: int)
    requires
        n_regs >= 0,
        0 <= n <= group.len(),
        forall|i: int| 0 <= i < group.len() ==> (#[trigger] group[i]) < n_regs,
    ensures
        members_of_first(group, n_regs, n) == n,
    decreases n,
{
    if n == 0 {
        lemma_members_of_first_zero(group, n_regs);
    } else {
        lemma_members_prefix(group, n_regs, n - 1);
        lemma_members_of_first_step(group, n_regs, n);
        assert(group[n - 1] < n_regs);
    }
}

/// The regiment tally partitions the army: when every soldier belongs to
/// one of the `n_regs` regiments, the regiments' strengths add up to the
/// number of soldiers.
pub proof fn law_members_partition(group: Seq<u32>, n_regs: int)
    requires
        n_regs >= 0,
        forall|i: int| 0 <= i < group.len() ==> (#[trigger] group[i]) < n_regs,
    ensures
        members_of_first(group, n_regs, group.len() as int) == group.len(),
{
    lemma_members_prefix(group, n_regs, group.len() as int);
}

proof fn lemma_members_of_first_zero(group: Seq<u32>, r: int)
    ensures
        members_of_first(group, r, 0) == 0,
    decreases r,
{
    if r > 0 {
        lemma_members_of_first_zero(group, r - 1);
    }
}

/// One contour segment of the front: the cell (column `x`, row `z`) and
/// the two cell edges it joins (the game interpolates the crossing points
/// along them).
#[derive(Clone, Copy, PartialEq, Eq, Structural, Debug)]
pub struct Piece {
    pub x: usize,
    pub z: usize,
    pub e0: usize,
    pub e1: usize,
}

/// The marching-squares case of cell (`x`, `z`) of a `w`-wide grid of
/// corner flags (corners 00, 10, 11, 01).
pub open spec fn cell_case(w: int, pos: Seq<bool>, x: int, z: int) -> int {
    let i00 = z * w + x;
    (if pos[i00] { 1int } else { 0 }) + (if pos[i00 + 1] { 2int } else { 0 }) + (if pos[i00 + w + 1] {
        4int
    } else {
        0
    }) + (if pos[i00 + w] { 8int } else { 0 })
}

/// Whether a cell is in contact: both teams present at one of its corners.
pub open spec fn cell_contact(w: int, contact: Seq<bool>, x: int, z: int) -> bool {
    let i00 = z * w + x;
    contact[i00] || contact[i00 + 1] || contact[i00 + w] || contact[i00 + w + 1]
}

/// The segments of one cell: the table's edge pairs of its case, in a
/// contact cell; none elsewhere.
pub open spec fn cell_pieces(w: int, contact: Seq<bool>, pos: Seq<bool>, x: int, z: int) -> Seq<Piece> {
    if cell_contact(w, contact, x, z) {
        table(cell_case(w, pos, x, z)).map_values(
            |e: (usize, usize)| Piece { x: x as usize, z: z as usize, e0: e.0, e1: e.1 },
        )
    } else {
        Seq::empty()
    }
}

/// The segments of the first `c` cells, row by row (`w - 1` cells a row).
pub open spec fn pieces_upto(w: int, contact: Seq<bool>, pos: Seq<bool>, c: int) -> Seq<Piece>
    decreases c,
{
    if c <= 0 || w <= 1 {
        Seq::empty()
    } else {
        pieces_upto(w, contact, pos, c - 1) + cell_pieces(w, contact, pos, (c - 1) % (w - 1), (c - 1) / (w - 1))
    }
}

proof fn lemma_cell_index(w: int, h: int, x: int, z: int)
    requires
        w >= 2,
        0 <= x < w - 1,
        0 <= z < h - 1,
    ensures
        0 <= z * w + x,
        z * w + x + w + 1 < w * h,
        (z * (w - 1) + x) % (w - 1) == x,
        (z * (w - 1) + x) / (w - 1) == z,
{
    assert(z * w + x + w + 1 < w * h && 0 <= z * w) by (nonlinear_arith)
        requires
            w >= 2,
            0 <= x < w - 1,
            0 <= z < h - 1,
    ;
    assert(z * (w - 1) == z * (w - 1));
    vstd::arithmetic::div_mod::lemma_fundamental_div_mod_converse(z * (w - 1) + x, w - 1, z, x);
}

/// The front's contour segments over a `w` by `h` grid of corner flags:
/// `pos[i]` says the corner is blue-dominated, `contact[i]` that both
/// teams are present there. Cells are swept row by row; a contact cell
/// yields its case's segments.
pub fn contour_pieces(w: usize, h: usize, contact: &Vec<bool>, pos: &Vec<bool>) -> (out: Vec<Piece>)
    requires
        w * h <= usize::MAX,
        contact.len() == w * h,
        pos.len() == w * h,
    ensures
        out@ == (if w >= 2 && h >= 2 {
            pieces_upto(w as int, contact@, pos@, (w - 1) * (h - 1))
        } else {
            Seq::<Piece>::empty()
        }),
{
    let mut out: Vec<Piece> = Vec::new();
    if w < 2 || h < 2 {
        return out;
    }
    let mut z: usize = 0;
    while z < h - 1
        invariant
            w >= 2,
            h >= 2,
            w * h <= usize::MAX,
            contact.len() == w * h,
            pos.len() == w * h,
            z <= h - 1,
            out@ == pieces_upto(w as int, contact@, pos@, z * (w - 1)),
        decreases h - 1 - z,
    {
        let mut x: usize = 0;
        while x < w - 1
            invariant
                w >= 2,
                h >= 2,
                w * h <= usize::MAX,
                contact.len() == w * h,
                pos.len() == w * h,
                z < h - 1,
                x <= w - 1,
                out@ == pieces_upto(w as int, contact@, pos@, z * (w - 1) + x),
            decreases w - 1 - x,
        {
            proof {
                lemma_cell_index(w as int, h as int, x as int, z as int);
            }
            let i00 = z * w + x;
            let i10 = i00 + 1;
            let i01 = i00 + w;
            let i11 = i01 + 1;
            let ghost before = out@;
            if contact[i00] || contact[i10] || contact[i01] || contact[i11] {
                let corners: [bool; 4] = [pos[i00], pos[i10], pos[i11], pos[i01]];
                let case = contour_case(&corners);
                let edges = case_edges(case);
                let mut k: usize = 0;
                while k < edges.len()
                    invariant
                        k <= edges.len(),
                        edges@ == table(case as int),
                        out@ == before + edges@.take(k as int).map_values(
                            |e: (usize, usize)| Piece { x: x as usize, z: z as usize, e0: e.0, e1: e.1 },
                        ),
                    decreases edges.len() - k,
                {
                    let (e0, e1) = edges[k];
                    out.push(Piece { x, z, e0, e1 });
                    k = k + 1;
                    proof {
                        assert(out@ =~= before + edges@.take(k as int).map_values(
                            |e: (usize, usize)| Piece { x: x as usize, z: z as usize, e0: e.0, e1: e.1 },
                        ));
                    }
                }
                proof {
                    assert(edges@.take(edges.len() as int) =~= edges@);
                    assert(case == cell_case(w as int, pos@, x as int, z as int));
                }
            }
            proof {
                let c = z * (w - 1) + x;
                assert(out@ =~= before + cell_pieces(w as int, contact@, pos@, x as int, z as int));
                assert(pieces_upto(w as int, contact@, pos@, c + 1) == pieces_upto(w as int, contact@, pos@, c)
                    + cell_pieces(w as int, contact@, pos@, c % (w - 1), c / (w - 1)));
            }
            x = x + 1;
        }
        proof {
            assert((z + 1) * (w - 1) == z * (w - 1) + (w - 1)) by (nonlinear_arith);
        }
        z = z + 1;
    }
    proof {
        assert(z * (w - 1) == (w - 1) * (h - 1)) by (nonlinear_arith)
            requires
                z == h - 1,
        ;
    }
    out
}

/// A regiment's melee bookkeeping: how long its melee has run, whether it
/// holds a contact frame, and the crash of a charge (the block keeps coming
/// until the enemy has stopped it, at most `crash_cap` ticks).
#[derive(Clone, Copy, PartialEq, Eq, Structural, Debug)]
pub struct MeleeClock {
    pub melee_ticks: u32,
    pub contact: bool,
    pub crashing: bool,
    pub crash_ticks: u16,
    pub crash_cap: u16,
}

/// What the tick's sums and tests tell the melee clock.
#[derive(Clone, Copy)]
pub struct MeleeSense {
    /// The regiment is engaged after this tick's contact refresh.
    pub engaged: bool,
    pub broken: bool,
    /// Its shape is the rank-and-file grid.
    pub rect: bool,
    /// It holds position.
    pub hold: bool,
    /// Its order is an attack (on anyone).
    pub attack_order: bool,
    /// Its attack target has men left and is not broken.
    pub target_live: bool,
    /// Enough of its men fight to lock the melee (the count threshold).
    pub enough_fighting: bool,
    /// It was charging before this tick, and is charging after it.
    pub was_charging: bool,
    pub charging: bool,
    /// The cap a crash starting now gets (its depth over the charge pace).
    pub new_crash_cap: u16,
    /// Its block has slowed under the stall speed.
    pub slowed: bool,
}

/// Where the men of a fighting regiment head when they join the fight.
#[derive(Clone, Copy, PartialEq, Eq, Structural, Debug)]
pub enum FightPoint {
    /// Not in melee, or holding position.
    Nowhere,
    /// The attack target's center.
    Target,
    /// The nearest formed enemy block's center.
    NearestFormed,
}

/// What a melee tick asks of the game besides the clock.
#[derive(Clone, Copy, PartialEq, Eq, Structural, Debug)]
pub struct MeleeOutcome {
    /// The melee ended for a rect block without an attack order: it
    /// re-forms where it stands.
    pub reform_here: bool,
    /// A contact frame was taken this tick (the game lays it at the
    /// fight line).
    pub frame_taken: bool,
    pub fight_point: FightPoint,
}

/// One tick of the melee clock. The melee clock runs while the regiment
/// is engaged, unbroken and not crashing, once enough of its men fight;
/// a melee that ends re-forms a rect block without an attack order where
/// it stands. A formed attacker engaged on a live target takes a contact
/// frame when enough of its men fight and keeps it while that holds. A charge that
/// ends engaged, before any melee, crashes on: the crash runs until the
/// block is stopped (slowed after 15 ticks), its cap runs out, or contact
/// is lost.
pub open spec fn melee_next(c: MeleeClock, k: MeleeSense) -> (MeleeClock, MeleeOutcome) {
    let runs = k.engaged && !k.broken && !c.crashing && (c.melee_ticks > 0 || k.enough_fighting);
    let melee_ticks: u32 = if runs {
        if c.melee_ticks == u32::MAX { u32::MAX } else { (c.melee_ticks + 1) as u32 }
    } else {
        0
    };
    let reform_here = !runs && c.melee_ticks > 0 && k.rect && !k.broken && !k.attack_order;
    let fight_point = if melee_ticks > 0 && !k.hold {
        if k.attack_order && k.target_live { FightPoint::Target } else { FightPoint::NearestFormed }
    } else {
        FightPoint::Nowhere
    };
    let keep = k.rect && !k.broken && k.attack_order && k.target_live && k.engaged && !c.crashing && (c.contact
        || k.enough_fighting);
    let contact = keep;
    let frame_taken = keep && !c.contact;
    let starts_crash = k.was_charging && !k.charging && k.engaged && melee_ticks == 0 && !c.crashing;
    let ticked: u16 = if c.crash_ticks == u16::MAX { u16::MAX } else { (c.crash_ticks + 1) as u16 };
    let (crashing, crash_ticks, crash_cap) = if starts_crash {
        (true, 0u16, k.new_crash_cap)
    } else if c.crashing {
        let ends = (ticked > 15 && k.slowed) || ticked > c.crash_cap || !k.engaged;
        (!ends, ticked, c.crash_cap)
    } else {
        (false, c.crash_ticks, c.crash_cap)
    };
    (
        MeleeClock { melee_ticks, contact, crashing, crash_ticks, crash_cap },
        MeleeOutcome { reform_here, frame_taken, fight_point },
    )
}

/// Run one tick of a regiment's melee clock (see `melee_next`).
pub fn melee_step(c: &mut MeleeClock, k: &MeleeSense) -> (out: MeleeOutcome)
    ensures
        (*final(c), out) == melee_next(*old(c), *k),
{
    let was_crashing = c.crashing;
    let runs = k.engaged && !k.broken && !was_crashing && (c.melee_ticks > 0 || k.enough_fighting);
    let mut reform_here = false;
    if runs {
        c.melee_ticks = if c.melee_ticks == u32::MAX { u32::MAX } else { c.melee_ticks + 1 };
    } else {
        if c.melee_ticks > 0 && k.rect && !k.broken && !k.attack_order {
            reform_here = true;
        }
        c.melee_ticks = 0;
    }
    let fight_point = if c.melee_ticks > 0 && !k.hold {
        if k.attack_order && k.target_live { FightPoint::Target } else { FightPoint::NearestFormed }
    } else {
        FightPoint::Nowhere
    };
    let keep = k.rect && !k.broken && k.attack_order && k.target_live && k.engaged && !was_crashing && (c.contact
        || k.enough_fighting);
    let frame_taken = keep && !c.contact;
    c.contact = keep;
    if k.was_charging && !k.charging && k.engaged && c.melee_ticks == 0 && !was_crashing {
        c.crashing = true;
        c.crash_ticks = 0;
        c.crash_cap = k.new_crash_cap;
    } else if was_crashing {
        c.crash_ticks = if c.crash_ticks == u16::MAX { u16::MAX } else { c.crash_ticks + 1 };
        let stalled = c.crash_ticks > 15 && k.slowed;
        if stalled || c.crash_ticks > c.crash_cap || !k.engaged {
            c.crashing = false;
        }
    }
    MeleeOutcome { reform_here, frame_taken, fight_point }
}

/// A crash never outlasts its cap: while a regiment crashes, its crash
/// ticks stay within the cap, tick after tick.
pub proof fn law_crash_within_cap(c: MeleeClock, k: MeleeSense)
    requires
        c.crashing ==> c.crash_ticks <= c.crash_cap,
    ensures
        melee_next(c, k).0.crashing ==> melee_next(c, k).0.crash_ticks <= melee_next(c, k).0.crash_cap,
{
}

/// The melee waits for the crash: while a regiment crashes its melee
/// clock stands at zero, and it holds no contact frame.
pub proof fn law_melee_waits_for_the_crash(c: MeleeClock, k: MeleeSense)
    requires
        c.crashing,
    ensures
        melee_next(c, k).0.melee_ticks == 0,
        !melee_next(c, k).0.contact,
        melee_next(c, k).1.fight_point == FightPoint::Nowhere,
{
}

} // verus!
