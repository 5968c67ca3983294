//! Rigid regiment formations: the rank-and-file slot grid, the formation
//! hotkeys (wall, loose, blob, hold as set toggles), and the close-ranks
//! schedule that decides when a regiment rewrites its slots.
use vstd::prelude::*;
use crate::regiment::{GroupData, FormShape, FormSpacing};

verus! {

/// Files actually used for `n` soldiers asked to stand `files` wide: at
/// least one, at most one rank of everybody.
pub open spec fn eff_files(n: int, files: int) -> int {
    let hi = if n > 1 { n } else { 1 };
    if files < 1 {
        1
    } else if files > hi {
        hi
    } else {
        files
    }
}

/// Ranks of a block of `n` in `f` files (the last rank may be partial).
pub open spec fn ranks_of(n: int, f: int) -> int {
    (n + f - 1) / f
}

/// One soldier's slot in the grid: rank (front first), position within
/// the rank (left first), and how many stand in that rank, so the caller
/// can center a partial last rank.
#[derive(Clone, Copy, PartialEq, Eq, Structural, Debug)]
pub struct SlotCell {
    pub rank: usize,
    pub col: usize,
    pub in_row: usize,
}

/// The slot grid of `n` soldiers in `files` columns, row-major: front rank
/// first, left to right. Soldier `k` stands in rank `k / f`, column
/// `k % f` (`f` the effective files), and his rank holds `f` men except a
/// partial last one. The one grid used for slot assignment and for the
/// drag-order preview.
pub fn slot_cells(n: usize, files: usize) -> (out: Vec<SlotCell>)
    ensures
        out.len() == n,
        forall|k: int|
            0 <= k < n ==> {
                let f = eff_files(n as int, files as int);
                &&& (#[trigger] out@[k]).rank == k / f
                &&& out@[k].col == k % f
                &&& out@[k].in_row == if f < n - (k / f) * f {
                    f
                } else {
                    n - (k / f) * f
                }
            },
{
    let hi: usize = if n > 1 { n } else { 1 };
    let f: usize = if files < 1 { 1 } else if files > hi { hi } else { files };
    let ghost fi = f as int;
    assert(fi == eff_files(n as int, files as int));
    let mut out: Vec<SlotCell> = Vec::new();
    let mut r: usize = 0;
    while out.len() < n
        invariant
            1 <= f,
            fi == f,
            fi == eff_files(n as int, files as int),
            out.len() <= n,
            out.len() == r * fi,
            forall|k: int|
                0 <= k < out.len() ==> {
                    &&& (#[trigger] out@[k]).rank == k / fi
                    &&& out@[k].col == k % fi
                    &&& out@[k].in_row == if fi < n - (k / fi) * fi {
                        fi
                    } else {
                        n - (k / fi) * fi
                    }
                },
        decreases n - out.len(),
    {
        let start = out.len();
        let left = n - start;
        let in_row: usize = if f < left { f } else { left };
        let mut c: usize = 0;
        while c < in_row
            invariant
                1 <= f,
                fi == f,
                start == r * fi,
                start + in_row <= n,
                in_row <= f,
                in_row == if fi < n - start { fi } else { n - start },
                c <= in_row,
                out.len() == start + c,
                forall|k: int|
                    0 <= k < out.len() ==> {
                        &&& (#[trigger] out@[k]).rank == k / fi
                        &&& out@[k].col == k % fi
                        &&& out@[k].in_row == if fi < n - (k / fi) * fi {
                            fi
                        } else {
                            n - (k / fi) * fi
                        }
                    },
            decreases in_row - c,
        {
            proof {
                let k = start + c;
                vstd::arithmetic::div_mod::lemma_fundamental_div_mod_converse(k as int, fi, r as int, c as int);
            }
            out.push(SlotCell { rank: r, col: c, in_row });
            c = c + 1;
        }
        if in_row < f {
            // the partial last rank closes the block
            assert(out.len() == n);
            return out;
        }
        proof {
            assert((r + 1) * fi == r * fi + fi) by (nonlinear_arith);
            assert(r + 1 <= (r + 1) * fi) by (nonlinear_arith)
                requires fi >= 1, r >= 0;
        }
        r = r + 1;
    }
    out
}

/// A regiment's spacing after a wall/loose toggle: everyone enters the
/// mode (`on`) or everyone falls back to close order; the block forms
/// ranks (taking `default_files` when it never had a width) and re-forms.
pub open spec fn respaced<P>(r: GroupData<P>, on: bool, want: FormSpacing, default_files: u32) -> GroupData<P> {
    GroupData {
        spacing: if on { want } else { FormSpacing::Normal },
        shape: FormShape::Rect,
        files: if r.files == 0 { default_files } else { r.files },
        reform: true,
        ..r
    }
}

fn respace<P: Copy>(r: &GroupData<P>, on: bool, want: FormSpacing, default_files: u32) -> (n: GroupData<P>)
    ensures
        n == respaced(*r, on, want, default_files),
{
    GroupData {
        spacing: if on { want } else { FormSpacing::Normal },
        shape: FormShape::Rect,
        files: if r.files == 0 { default_files } else { r.files },
        reform: true,
        ..*r
    }
}

fn reshape<P: Copy>(r: &GroupData<P>, on: bool, default_files: u32) -> (n: GroupData<P>)
    ensures
        n == reshaped(*r, on, default_files),
{
    GroupData {
        shape: if on { FormShape::Blob } else { FormShape::Rect },
        files: if r.files == 0 { default_files } else { r.files },
        reform: true,
        ..*r
    }
}

fn with_hold<P: Copy>(r: &GroupData<P>, on: bool) -> (n: GroupData<P>)
    ensures
        n == (GroupData { hold: on, ..*r }),
{
    GroupData { hold: on, ..*r }
}

/// Some picked regiment is not in spacing `want` yet.
pub open spec fn any_not_in<P>(regs: Seq<GroupData<P>>, picked: Seq<usize>, want: FormSpacing) -> bool {
    exists|k: int| 0 <= k < picked.len() && regs[(#[trigger] picked[k]) as int].spacing != want
}

/// Toggle a spacing mode (F: wall, L: loose) on the picked regiments as a
/// set: if anyone is not yet in the mode, everyone enters it; if all are,
/// everyone falls back to close order. Returns whether the mode went on.
#[verifier::rlimit(60)]
pub fn toggle_spacing<P: Copy>(
    regs: &mut Vec<GroupData<P>>,
    picked: &Vec<usize>,
    want: FormSpacing,
    default_files: &Vec<u32>,
) -> (on: bool)
    requires
        forall|k: int| 0 <= k < picked.len() ==> #[trigger] picked@[k] < old(regs).len(),
        default_files.len() == old(regs).len(),
    ensures
        on == any_not_in(old(regs)@, picked@, want),
        final(regs).len() == old(regs).len(),
        forall|g: int|
            0 <= g < old(regs).len() ==> #[trigger] final(regs)@[g] == if picked@.contains(g as usize) {
                respaced(old(regs)@[g], on, want, default_files@[g])
            } else {
                old(regs)@[g]
            },
{
    let mut on = false;
    let mut i: usize = 0;
    while i < picked.len()
        invariant
            i <= picked.len(),
            forall|k: int| 0 <= k < picked.len() ==> #[trigger] picked@[k] < regs.len(),
            on == exists|k: int| 0 <= k < i && regs@[(#[trigger] picked@[k]) as int].spacing != want,
        decreases picked.len() - i,
    {
        if regs[picked[i]].spacing != want {
            on = true;
        }
        i = i + 1;
    }
    let ghost orig = regs@;
    let mut i: usize = 0;
    while i < picked.len()
        invariant
            i <= picked.len(),
            forall|k: int| 0 <= k < picked.len() ==> #[trigger] picked@[k] < orig.len(),
            default_files.len() == orig.len(),
            regs.len() == orig.len(),
            forall|g: int|
                0 <= g < orig.len() ==> #[trigger] regs@[g] == if picked@.subrange(0, i as int).contains(
                    g as usize,
                ) {
                    respaced(orig[g], on, want, default_files@[g])
                } else {
                    orig[g]
                },
        decreases picked.len() - i,
    {
        let g = picked[i];
        proof {
            assert forall|h: int| 0 <= h < orig.len() implies (#[trigger] picked@.subrange(0, i + 1).contains(h as usize)
                <==> (picked@.subrange(0, i as int).contains(h as usize) || h == g)) by {
                crate::orders::lemma_prefix_contains(picked@, i as int, h as usize);
            }
        }
        let n = respace(&regs[g], on, want, default_files[g]);
        proof {
            if picked@.subrange(0, i as int).contains(g) {
                assert(respaced(respaced(orig[g as int], on, want, default_files@[g as int]), on, want, default_files@[g as int])
                    == respaced(orig[g as int], on, want, default_files@[g as int]));
            }
        }
        regs.set(g, n);
        i = i + 1;
    }
    assert(picked@.subrange(0, picked.len() as int) =~= picked@);
    on
}

/// A regiment's shape after the blob toggle.
pub open spec fn reshaped<P>(r: GroupData<P>, on: bool, default_files: u32) -> GroupData<P> {
    GroupData {
        shape: if on { FormShape::Blob } else { FormShape::Rect },
        files: if r.files == 0 { default_files } else { r.files },
        reform: true,
        ..r
    }
}

/// B: blob (a mob) against ranks, as a set toggle like the spacing modes.
/// Returns whether the picked regiments went to blob.
#[verifier::rlimit(60)]
pub fn toggle_blob<P: Copy>(regs: &mut Vec<GroupData<P>>, picked: &Vec<usize>, default_files: &Vec<u32>) -> (on: bool)
    requires
        forall|k: int| 0 <= k < picked.len() ==> #[trigger] picked@[k] < old(regs).len(),
        default_files.len() == old(regs).len(),
    ensures
        on == exists|k: int| 0 <= k < picked.len() && old(regs)@[(#[trigger] picked@[k]) as int].shape != FormShape::Blob,
        final(regs).len() == old(regs).len(),
        forall|g: int|
            0 <= g < old(regs).len() ==> #[trigger] final(regs)@[g] == if picked@.contains(g as usize) {
                reshaped(old(regs)@[g], on, default_files@[g])
            } else {
                old(regs)@[g]
            },
{
    let mut on = false;
    let mut i: usize = 0;
    while i < picked.len()
        invariant
            i <= picked.len(),
            forall|k: int| 0 <= k < picked.len() ==> #[trigger] picked@[k] < regs.len(),
            on == exists|k: int| 0 <= k < i && regs@[(#[trigger] picked@[k]) as int].shape != FormShape::Blob,
        decreases picked.len() - i,
    {
        if regs[picked[i]].shape != FormShape::Blob {
            on = true;
        }
        i = i + 1;
    }
    let ghost orig = regs@;
    let mut i: usize = 0;
    while i < picked.len()
        invariant
            i <= picked.len(),
            forall|k: int| 0 <= k < picked.len() ==> #[trigger] picked@[k] < orig.len(),
            default_files.len() == orig.len(),
            regs.len() == orig.len(),
            forall|g: int|
                0 <= g < orig.len() ==> #[trigger] regs@[g] == if picked@.subrange(0, i as int).contains(
                    g as usize,
                ) {
                    reshaped(orig[g], on, default_files@[g])
                } else {
                    orig[g]
                },
        decreases picked.len() - i,
    {
        let g = picked[i];
        proof {
            assert forall|h: int| 0 <= h < orig.len() implies (#[trigger] picked@.subrange(0, i + 1).contains(h as usize)
                <==> (picked@.subrange(0, i as int).contains(h as usize) || h == g)) by {
                crate::orders::lemma_prefix_contains(picked@, i as int, h as usize);
            }
        }
        proof {
            if picked@.subrange(0, i as int).contains(g) {
                assert(reshaped(reshaped(orig[g as int], on, default_files@[g as int]), on, default_files@[g as int])
                    == reshaped(orig[g as int], on, default_files@[g as int]));
            }
        }
        let n = reshape(&regs[g], on, default_files[g]);
        regs.set(g, n);
        i = i + 1;
    }
    assert(picked@.subrange(0, picked.len() as int) =~= picked@);
    on
}

/// H: hold position against at ease, as a set toggle. Held regiments
/// never chase and never engage on their own. Returns whether hold went on.
#[verifier::rlimit(60)]
pub fn toggle_hold<P: Copy>(regs: &mut Vec<GroupData<P>>, picked: &Vec<usize>) -> (on: bool)
    requires
        forall|k: int| 0 <= k < picked.len() ==> #[trigger] picked@[k] < old(regs).len(),
    ensures
        on == exists|k: int| 0 <= k < picked.len() && !old(regs)@[(#[trigger] picked@[k]) as int].hold,
        final(regs).len() == old(regs).len(),
        forall|g: int|
            0 <= g < old(regs).len() ==> #[trigger] final(regs)@[g] == if picked@.contains(g as usize) {
                GroupData { hold: on, ..old(regs)@[g] }
            } else {
                old(regs)@[g]
            },
{
    let mut on = false;
    let mut i: usize = 0;
    while i < picked.len()
        invariant
            i <= picked.len(),
            forall|k: int| 0 <= k < picked.len() ==> #[trigger] picked@[k] < regs.len(),
            on == exists|k: int| 0 <= k < i && !regs@[(#[trigger] picked@[k]) as int].hold,
        decreases picked.len() - i,
    {
        if !regs[picked[i]].hold {
            on = true;
        }
        i = i + 1;
    }
    let ghost orig = regs@;
    let mut i: usize = 0;
    while i < picked.len()
        invariant
            i <= picked.len(),
            forall|k: int| 0 <= k < picked.len() ==> #[trigger] picked@[k] < orig.len(),
            regs.len() == orig.len(),
            forall|g: int|
                0 <= g < orig.len() ==> #[trigger] regs@[g] == if picked@.subrange(0, i as int).contains(
                    g as usize,
                ) {
                    GroupData { hold: on, ..orig[g] }
                } else {
                    orig[g]
                },
        decreases picked.len() - i,
    {
        let g = picked[i];
        proof {
            assert forall|h: int| 0 <= h < orig.len() implies (#[trigger] picked@.subrange(0, i + 1).contains(h as usize)
                <==> (picked@.subrange(0, i as int).contains(h as usize) || h == g)) by {
                crate::orders::lemma_prefix_contains(picked@, i as int, h as usize);
            }
        }
        let n = with_hold(&regs[g], on);
        regs.set(g, n);
        i = i + 1;
    }
    assert(picked@.subrange(0, picked.len() as int) =~= picked@);
    on
}

/// After a set toggle every picked regiment stands in the same spacing:
/// the mode, or close order.
pub proof fn law_toggle_is_uniform<P>(r: GroupData<P>, s: GroupData<P>, on: bool, want: FormSpacing, fr: u32, fs: u32)
    ensures
        respaced(r, on, want, fr).spacing == respaced(s, on, want, fs).spacing,
        respaced(r, on, want, fr).shape == FormShape::Rect,
{
}

/// Ticks between close-ranks checks per regiment (staggered by index).
pub const CLOSE_RANKS_PERIOD: u32 = 90;
/// Ticks between close-ranks checks while engaged (close-fight model).
pub const ENGAGED_CLOSE_RANKS_PERIOD: u32 = 240;

/// Whether regiment `g` rewrites its slots on tick `tick`: on request, or
/// when a Rect block out of contact (or in contact, under the close-fight
/// model) has, at its staggered check, lost at least `close_min` men and
/// at least 8 since it last formed. Dead and broken regiments never do.
pub open spec fn reform_due<P>(r: GroupData<P>, g: int, tick: u32, rectfight: bool, close_min: int) -> bool {
    if r.count == 0 || r.state.spec_is_broken() {
        false
    } else if r.reform {
        true
    } else if r.shape == FormShape::Rect && (!r.engaged || rectfight) {
        let period = if r.engaged { ENGAGED_CLOSE_RANKS_PERIOD } else { CLOSE_RANKS_PERIOD };
        let stamp = (tick as int + (g as u32) as int) % 0x1_0000_0000;
        let lost = if r.count_at_reform >= r.count { r.count_at_reform - r.count } else { 0 };
        stamp % (period as int) == 0 && lost >= (if 8 > close_min { 8 } else { close_min })
    } else {
        false
    }
}

/// The close-ranks schedule for one fixed tick: which regiments rewrite
/// their slots now. Pending requests of dead or broken regiments are
/// dropped (nobody dresses ranks while fleeing). `close_min[g]` is the
/// close-ranks fraction of the strength the regiment last formed with.
#[verifier::rlimit(40)]
pub fn plan_reforms<P: Copy>(
    regs: &mut Vec<GroupData<P>>,
    tick: u32,
    rectfight: bool,
    close_min: &Vec<usize>,
) -> (due: Vec<bool>)
    requires
        close_min.len() == old(regs).len(),
    ensures
        final(regs).len() == old(regs).len(),
        due.len() == old(regs).len(),
        forall|g: int|
            0 <= g < old(regs).len() ==> #[trigger] due@[g] == reform_due(
                old(regs)@[g],
                g,
                tick,
                rectfight,
                close_min@[g] as int,
            ),
        forall|g: int|
            0 <= g < old(regs).len() ==> #[trigger] final(regs)@[g] == if old(regs)@[g].count == 0
                || old(regs)@[g].state.spec_is_broken() {
                GroupData { reform: false, ..old(regs)@[g] }
            } else {
                old(regs)@[g]
            },
{
    let ghost orig = regs@;
    let n = regs.len();
    let mut due: Vec<bool> = Vec::new();
    let mut g: usize = 0;
    while g < n
        invariant
            n == regs.len(),
            n == orig.len(),
            close_min.len() == n,
            g <= n,
            due.len() == g,
            forall|h: int|
                0 <= h < g ==> #[trigger] due@[h] == reform_due(orig[h], h, tick, rectfight, close_min@[h] as int),
            forall|h: int|
                0 <= h < n ==> #[trigger] regs@[h] == if h < g && (orig[h].count == 0
                    || orig[h].state.spec_is_broken()) {
                    GroupData { reform: false, ..orig[h] }
                } else {
                    orig[h]
                },
        decreases n - g,
    {
        let r = &regs[g];
        if r.count == 0 || r.state.is_broken() {
            let cleared = GroupData { reform: false, ..*r };
            regs.set(g, cleared);
            due.push(false);
        } else {
            let mut d = r.reform;
            if !d && r.shape == FormShape::Rect && (!r.engaged || rectfight) {
                let period: u32 = if r.engaged { ENGAGED_CLOSE_RANKS_PERIOD } else { CLOSE_RANKS_PERIOD };
                let stamp = tick.wrapping_add(g as u32);
                assert(stamp as int == (tick as int + (g as u32) as int) % 0x1_0000_0000);
                if stamp % period == 0 {
                    let lost: usize = if r.count_at_reform >= r.count { r.count_at_reform - r.count } else { 0 };
                    let floor: usize = if 8 > close_min[g] { 8 } else { close_min[g] };
                    if lost >= floor {
                        d = true;
                    }
                }
            }
            due.push(d);
        }
        g = g + 1;
    }
    due
}

/// Slots were rewritten for the `living` men of a regiment: the request is
/// served and the strength remembered for the next close-ranks check.
pub fn mark_formed<P>(r: &mut GroupData<P>, living: usize)
    ensures
        final(r).count_at_reform == living,
        !final(r).reform,
        *final(r) == (GroupData { count_at_reform: living, reform: false, ..*old(r) }),
{
    r.count_at_reform = living;
    r.reform = false;
}

/// A static army: every regiment of `team` holds position (never
/// auto-engages, never chases); nothing else changes.
pub fn hold_team<P: Copy>(regs: &mut Vec<GroupData<P>>, team: u8)
    ensures
        final(regs).len() == old(regs).len(),
        forall|g: int|
            0 <= g < old(regs).len() ==> #[trigger] final(regs)@[g] == if old(regs)@[g].team == team {
                GroupData { hold: true, ..old(regs)@[g] }
            } else {
                old(regs)@[g]
            },
{
    let ghost orig = regs@;
    let mut g: usize = 0;
    while g < regs.len()
        invariant
            g <= regs.len(),
            regs.len() == orig.len(),
            forall|h: int|
                0 <= h < orig.len() ==> #[trigger] regs@[h] == if h < g && orig[h].team == team {
                    GroupData { hold: true, ..orig[h] }
                } else {
                    orig[h]
                },
        decreases regs.len() - g,
    {
        if regs[g].team == team {
            let r = &regs[g];
            let n = GroupData { hold: true, ..*r };
            regs.set(g, n);
        }
        g = g + 1;
    }
}

/// The living soldiers of regiment `g` among the first `n`, in index
/// order (a dying man keeps no slot).
pub open spec fn members_in(group: Seq<u32>, death_t: Seq<u8>, g: u32, n: int) -> Seq<u32>
    decreases n,
{
    if n <= 0 {
        Seq::empty()
    } else {
        let rest = members_in(group, death_t, g, n - 1);
        if group[n - 1] == g && death_t[n - 1] == 0 {
            rest.push((n - 1) as u32)
        } else {
            rest
        }
    }
}

/// The soldiers a reform gives slots to: regiment `g`'s living men, in
/// index order. Per-soldier columns: regiment, death timer.
pub fn regiment_members(group: &Vec<u32>, death_t: &Vec<u8>, g: u32) -> (m: Vec<u32>)
    requires
        death_t.len() == group.len(),
        group.len() <= u32::MAX + 1,
    ensures
        m@ == members_in(group@, death_t@, g, group.len() as int),
{
    let mut m: Vec<u32> = Vec::new();
    let mut i: usize = 0;
    while i < group.len()
        invariant
            i <= group.len(),
            death_t.len() == group.len(),
            group.len() <= u32::MAX + 1,
            m@ == members_in(group@, death_t@, g, i as int),
        decreases group.len() - i,
    {
        if group[i] == g && death_t[i] == 0 {
            m.push(i as u32);
        }
        i = i + 1;
    }
    m
}

/// Files of a rect block of `n` men: the regiment's files, at least one,
/// never more than the men.
pub fn rect_files(files: u32, n: usize) -> (f: usize)
    ensures
        f == {
            let lo = if files > 1 { files as int } else { 1 };
            if lo < n { lo } else { n as int }
        },
{
    let lo: usize = if files > 1 { files as usize } else { 1 };
    if lo < n { lo } else { n }
}

} // verus!
