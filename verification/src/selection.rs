//! Regiment selection: the selection mask with its cached unit total,
//! the promotion of lasso hits to whole regiments, and control groups.
use vstd::prelude::*;
use crate::regiment::{GroupData, PLAYER_TEAM, RegState, controllable};

verus! {

/// Selected regiments (player team only) and the cached unit total.
pub struct Selection {
    pub regiments: Vec<bool>,
    pub count_units: usize,
}

/// Units of the player's regiments selected among the first `n` mask
/// entries.
pub open spec fn selected_units<P>(regs: Seq<GroupData<P>>, mask: Seq<bool>, n: int) -> int
    decreases n,
{
    if n <= 0 {
        0
    } else {
        selected_units(regs, mask, n - 1) + if mask[n - 1] && regs[n - 1].team == PLAYER_TEAM {
            regs[n - 1].count as int
        } else {
            0
        }
    }
}

/// The unit total of a whole mask.
pub open spec fn mask_units<P>(regs: Seq<GroupData<P>>, mask: Seq<bool>) -> int {
    selected_units(regs, mask, mask.len() as int)
}

/// Prefix totals never exceed longer prefixes.
pub proof fn lemma_selected_units_monotone<P>(regs: Seq<GroupData<P>>, mask: Seq<bool>, i: int, j: int)
    requires
        0 <= i <= j,
    ensures
        0 <= selected_units(regs, mask, i) <= selected_units(regs, mask, j),
    decreases j - i,
{
    if i < j {
        lemma_selected_units_monotone(regs, mask, i, j - 1);
    } else {
        lemma_selected_units_nonneg(regs, mask, i);
    }
}

proof fn lemma_selected_units_nonneg<P>(regs: Seq<GroupData<P>>, mask: Seq<bool>, i: int)
    ensures
        0 <= selected_units(regs, mask, i),
    decreases i,
{
    if i > 0 {
        lemma_selected_units_nonneg(regs, mask, i - 1);
    }
}

/// The regiments with a `true` mask entry that are alive and not broken,
/// in index order.
pub open spec fn picked_of<P>(regs: Seq<GroupData<P>>, mask: Seq<bool>, n: int) -> Seq<usize>
    decreases n,
{
    if n <= 0 {
        Seq::empty()
    } else {
        let rest = picked_of(regs, mask, n - 1);
        if mask[n - 1] && controllable(regs[n - 1]) {
            rest.push((n - 1) as usize)
        } else {
            rest
        }
    }
}

/// Regiment `g` is among the first `n`, masked, with men left and steady.
pub open spec fn pickable<P>(regs: Seq<GroupData<P>>, mask: Seq<bool>, n: int, g: int) -> bool {
    &&& 0 <= g < n
    &&& mask[g]
    &&& regs[g].count > 0
    &&& regs[g].state == RegState::Steady
}

/// The picked set holds exactly the masked regiments with men left that
/// are steady, each once, in increasing index order: no broken regiment
/// ever takes a selection command.
pub proof fn law_picked_are_steady<P>(regs: Seq<GroupData<P>>, mask: Seq<bool>, n: int)
    requires
        0 <= n <= mask.len(),
        n <= regs.len(),
        n <= usize::MAX,
    ensures
        forall|k: int|
            0 <= k < picked_of(regs, mask, n).len() ==> pickable(regs, mask, n, #[trigger] picked_of(regs, mask, n)[k] as int),
        forall|g: int| pickable(regs, mask, n, g) ==> #[trigger] picked_of(regs, mask, n).contains(g as usize),
        forall|j: int, k: int|
            0 <= j < k < picked_of(regs, mask, n).len() ==> picked_of(regs, mask, n)[j]
                < picked_of(regs, mask, n)[k],
    decreases n,
{
    if n > 0 {
        law_picked_are_steady(regs, mask, n - 1);
        let rest = picked_of(regs, mask, n - 1);
        let p = picked_of(regs, mask, n);
        if controllable(regs[n - 1]) && mask[n - 1] {
            assert(p == rest.push((n - 1) as usize));
            assert(p[rest.len() as int] == (n - 1) as usize);
            assert forall|k: int| 0 <= k < p.len() implies pickable(regs, mask, n, #[trigger] p[k] as int) by {
                if k < rest.len() {
                    assert(p[k] == rest[k]);
                    assert(pickable(regs, mask, n - 1, rest[k] as int));
                }
            }
            assert forall|j: int, k: int| 0 <= j < k < p.len() implies p[j] < p[k] by {
                assert(p[j] == rest[j]);
                assert(pickable(regs, mask, n - 1, rest[j] as int));
                if k < rest.len() {
                    assert(p[k] == rest[k]);
                }
            }
            assert forall|g: int| pickable(regs, mask, n, g) implies #[trigger] p.contains(g as usize) by {
                if g < n - 1 {
                    assert(pickable(regs, mask, n - 1, g));
                    assert(rest.contains(g as usize));
                    let i = choose|i: int| 0 <= i < rest.len() && rest[i] == g as usize;
                    assert(p[i] == g as usize);
                } else {
                    assert(p[rest.len() as int] == g as usize);
                }
            }
        } else {
            assert(p == rest);
            assert forall|k: int| 0 <= k < p.len() implies pickable(regs, mask, n, #[trigger] p[k] as int) by {
                assert(pickable(regs, mask, n - 1, rest[k] as int));
            }
            assert forall|g: int| pickable(regs, mask, n, g) implies #[trigger] p.contains(g as usize) by {
                assert(g != n - 1);
                assert(pickable(regs, mask, n - 1, g));
            }
        }
    }
}

impl Selection {
    /// Recompute `count_units` from the mask (player team only).
    pub fn recount<P>(&mut self, regs: &Vec<GroupData<P>>)
        requires
            old(self).regiments.len() <= regs.len(),
            mask_units(regs@, old(self).regiments@) <= usize::MAX,
        ensures
            final(self).regiments == old(self).regiments,
            final(self).count_units == mask_units(regs@, old(self).regiments@),
    {
        let n = self.regiments.len();
        let mut total: usize = 0;
        let mut g: usize = 0;
        while g < n
            invariant
                n == self.regiments.len(),
                n <= regs.len(),
                g <= n,
                total == selected_units(regs@, self.regiments@, g as int),
                selected_units(regs@, self.regiments@, n as int) <= usize::MAX,
            decreases n - g,
        {
            proof {
                lemma_selected_units_monotone(regs@, self.regiments@, g + 1, n as int);
            }
            if self.regiments[g] && regs[g].team == PLAYER_TEAM {
                total = total + regs[g].count;
            }
            g = g + 1;
        }
        self.count_units = total;
    }

    /// Selected regiments that are alive and controllable, in index
    /// order: the set every selection command acts on.
    pub fn picked_controllable<P>(&self, regs: &Vec<GroupData<P>>) -> (out: Vec<usize>)
        requires
            self.regiments.len() <= regs.len(),
        ensures
            out@ == picked_of(regs@, self.regiments@, self.regiments.len() as int),
    {
        let n = self.regiments.len();
        let mut out: Vec<usize> = Vec::new();
        let mut g: usize = 0;
        while g < n
            invariant
                n == self.regiments.len(),
                n <= regs.len(),
                g <= n,
                out@ == picked_of(regs@, self.regiments@, g as int),
            decreases n - g,
        {
            if self.regiments[g] && regs[g].count > 0 && !regs[g].state.is_broken() {
                out.push(g);
            }
            g = g + 1;
        }
        out
    }
}

/// Lasso hits a regiment needs to be selected: 3% of its strength, at
/// least 8, and never more than the whole regiment.
pub open spec fn hit_threshold(count: int) -> int {
    let t = if 8 > count * 3 / 100 { 8 } else { count * 3 / 100 };
    if t < count { t } else { count }
}

/// Whether regiment `g` is promoted by the stroke: a living player
/// regiment with enough of its soldiers near the stroke.
pub open spec fn promoted<P>(r: GroupData<P>, hits: int) -> bool {
    r.team == PLAYER_TEAM && r.count > 0 && hits >= hit_threshold(r.count as int)
}

/// The stroke promotes a regiment exactly when it is a living player
/// regiment and its hits reach 3% of its present strength, at least 8 but
/// never more than the men it has left: a regiment all of whose remaining
/// men are hit is always selected.
pub proof fn law_promotion_threshold<P>(r: GroupData<P>, hits: int)
    requires
        hits >= 0,
    ensures
        promoted(r, hits) <==> r.team == PLAYER_TEAM && r.count > 0 && hits >= ({
            let pct = r.count * 3 / 100;
            let t = if pct > 8 { pct } else { 8 };
            if t > r.count { r.count as int } else { t }
        }),
        r.team == PLAYER_TEAM && r.count > 0 && hits >= r.count ==> promoted(r, hits),
        hits < 8 && hits < r.count ==> !promoted(r, hits),
{
}

/// Units of the promoted regiments among the first `n`.
pub open spec fn promoted_units<P>(regs: Seq<GroupData<P>>, hits: Seq<usize>, n: int) -> int
    decreases n,
{
    if n <= 0 {
        0
    } else {
        promoted_units(regs, hits, n - 1) + if promoted(regs[n - 1], hits[n - 1] as int) {
            regs[n - 1].count as int
        } else {
            0
        }
    }
}

proof fn lemma_promoted_units_monotone<P>(regs: Seq<GroupData<P>>, hits: Seq<usize>, i: int, j: int)
    requires
        0 <= i <= j,
    ensures
        0 <= promoted_units(regs, hits, i) <= promoted_units(regs, hits, j),
    decreases j - i,
{
    if i < j {
        lemma_promoted_units_monotone(regs, hits, i, j - 1);
    } else {
        lemma_promoted_units_nonneg(regs, hits, i);
    }
}

proof fn lemma_promoted_units_nonneg<P>(regs: Seq<GroupData<P>>, hits: Seq<usize>, i: int)
    ensures
        0 <= promoted_units(regs, hits, i),
    decreases i,
{
    if i > 0 {
        lemma_promoted_units_nonneg(regs, hits, i - 1);
    }
}

/// Promote per-regiment lasso hit counts to a whole-regiment selection:
/// a sloppy stroke edge must not grab a neighbouring regiment, so a
/// regiment is selected only when enough of its men were hit. The
/// selection is replaced, one mask entry per regiment.
pub fn promote_hits<P>(regs: &Vec<GroupData<P>>, hits: &Vec<usize>, selection: &mut Selection)
    requires
        hits.len() == regs.len(),
        promoted_units(regs@, hits@, regs.len() as int) <= usize::MAX,
    ensures
        final(selection).regiments.len() == regs.len(),
        forall|g: int|
            0 <= g < regs.len() ==> #[trigger] final(selection).regiments@[g] == promoted(
                regs@[g],
                hits@[g] as int,
            ),
        final(selection).count_units == promoted_units(regs@, hits@, regs.len() as int),
        final(selection).count_units == mask_units(regs@, final(selection).regiments@),
{
    let n = regs.len();
    let mut mask: Vec<bool> = Vec::new();
    let mut total: usize = 0;
    let mut g: usize = 0;
    while g < n
        invariant
            n == regs.len(),
            n == hits.len(),
            g <= n,
            mask.len() == g,
            forall|k: int| 0 <= k < g ==> #[trigger] mask@[k] == promoted(regs@[k], hits@[k] as int),
            total == promoted_units(regs@, hits@, g as int),
            total == selected_units(regs@, mask@, g as int),
            promoted_units(regs@, hits@, n as int) <= usize::MAX,
        decreases n - g,
    {
        proof {
            lemma_promoted_units_monotone(regs@, hits@, g + 1, n as int);
        }
        let r = &regs[g];
        let c = r.count;
        let pct = c / 100 * 3 + (c % 100) * 3 / 100;
        assert(pct == c * 3 / 100) by (nonlinear_arith)
            requires pct == c / 100 * 3 + (c % 100) * 3 / 100, c >= 0;
        let base: usize = if 8 > pct { 8 } else { pct };
        let threshold: usize = if base < c { base } else { c };
        let sel = r.team == PLAYER_TEAM && c > 0 && hits[g] >= threshold;
        let ghost before = mask@;
        mask.push(sel);
        proof {
            assert forall|k: int| 0 <= k < g implies mask@[k] == before[k] by {}
            lemma_selected_units_prefix(regs@, before, mask@, g as int);
        }
        if sel {
            total = total + c;
        }
        g = g + 1;
    }
    selection.regiments = mask;
    selection.count_units = total;
}

/// The unit total of a prefix only reads that prefix of the mask.
pub proof fn lemma_selected_units_prefix<P>(regs: Seq<GroupData<P>>, m1: Seq<bool>, m2: Seq<bool>, n: int)
    requires
        0 <= n,
        n <= m1.len(),
        n <= m2.len(),
        forall|k: int| 0 <= k < n ==> m1[k] == m2[k],
    ensures
        selected_units(regs, m1, n) == selected_units(regs, m2, n),
    decreases n,
{
    if n > 0 {
        lemma_selected_units_prefix(regs, m1, m2, n - 1);
    }
}


/// Number of control-group slots (keys 1..9).
pub const CONTROL_SLOTS: usize = 9;

/// A mask fitted to `n` regiments: cut down, or padded with unselected.
pub open spec fn resized(m: Seq<bool>, n: int) -> Seq<bool> {
    Seq::new(n as nat, |i: int| if i < m.len() { m[i] } else { false })
}

/// Ctrl+digit stores the current selection mask in a slot; the bare digit
/// recalls it.
pub struct ControlGroups(pub Vec<Vec<bool>>);

impl ControlGroups {
    pub open spec fn wf(&self) -> bool {
        self.0.len() == CONTROL_SLOTS
    }

    /// No group stored yet.
    pub fn new() -> (cg: Self)
        ensures
            cg.wf(),
            forall|k: int| 0 <= k < CONTROL_SLOTS ==> (#[trigger] cg.0@[k])@.len() == 0,
    {
        let mut slots: Vec<Vec<bool>> = Vec::new();
        while slots.len() < CONTROL_SLOTS
            invariant
                slots.len() <= CONTROL_SLOTS,
                forall|k: int| 0 <= k < slots.len() ==> (#[trigger] slots@[k])@.len() == 0,
            decreases CONTROL_SLOTS - slots.len(),
        {
            slots.push(Vec::new());
        }
        ControlGroups(slots)
    }

    /// Store the selection in `slot` when anything is selected; an empty
    /// selection leaves the slot as it was.
    pub fn store(&mut self, slot: usize, selection: &Selection)
        requires
            old(self).wf(),
            slot < CONTROL_SLOTS,
        ensures
            final(self).wf(),
            selection.count_units > 0 ==> final(self).0@[slot as int]@ == selection.regiments@,
            forall|k: int|
                0 <= k < CONTROL_SLOTS && k != slot ==> #[trigger] final(self).0@[k] == old(
                    self,
                ).0@[k],
            selection.count_units == 0 ==> final(self).0@ == old(self).0@,
    {
        if selection.count_units > 0 {
            let copy = copy_mask(&selection.regiments);
            self.0.set(slot, copy);
        }
    }

    /// Recall `slot` into the selection when it holds a stored group: the
    /// mask is fitted to the `regs.len()` regiments and the unit total
    /// recounted. Returns whether anything was recalled.
    pub fn recall<P>(&self, slot: usize, selection: &mut Selection, regs: &Vec<GroupData<P>>) -> (done: bool)
        requires
            self.wf(),
            slot < CONTROL_SLOTS,
            mask_units(regs@, resized(self.0@[slot as int]@, regs.len() as int)) <= usize::MAX,
        ensures
            done == (self.0@[slot as int]@.len() > 0),
            done ==> final(selection).regiments@ == resized(self.0@[slot as int]@, regs.len() as int),
            done ==> final(selection).count_units == mask_units(regs@, final(selection).regiments@),
            !done ==> *final(selection) == *old(selection),
    {
        let stored = &self.0[slot];
        if stored.len() == 0 {
            return false;
        }
        let n = regs.len();
        let mut mask: Vec<bool> = Vec::new();
        let mut g: usize = 0;
        while g < n
            invariant
                g <= n,
                mask.len() == g,
                forall|k: int| 0 <= k < g ==> #[trigger] mask@[k] == resized(stored@, n as int)[k],
            decreases n - g,
        {
            let b = if g < stored.len() { stored[g] } else { false };
            mask.push(b);
            g = g + 1;
        }
        assert(mask@ =~= resized(stored@, n as int));
        selection.regiments = mask;
        selection.recount(regs);
        true
    }
}

/// An element-wise copy of a mask.
pub fn copy_mask(m: &Vec<bool>) -> (c: Vec<bool>)
    ensures
        c@ == m@,
{
    let mut c: Vec<bool> = Vec::new();
    let mut i: usize = 0;
    while i < m.len()
        invariant
            i <= m.len(),
            c@ == m@.subrange(0, i as int),
        decreases m.len() - i,
    {
        c.push(m[i]);
        i = i + 1;
        assert(c@ =~= m@.subrange(0, i as int));
    }
    assert(m@.subrange(0, m.len() as int) =~= m@);
    c
}

/// Recalling a stored control group on the same regiment list gives back
/// exactly the mask that was stored.
pub proof fn law_recall_returns_stored(m: Seq<bool>)
    ensures
        resized(m, m.len() as int) == m,
{
    assert(resized(m, m.len() as int) =~= m);
}

/// Soldiers of regiment `g` among the first `n` whose flag is set.
pub open spec fn flagged(group: Seq<u32>, flag: Seq<bool>, g: int, n: int) -> int
    decreases n,
{
    if n <= 0 {
        0
    } else {
        flagged(group, flag, g, n - 1) + if group[n - 1] as int == g && flag[n - 1] { 1int } else { 0int }
    }
}

/// A regiment never has more flagged soldiers than soldiers looked at.
pub proof fn lemma_flagged_bounded(group: Seq<u32>, flag: Seq<bool>, g: int, n: int)
    requires
        n >= 0,
    ensures
        0 <= flagged(group, flag, g, n) <= n,
    decreases n,
{
    if n > 0 {
        lemma_flagged_bounded(group, flag, g, n - 1);
    }
}

/// Per regiment, how many of its soldiers the selection stroke hit.
/// Per-soldier columns: regiment, hit by the stroke.
pub fn count_hits(n_regs: usize, group: &Vec<u32>, hit: &Vec<bool>) -> (hits: Vec<usize>)
    requires
        hit.len() == group.len(),
        forall|i: int| 0 <= i < group.len() ==> (#[trigger] group@[i]) < n_regs,
    ensures
        hits.len() == n_regs,
        forall|g: int| 0 <= g < n_regs ==> #[trigger] hits@[g] == flagged(group@, hit@, g, group.len() as int),
{
    let mut hits: Vec<usize> = Vec::new();
    let mut g: usize = 0;
    while g < n_regs
        invariant
            g <= n_regs,
            hits.len() == g,
            forall|h: int| 0 <= h < g ==> #[trigger] hits@[h] == 0,
        decreases n_regs - g,
    {
        hits.push(0);
        g = g + 1;
    }
    let mut i: usize = 0;
    while i < group.len()
        invariant
            i <= group.len(),
            hit.len() == group.len(),
            hits.len() == n_regs,
            forall|j: int| 0 <= j < group.len() ==> (#[trigger] group@[j]) < n_regs,
            forall|h: int| 0 <= h < n_regs ==> #[trigger] hits@[h] == flagged(group@, hit@, h, i as int),
        decreases group.len() - i,
    {
        let gi = group[i] as usize;
        proof {
            lemma_flagged_bounded(group@, hit@, gi as int, i as int);
        }
        if hit[i] {
            let c = hits[gi];
            hits.set(gi, c + 1);
        }
        i = i + 1;
    }
    hits
}

/// The selection stroke in flight: its ground points, and whether the
/// left button went down on the map.
pub struct DragLine<P> {
    pub points: Vec<P>,
    pub active: bool,
}

impl<P: Copy> DragLine<P> {
    /// No stroke yet.
    pub fn new() -> (d: Self)
        ensures
            d.points@.len() == 0,
            !d.active,
    {
        DragLine { points: Vec::new(), active: false }
    }

    /// The left button goes down: on the map a new stroke starts (a press
    /// on the HUD never doubles as a lasso).
    pub fn press(&mut self, over_ui: bool)
        ensures
            over_ui ==> final(self).points@ == old(self).points@ && final(self).active == old(self).active,
            !over_ui ==> final(self).points@.len() == 0 && final(self).active,
    {
        if !over_ui {
            self.points.clear();
            self.active = true;
        }
    }

    /// The button held: the cursor's ground point joins the stroke when it
    /// is the first, or far enough from the last one.
    pub fn extend(&mut self, ground: Option<P>, far_from_last: bool)
        ensures
            final(self).active == old(self).active,
            final(self).points@ == match ground {
                Some(p) => if old(self).active && (old(self).points@.len() == 0 || far_from_last) {
                    old(self).points@.push(p)
                } else {
                    old(self).points@
                },
                None => old(self).points@,
            },
    {
        match ground {
            Some(p) => {
                if self.active && (self.points.len() == 0 || far_from_last) {
                    self.points.push(p);
                }
            },
            None => {},
        }
    }

    /// The button comes up: the stroke ends, and selects along its points
    /// when it has any. Returns whether to select.
    pub fn release(&mut self) -> (select: bool)
        ensures
            final(self).points@ == old(self).points@,
            !final(self).active,
            select == (old(self).active && old(self).points@.len() > 0),
    {
        if !self.active {
            return false;
        }
        self.active = false;
        self.points.len() > 0
    }
}

} // verus!
