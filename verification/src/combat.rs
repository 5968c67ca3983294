//! Death processing: the dead are swap-removed from the soldier columns
//! (keeping a per-soldier selection mask in step), kills are counted per
//! team, and the living are tallied.
use vstd::prelude::*;
use crate::regiment::GroupData;

verus! {

broadcast use vstd::seq_lib::group_to_multiset_ensures;

/// One soldier as the death sweep sees it: the game's own columns (`data`),
/// his team, whether he still stands (hit points above zero), and whether
/// he is selected.
#[derive(Clone, Copy)]
pub struct UnitRow<T> {
    pub data: T,
    pub team: u8,
    pub living: bool,
    pub selected: bool,
}

/// The soldier columns, structure-of-arrays, with an optional
/// per-soldier selection mask (empty when not kept).
pub struct Soldiers<T> {
    pub data: Vec<T>,
    pub team: Vec<u8>,
    pub living: Vec<bool>,
    pub mask: Vec<bool>,
}

/// Kills suffered per team and soldiers standing per team.
pub struct CombatStats {
    pub kills: [u64; 2],
    pub alive: [usize; 2],
}

impl<T> Soldiers<T> {
    pub open spec fn wf(&self) -> bool {
        &&& self.team.len() == self.data.len()
        &&& self.living.len() == self.data.len()
    }

    /// The mask follows the soldiers one for one.
    pub open spec fn mask_follows(&self) -> bool {
        self.mask.len() == self.data.len()
    }

    /// The soldiers row by row (unselected without a mask).
    pub open spec fn rows(&self) -> Seq<UnitRow<T>> {
        Seq::new(
            self.data.len() as nat,
            |i: int|
                UnitRow {
                    data: self.data@[i],
                    team: self.team@[i],
                    living: self.living@[i],
                    selected: self.mask_follows() && self.mask@[i],
                },
        )
    }
}

/// Soldiers of `team` among `s`.
pub open spec fn team_count<T>(s: Seq<UnitRow<T>>, team: u8) -> int
    decreases s.len(),
{
    if s.len() == 0 {
        0
    } else {
        team_count(s.drop_last(), team) + if s.last().team == team { 1int } else { 0 }
    }
}

/// Selected soldiers among `s`.
pub open spec fn selected_count<T>(s: Seq<UnitRow<T>>) -> int
    decreases s.len(),
{
    if s.len() == 0 {
        0
    } else {
        selected_count(s.drop_last()) + if s.last().selected { 1int } else { 0 }
    }
}

proof fn lemma_counts_update<T>(s: Seq<UnitRow<T>>, i: int, v: UnitRow<T>, team: u8)
    requires
        0 <= i < s.len(),
    ensures
        team_count(s.update(i, v), team) == team_count(s, team) - (if s[i].team == team { 1int } else { 0 }) + (
        if v.team == team { 1int } else { 0 }),
        selected_count(s.update(i, v)) == selected_count(s) - (if s[i].selected { 1int } else { 0 }) + (
        if v.selected { 1int } else { 0 }),
    decreases s.len(),
{
    if i == s.len() - 1 {
        assert(s.update(i, v).drop_last() =~= s.drop_last());
    } else {
        assert(s.update(i, v).drop_last() =~= s.drop_last().update(i, v));
        lemma_counts_update(s.drop_last(), i, v, team);
    }
}

proof fn lemma_counts_bound<T>(s: Seq<UnitRow<T>>, team: u8)
    ensures
        0 <= team_count(s, team) <= s.len(),
        0 <= selected_count(s) <= s.len(),
    decreases s.len(),
{
    if s.len() > 0 {
        lemma_counts_bound(s.drop_last(), team);
    }
}

/// Removing the `i`-th element by moving the last into its place removes
/// exactly that element from the multiset.
pub proof fn lemma_swap_remove_multiset<A>(s: Seq<A>, i: int)
    requires
        0 <= i < s.len(),
    ensures
        s.update(i, s.last()).drop_last().to_multiset() =~= s.to_multiset().remove(s[i]),
{
    let t = s.drop_last();
    assert(s =~= t.push(s.last()));
    if i == s.len() - 1 {
        assert(s.update(i, s.last()).drop_last() =~= t);
    } else {
        let r = t.update(i, s.last());
        assert(s.update(i, s.last()).drop_last() =~= r);
        assert(r.remove(i) =~= t.remove(i));
        assert(r.to_multiset().remove(r[i]) =~= t.to_multiset().remove(t[i]));
        assert(r.to_multiset().count(r[i]) > 0) by {
            assert(r.contains(r[i]));
        }
        assert(t.to_multiset().count(t[i]) > 0) by {
            assert(t.contains(t[i]));
        }
    }
}

/// No element of an all-`living` sequence is dead.
proof fn lemma_all_living_count<T>(s: Seq<UnitRow<T>>, x: UnitRow<T>)
    requires
        forall|j: int| 0 <= j < s.len() ==> (#[trigger] s[j]).living,
        !x.living,
    ensures
        s.to_multiset().count(x) == 0,
{
    if s.to_multiset().count(x) > 0 {
        assert(s.contains(x));
        let j = choose|j: int| 0 <= j < s.len() && s[j] == x;
        assert(s[j].living);
    }
}

fn count_team(team_col: &Vec<u8>, t: u8) -> (n: usize)
    ensures
        n <= team_col.len(),
        n == team_count(
            Seq::new(team_col.len() as nat, |i: int| UnitRow { data: 0u8, team: team_col@[i], living: true, selected: false }),
            t,
        ),
{
    let ghost rows = Seq::new(team_col.len() as nat, |i: int| UnitRow { data: 0u8, team: team_col@[i], living: true, selected: false });
    let mut n: usize = 0;
    let mut i: usize = 0;
    while i < team_col.len()
        invariant
            i <= team_col.len(),
            rows == Seq::new(team_col.len() as nat, |i: int| UnitRow { data: 0u8, team: team_col@[i], living: true, selected: false }),
            n == team_count(rows.subrange(0, i as int), t),
            n <= i,
        decreases team_col.len() - i,
    {
        assert(rows.subrange(0, i + 1).drop_last() =~= rows.subrange(0, i as int));
        if team_col[i] == t {
            n = n + 1;
        }
        i = i + 1;
    }
    assert(rows.subrange(0, team_col.len() as int) =~= rows);
    n
}

/// Team counts only read the team column.
proof fn lemma_team_count_team_only<T>(s: Seq<UnitRow<T>>, u: Seq<UnitRow<u8>>, t: u8)
    requires
        s.len() == u.len(),
        forall|j: int| 0 <= j < s.len() ==> (#[trigger] s[j]).team == u[j].team,
    ensures
        team_count(s, t) == team_count(u, t),
    decreases s.len(),
{
    if s.len() > 0 {
        lemma_team_count_team_only(s.drop_last(), u.drop_last(), t);
    }
}

/// The death sweep. The survivors are exactly the living soldiers (as a
/// multiset: a removal moves the last soldier into the gap, so the order
/// changes); each team's kill counter grows by its dead; the standing
/// count of each team is recounted; the selected count drops by the
/// selected dead. A mask out of step with the soldiers is dropped first,
/// with the selected count.
#[verifier::rlimit(60)]
pub fn process_deaths<T: Copy>(units: &mut Soldiers<T>, selected: &mut usize, stats: &mut CombatStats)
    requires
        old(units).wf(),
        forall|j: int| 0 <= j < old(units).team.len() ==> #[trigger] old(units).team@[j] < 2,
        old(stats).kills[0] + old(units).data.len() <= u64::MAX,
        old(stats).kills[1] + old(units).data.len() <= u64::MAX,
        old(units).mask_follows() ==> *old(selected) >= selected_count(old(units).rows()),
    ensures
        final(units).wf(),
        old(units).mask_follows() ==> final(units).mask_follows(),
        !old(units).mask_follows() ==> final(units).mask.len() == 0,
        forall|j: int| 0 <= j < final(units).rows().len() ==> (#[trigger] final(units).rows()[j]).living,
        forall|x: UnitRow<T>|
            #[trigger] final(units).rows().to_multiset().count(x) == if x.living {
                old(units).rows().to_multiset().count(x)
            } else {
                0
            },
        forall|t: int|
            0 <= t < 2 ==> #[trigger] final(stats).kills[t] == old(stats).kills[t] + team_count(old(units).rows(), t as u8)
                - team_count(final(units).rows(), t as u8),
        forall|t: int| 0 <= t < 2 ==> #[trigger] final(stats).alive[t] == team_count(final(units).rows(), t as u8),
        *final(selected) == if old(units).mask_follows() {
            *old(selected) - (selected_count(old(units).rows()) - selected_count(final(units).rows()))
        } else {
            0
        },
{
    if units.mask.len() != units.data.len() {
        units.mask.clear();
        *selected = 0;
    }
    let ghost orig = units.rows();
    let ghost had_mask = old(units).mask_follows();
    assert(orig =~= old(units).rows());
    proof {
        if !had_mask {
            lemma_no_selected(orig);
        }
        lemma_counts_bound(orig, 0);
        lemma_counts_bound(orig, 1);
    }
    let ghost k0 = stats.kills;
    let mut i: usize = 0;
    while i < units.data.len()
        invariant
            units.wf(),
            units.mask_follows() || units.mask.len() == 0,
            i <= units.data.len(),
            forall|j: int| 0 <= j < units.team.len() ==> #[trigger] units.team@[j] < 2,
            forall|j: int| 0 <= j < i ==> (#[trigger] units.rows()[j]).living,
            forall|x: UnitRow<T>|
                x.living ==> #[trigger] units.rows().to_multiset().count(x) == orig.to_multiset().count(x),
            forall|t: int|
                0 <= t < 2 ==> #[trigger] stats.kills[t] == k0[t] + team_count(orig, t as u8) - team_count(
                    units.rows(),
                    t as u8,
                ),
            team_count(orig, 0) <= orig.len(),
            team_count(orig, 1) <= orig.len(),
            team_count(units.rows(), 0) <= team_count(orig, 0),
            team_count(units.rows(), 1) <= team_count(orig, 1),
            k0[0] + orig.len() <= u64::MAX,
            k0[1] + orig.len() <= u64::MAX,
            units.data.len() <= orig.len(),
            had_mask ==> units.mask_follows(),
            had_mask ==> *old(selected) >= selected_count(orig),
            had_mask ==> *selected == *old(selected) - (selected_count(orig) - selected_count(units.rows())),
            !had_mask ==> units.mask.len() == 0 && *selected == 0,
        decreases units.data.len() - i,
    {
        if units.living[i] {
            i = i + 1;
        } else {
            let ghost before = units.rows();
            let t = units.team[i];
            proof {
                lemma_counts_update(before, i as int, before.last(), t);
                lemma_counts_update(before, i as int, before.last(), (1 - t) as u8);
                lemma_counts_bound(before, t);
                lemma_counts_bound(before.update(i as int, before.last()).drop_last(), t);
                assert(before.update(i as int, before.last()).last() == before.last());
                assert(team_count(before.update(i as int, before.last()).drop_last(), t) == team_count(before, t) - 1);
                lemma_swap_remove_multiset(before, i as int);
                assert(before[i as int].team == t);
            }
            units.data.swap_remove(i);
            units.team.swap_remove(i);
            units.living.swap_remove(i);
            let mut was_sel = false;
            if units.mask.len() > 0 {
                was_sel = units.mask.swap_remove(i);
            }
            assert(units.rows() =~= before.update(i as int, before.last()).drop_last());
            if t == 0 {
                stats.kills[0] = stats.kills[0] + 1;
            } else {
                stats.kills[1] = stats.kills[1] + 1;
            }
            if was_sel {
                *selected = *selected - 1;
            }
            proof {
                assert(before[i as int].selected == was_sel);
                let after = units.rows();
                assert forall|x: UnitRow<T>| x.living implies #[trigger] after.to_multiset().count(x) == orig.to_multiset().count(x) by {
                    assert(x != before[i as int]);
                }
            }
        }
    }
    proof {
        assert forall|x: UnitRow<T>|
            #[trigger] units.rows().to_multiset().count(x) == if x.living {
                old(units).rows().to_multiset().count(x)
            } else {
                0
            } by {
            if !x.living {
                lemma_all_living_count(units.rows(), x);
            }
        }
    }
    let a0 = count_team(&units.team, 0);
    let a1 = count_team(&units.team, 1);
    proof {
        let u = Seq::new(units.team.len() as nat, |i: int| UnitRow { data: 0u8, team: units.team@[i], living: true, selected: false });
        lemma_team_count_team_only(units.rows(), u, 0);
        lemma_team_count_team_only(units.rows(), u, 1);
    }
    stats.alive = [a0, a1];
}

/// Rows with no mask are never selected.
proof fn lemma_no_selected<T>(s: Seq<UnitRow<T>>)
    requires
        forall|j: int| 0 <= j < s.len() ==> !(#[trigger] s[j]).selected,
    ensures
        selected_count(s) == 0,
    decreases s.len(),
{
    if s.len() > 0 {
        lemma_no_selected(s.drop_last());
    }
}

/// Credit a death: the fallen soldier's team counts a loss, his regiment a
/// recent death, and the killer's regiment a recent kill unless the blow
/// (or arrow) came from his own side: friendly fire kills, but wins no
/// exchange.
pub fn credit_kill<P: Copy>(
    regs: &mut Vec<GroupData<P>>,
    kills: &mut [u64; 2],
    victim_team: u8,
    victim_group: usize,
    killer_team: u8,
    killer_group: usize,
)
    requires
        victim_team < 2,
        victim_group < old(regs).len(),
        killer_group < old(regs).len(),
        old(kills)[victim_team as int] < u64::MAX,
        old(regs)@[victim_group as int].recent_deaths < u32::MAX,
        old(regs)@[killer_group as int].recent_kills < u32::MAX,
    ensures
        final(kills)@ == old(kills)@.update(victim_team as int, (old(kills)[victim_team as int] + 1) as u64),
        ({
            let died = old(regs)@.update(
                victim_group as int,
                GroupData {
                    recent_deaths: (old(regs)@[victim_group as int].recent_deaths + 1) as u32,
                    ..old(regs)@[victim_group as int]
                },
            );
            final(regs)@ == if victim_team != killer_team {
                died.update(
                    killer_group as int,
                    GroupData { recent_kills: (died[killer_group as int].recent_kills + 1) as u32, ..died[killer_group as int] },
                )
            } else {
                died
            }
        }),
{
    kills[victim_team as usize] = kills[victim_team as usize] + 1;
    let v = &regs[victim_group];
    let dv = GroupData { recent_deaths: v.recent_deaths + 1, ..*v };
    regs.set(victim_group, dv);
    if victim_team != killer_team {
        let k = &regs[killer_group];
        proof {
            assert(k.recent_kills < u32::MAX);
        }
        let kk = GroupData { recent_kills: k.recent_kills + 1, ..*k };
        regs.set(killer_group, kk);
    }
}

} // verus!
