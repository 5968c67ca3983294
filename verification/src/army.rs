//! Army composition: the pre-battle picker (regiment slots are the budget,
//! army size over regiment size; add, remove, validate) and the battle
//! line's kind layout (heavies lead, spears back them, lights fill the
//! middle, archers take the rear ranks).
use vstd::prelude::*;
use crate::regiment::{KIND_LIGHT, KIND_HEAVY, KIND_SPEAR, KIND_ARCHER, NUM_KINDS};
use crate::game::{GameState, Scenario};

verus! {

/// Regiments per kind, indexed by kind.
pub open spec fn comp_sum(c: Seq<usize>) -> int {
    c[0] + c[1] + c[2] + c[3]
}

/// The enemy composition: a coherent army style rolled at every battle
/// start, a chosen style, or a hand-built composition.
#[derive(Clone, Copy, Debug)]
pub enum EnemyComp {
    Random,
    Style(usize),
    Manual([usize; 4]),
}

/// The battle settings: army and regiment size, the AI switch, the
/// scenario, and the compositions the picker edits.
pub struct BattleConfig {
    pub units_per_team: usize,
    pub reg_size: usize,
    pub ai_enabled: bool,
    pub scenario: Scenario,
    pub player_regs: [usize; 4],
    pub enemy: EnemyComp,
}

/// Which side the picker edits, and the last hand-built enemy
/// composition (kept across Random/Manual toggles).
pub struct PickerState {
    pub team: u8,
    pub enemy_manual: [usize; 4],
}

/// The slot budget: army size over regiment size.
pub open spec fn slots_of(c: BattleConfig) -> int {
    c.units_per_team as int / c.reg_size as int
}

impl BattleConfig {
    /// Regiment slots of an army: army size over regiment size.
    pub fn n_slots(&self) -> (n: usize)
        requires
            self.reg_size > 0,
        ensures
            n == slots_of(*self),
    {
        self.units_per_team / self.reg_size
    }
}

/// Total regiments of a composition.
pub fn comp_total(c: &[usize; 4]) -> (t: usize)
    requires
        comp_sum(c@) <= usize::MAX,
    ensures
        t == comp_sum(c@),
{
    c[0] + c[1] + c[2] + c[3]
}

/// A composition after adding up to `n` regiments of `kind`: as many as
/// the free slots allow.
pub open spec fn added(c: Seq<usize>, kind: int, n: int, slots: int) -> Seq<usize> {
    let free = if slots > comp_sum(c) { slots - comp_sum(c) } else { 0 };
    c.update(kind, (c[kind] + if n < free { n } else { free }) as usize)
}

/// A composition after removing up to `n` regiments of `kind` (never
/// below zero).
pub open spec fn removed(c: Seq<usize>, kind: int, n: int) -> Seq<usize> {
    c.update(kind, (if c[kind] > n { c[kind] - n } else { 0 }) as usize)
}

fn add_to(c: &mut [usize; 4], kind: usize, n: usize, slots: usize)
    requires
        kind < NUM_KINDS,
        comp_sum(old(c)@) <= usize::MAX,
    ensures
        final(c)@ == added(old(c)@, kind as int, n as int, slots as int),
{
    let total = comp_total(c);
    let free: usize = if slots > total { slots - total } else { 0 };
    let k: usize = if n < free { n } else { free };
    c[kind] = c[kind] + k;
}

fn remove_from(c: &mut [usize; 4], kind: usize, n: usize)
    requires
        kind < NUM_KINDS,
    ensures
        final(c)@ == removed(old(c)@, kind as int, n as int),
{
    c[kind] = if c[kind] > n { c[kind] - n } else { 0 };
}

/// The enemy page edits only a hand-built composition.
pub open spec fn manual_mode(c: BattleConfig) -> bool {
    c.enemy is Manual
}

/// Add up to `n` regiments of `kind` to the side the picker edits, within
/// the free slots. On the enemy page this only works in manual mode (the
/// hand-built composition is kept and becomes the enemy's).
pub fn add_regs(config: &mut BattleConfig, state: &mut PickerState, kind: usize, n: usize)
    requires
        kind < NUM_KINDS,
        old(config).reg_size > 0,
        old(state).team == 0 ==> comp_sum(old(config).player_regs@) <= usize::MAX,
        old(state).team != 0 && manual_mode(*old(config)) ==> comp_sum(old(state).enemy_manual@)
            <= usize::MAX,
    ensures
        final(config).units_per_team == old(config).units_per_team,
        final(config).reg_size == old(config).reg_size,
        final(config).ai_enabled == old(config).ai_enabled,
        final(config).scenario == old(config).scenario,
        final(state).team == old(state).team,
        old(state).team == 0 ==> {
            &&& final(config).player_regs@ == added(old(config).player_regs@, kind as int, n as int, slots_of(*old(config)))
            &&& final(config).enemy == old(config).enemy
            &&& final(state).enemy_manual == old(state).enemy_manual
        },
        old(state).team != 0 && manual_mode(*old(config)) ==> {
            &&& final(state).enemy_manual@ == added(old(state).enemy_manual@, kind as int, n as int, slots_of(*old(config)))
            &&& final(config).enemy == EnemyComp::Manual(final(state).enemy_manual)
            &&& final(config).player_regs == old(config).player_regs
        },
        old(state).team != 0 && !manual_mode(*old(config)) ==> {
            &&& final(config).player_regs == old(config).player_regs
            &&& final(config).enemy == old(config).enemy
            &&& final(state).enemy_manual == old(state).enemy_manual
        },
{
    let slots = config.n_slots();
    if state.team == 0 {
        add_to(&mut config.player_regs, kind, n, slots);
    } else if matches!(config.enemy, EnemyComp::Manual(_)) {
        add_to(&mut state.enemy_manual, kind, n, slots);
        config.enemy = EnemyComp::Manual(state.enemy_manual);
    }
}

/// Remove up to `n` regiments of `kind` from the side the picker edits
/// (never below zero; the enemy page only in manual mode).
pub fn remove_regs(config: &mut BattleConfig, state: &mut PickerState, kind: usize, n: usize)
    requires
        kind < NUM_KINDS,
    ensures
        final(config).units_per_team == old(config).units_per_team,
        final(config).reg_size == old(config).reg_size,
        final(config).ai_enabled == old(config).ai_enabled,
        final(config).scenario == old(config).scenario,
        final(state).team == old(state).team,
        old(state).team == 0 ==> {
            &&& final(config).player_regs@ == removed(old(config).player_regs@, kind as int, n as int)
            &&& final(config).enemy == old(config).enemy
            &&& final(state).enemy_manual == old(state).enemy_manual
        },
        old(state).team != 0 && manual_mode(*old(config)) ==> {
            &&& final(state).enemy_manual@ == removed(old(state).enemy_manual@, kind as int, n as int)
            &&& final(config).enemy == EnemyComp::Manual(final(state).enemy_manual)
            &&& final(config).player_regs == old(config).player_regs
        },
        old(state).team != 0 && !manual_mode(*old(config)) ==> {
            &&& final(config).player_regs == old(config).player_regs
            &&& final(config).enemy == old(config).enemy
            &&& final(state).enemy_manual == old(state).enemy_manual
        },
{
    if state.team == 0 {
        remove_from(&mut config.player_regs, kind, n);
    } else if matches!(config.enemy, EnemyComp::Manual(_)) {
        remove_from(&mut state.enemy_manual, kind, n);
        config.enemy = EnemyComp::Manual(state.enemy_manual);
    }
}

/// Adding never takes a composition past the slot budget it was within.
pub proof fn law_add_within_budget(c: Seq<usize>, kind: int, n: int, slots: int)
    requires
        c.len() == 4,
        0 <= kind < 4,
        0 <= n,
        comp_sum(c) <= slots,
    ensures
        comp_sum(added(c, kind, n, slots)) <= slots,
        added(c, kind, n, slots).len() == 4,
{
}

/// Removing what was just added, when it all fit, restores the
/// composition.
pub proof fn law_remove_undoes_add(c: Seq<usize>, kind: int, n: int, slots: int)
    requires
        c.len() == 4,
        0 <= kind < 4,
        0 <= n,
        comp_sum(c) + n <= slots,
        slots <= usize::MAX,
    ensures
        removed(added(c, kind, n, slots), kind, n) == c,
{
    assert(c[kind] + n <= slots);
    assert(added(c, kind, n, slots)[kind] == c[kind] + n);
    assert(removed(added(c, kind, n, slots), kind, n) =~= c);
}

/// The battle can start when the player has at least one regiment and a
/// hand-built enemy is not empty.
pub open spec fn valid_army(c: BattleConfig) -> bool {
    comp_sum(c.player_regs@) > 0 && match c.enemy {
        EnemyComp::Manual(m) => comp_sum(m@) > 0,
        _ => true,
    }
}

/// Whether the battle can start (see `valid_army`).
pub fn army_valid(config: &BattleConfig) -> (b: bool)
    requires
        comp_sum(config.player_regs@) <= usize::MAX,
        config.enemy matches EnemyComp::Manual(m) ==> comp_sum(m@) <= usize::MAX,
    ensures
        b == valid_army(*config),
{
    let enemy_ok = match &config.enemy {
        EnemyComp::Manual(m) => comp_total(m) > 0,
        _ => true,
    };
    comp_total(&config.player_regs) > 0 && enemy_ok
}

/// The composition the picker displays: the player's, the hand-built
/// enemy, the `preview` of a chosen style, or unknown for Random.
pub fn shown_counts(config: &BattleConfig, state: &PickerState, preview: [usize; 4]) -> (c: Option<[usize; 4]>)
    ensures
        state.team == 0 ==> c == Some(config.player_regs),
        state.team != 0 ==> c == match config.enemy {
            EnemyComp::Manual(m) => Some(m),
            EnemyComp::Style(_) => Some(preview),
            EnemyComp::Random => None,
        },
{
    if state.team == 0 {
        return Some(config.player_regs);
    }
    match config.enemy {
        EnemyComp::Manual(m) => Some(m),
        EnemyComp::Style(_) => Some(preview),
        EnemyComp::Random => None,
    }
}

/// The roster cards in battle-line order, front to rear.
pub const ROSTER_ORDER: [u8; 4] = [KIND_HEAVY, KIND_SPEAR, KIND_LIGHT, KIND_ARCHER];

/// A regiment kind's name on its roster card.
pub fn kind_name(kind: u8) -> (name: &'static str)
    ensures
        kind == KIND_HEAVY ==> name@ == "Knights"@,
        kind == KIND_SPEAR ==> name@ == "Spearmen"@,
        kind == KIND_ARCHER ==> name@ == "Bowmen"@,
        kind != KIND_HEAVY && kind != KIND_SPEAR && kind != KIND_ARCHER ==> name@ == "Men-at-Arms"@,
{
    if kind == KIND_HEAVY {
        "Knights"
    } else if kind == KIND_SPEAR {
        "Spearmen"
    } else if kind == KIND_ARCHER {
        "Bowmen"
    } else {
        "Men-at-Arms"
    }
}

/// A regiment kind's description on the info column.
pub fn kind_desc(kind: u8) -> (desc: &'static str)
    ensures
        kind == KIND_HEAVY ==> desc@
            == "Knights: slow, armored line breakers. Strongest holding the front rank."@,
        kind == KIND_SPEAR ==> desc@
            == "Spearmen: chainmail line troops. Hold ground and blunt cavalry-less charges."@,
        kind == KIND_ARCHER ==> desc@
            == "Bowmen: volleys over the friendly line. Force multipliers; a few go a long way."@,
        kind != KIND_HEAVY && kind != KIND_SPEAR && kind != KIND_ARCHER ==> desc@
            == "Men-at-Arms: fast and lightly armored. Flankers, screens, and the reserve line."@,
{
    if kind == KIND_HEAVY {
        "Knights: slow, armored line breakers. Strongest holding the front rank."
    } else if kind == KIND_SPEAR {
        "Spearmen: chainmail line troops. Hold ground and blunt cavalry-less charges."
    } else if kind == KIND_ARCHER {
        "Bowmen: volleys over the friendly line. Force multipliers; a few go a long way."
    } else {
        "Men-at-Arms: fast and lightly armored. Flankers, screens, and the reserve line."
    }
}

/// Which mouse button went down on a roster card or a placed card.
#[derive(Clone, Copy, PartialEq, Eq, Structural, Debug)]
pub enum Button {
    Primary,
    Secondary,
    Middle,
}

/// What a click on a roster card does to the army list.
#[derive(Clone, Copy, PartialEq, Eq, Structural, Debug)]
pub enum RosterAction {
    /// Add this many regiments of the card's kind.
    Add(usize),
    /// Remove this many regiments of the card's kind.
    Remove(usize),
    Nothing,
}

/// A click on a roster card: the primary button adds regiments of its
/// kind, the secondary removes them, the middle does nothing; ten at a
/// time with Shift held. A click that ends a drag does nothing either
/// (the drop did the work).
pub fn roster_click(button: Button, shift: bool, dragging: bool) -> (act: RosterAction)
    ensures
        act == if dragging || button == Button::Middle {
            RosterAction::Nothing
        } else if button == Button::Primary {
            RosterAction::Add(if shift { 10usize } else { 1usize })
        } else {
            RosterAction::Remove(if shift { 10usize } else { 1usize })
        },
{
    if dragging {
        return RosterAction::Nothing;
    }
    let n = shift_step(shift);
    match button {
        Button::Primary => RosterAction::Add(n),
        Button::Secondary => RosterAction::Remove(n),
        Button::Middle => RosterAction::Nothing,
    }
}

/// Regiments per click: ten with Shift held, else one.
pub fn shift_step(shift: bool) -> (n: usize)
    ensures
        n == if shift { 10usize } else { 1usize },
{
    if shift { 10 } else { 1 }
}

/// The team arrows flip between the player's army and the enemy's.
pub fn flip_team(state: &mut PickerState)
    ensures
        final(state).team == old(state).team ^ 1,
        final(state).enemy_manual == old(state).enemy_manual,
{
    state.team = state.team ^ 1;
}

/// The Default button restores the classic split for whichever editable
/// composition is on screen (nothing on the Random and style pages).
pub fn restore_default(config: &mut BattleConfig, state: &mut PickerState, classic: [usize; 4])
    ensures
        final(config).units_per_team == old(config).units_per_team,
        final(config).reg_size == old(config).reg_size,
        final(config).ai_enabled == old(config).ai_enabled,
        final(config).scenario == old(config).scenario,
        final(state).team == old(state).team,
        old(state).team == 0 ==> final(config).player_regs == classic && final(config).enemy
            == old(config).enemy && final(state).enemy_manual == old(state).enemy_manual,
        old(state).team != 0 && manual_mode(*old(config)) ==> final(state).enemy_manual == classic
            && final(config).enemy == EnemyComp::Manual(classic) && final(config).player_regs
            == old(config).player_regs,
        old(state).team != 0 && !manual_mode(*old(config)) ==> final(config).player_regs
            == old(config).player_regs && final(config).enemy == old(config).enemy
            && final(state).enemy_manual == old(state).enemy_manual,
{
    if state.team == 0 {
        config.player_regs = classic;
    } else if matches!(config.enemy, EnemyComp::Manual(_)) {
        state.enemy_manual = classic;
        config.enemy = EnemyComp::Manual(classic);
    }
}

/// An enemy-composition chip of the picker.
#[derive(Clone, Copy, PartialEq, Eq, Structural, Debug)]
pub enum ModeChip {
    Random,
    Style(usize),
    Manual,
}

/// Pressing a chip sets the enemy mode; Manual brings back the last
/// hand-built composition.
pub fn choose_chip(config: &mut BattleConfig, state: &PickerState, chip: ModeChip)
    ensures
        final(config).units_per_team == old(config).units_per_team,
        final(config).reg_size == old(config).reg_size,
        final(config).ai_enabled == old(config).ai_enabled,
        final(config).scenario == old(config).scenario,
        final(config).player_regs == old(config).player_regs,
        final(config).enemy == match chip {
            ModeChip::Random => EnemyComp::Random,
            ModeChip::Style(i) => EnemyComp::Style(i),
            ModeChip::Manual => EnemyComp::Manual(state.enemy_manual),
        },
{
    config.enemy = match chip {
        ModeChip::Random => EnemyComp::Random,
        ModeChip::Style(i) => EnemyComp::Style(i),
        ModeChip::Manual => EnemyComp::Manual(state.enemy_manual),
    };
}

/// Regiments per army in the classic battle: the army over the regiment
/// size, at least one.
pub fn regiments_per_army(per_team: usize, size: usize) -> (n: usize)
    requires
        size > 0,
    ensures
        n == if per_team / size > 1 { per_team / size } else { 1 },
{
    let n = per_team / size;
    if n > 1 { n } else { 1 }
}

/// Archer regiments per army by default: a fixed count of two (archers
/// are force multipliers), never more than the army has.
pub fn default_archer_regs(n_regs: usize) -> (n: usize)
    ensures
        n == if n_regs < 2 { n_regs } else { 2 },
{
    if n_regs < 2 { n_regs } else { 2 }
}

/// Archers take only the places left after heavies and spears.
pub fn archer_count(wanted: usize, n_regs: usize, n_heavy: usize, n_spear: usize) -> (n: usize)
    requires
        n_heavy + n_spear <= usize::MAX,
    ensures
        n == {
            let room = if n_regs > n_heavy + n_spear { n_regs - n_heavy - n_spear } else { 0 };
            if wanted < room { wanted as int } else { room }
        },
{
    let used = n_heavy + n_spear;
    let room: usize = if n_regs > used { n_regs - used } else { 0 };
    if wanted < room { wanted } else { room }
}

/// The kind of the `r`-th regiment of the battle line: heavies lead,
/// spears back them, archers take the last places, lights fill the middle.
pub open spec fn line_kind(r: int, n_regs: int, n_heavy: int, n_spear: int, n_archer: int) -> u8 {
    if r < n_heavy {
        KIND_HEAVY
    } else if r < n_heavy + n_spear {
        KIND_SPEAR
    } else if r >= n_regs - n_archer {
        KIND_ARCHER
    } else {
        KIND_LIGHT
    }
}

/// The kinds of an army of `n_regs` regiments, front to rear.
pub fn line_kinds(n_regs: usize, n_heavy: usize, n_spear: usize, n_archer: usize) -> (kinds: Vec<u8>)
    requires
        n_heavy + n_spear <= usize::MAX,
        n_archer <= n_regs,
    ensures
        kinds.len() == n_regs,
        forall|r: int|
            0 <= r < n_regs ==> #[trigger] kinds@[r] == line_kind(
                r,
                n_regs as int,
                n_heavy as int,
                n_spear as int,
                n_archer as int,
            ),
{
    let mut kinds: Vec<u8> = Vec::new();
    let mut r: usize = 0;
    while r < n_regs
        invariant
            r <= n_regs,
            n_heavy + n_spear <= usize::MAX,
            n_archer <= n_regs,
            kinds.len() == r,
            forall|k: int|
                0 <= k < r ==> #[trigger] kinds@[k] == line_kind(
                    k,
                    n_regs as int,
                    n_heavy as int,
                    n_spear as int,
                    n_archer as int,
                ),
        decreases n_regs - r,
    {
        let kind = if r < n_heavy {
            KIND_HEAVY
        } else if r < n_heavy + n_spear {
            KIND_SPEAR
        } else if r >= n_regs - n_archer {
            KIND_ARCHER
        } else {
            KIND_LIGHT
        };
        kinds.push(kind);
        r = r + 1;
    }
    kinds
}

/// Where the `r`-th regiment stands in the deployment: its rank (front
/// first), its file in the rank, and how many stand in that rank (the
/// last rank may be partial and is centered).
#[derive(Clone, Copy, PartialEq, Eq, Structural, Debug)]
pub struct LineSlot {
    pub rank: usize,
    pub file: usize,
    pub in_rank: usize,
}

/// Where regiment `r` of `n_regs` stands in a battle line of `per_rank`
/// regiments a rank: its rank, its file, and how many share its rank.
pub fn line_slot(r: usize, per_rank: usize, n_regs: usize) -> (s: LineSlot)
    requires
        per_rank > 0,
        r < n_regs,
    ensures
        s.rank == r / per_rank,
        s.file == r % per_rank,
        s.in_rank == if per_rank < n_regs - (r / per_rank) * per_rank {
            per_rank as int
        } else {
            n_regs - (r / per_rank) * per_rank
        },
{
    let rank = r / per_rank;
    let file = r % per_rank;
    proof {
        vstd::arithmetic::div_mod::lemma_fundamental_div_mod(r as int, per_rank as int);
        assert(rank * per_rank <= r) by (nonlinear_arith)
            requires rank * per_rank + file == r, file >= 0;
    }
    let before = rank * per_rank;
    let left = n_regs - before;
    let in_rank = if per_rank < left { per_rank } else { left };
    LineSlot { rank, file, in_rank }
}

/// Whether a chip shows as the active enemy mode.
pub fn chip_active(chip: ModeChip, enemy: EnemyComp) -> (b: bool)
    ensures
        b == match (chip, enemy) {
            (ModeChip::Random, EnemyComp::Random) => true,
            (ModeChip::Manual, EnemyComp::Manual(_)) => true,
            (ModeChip::Style(i), EnemyComp::Style(j)) => i == j,
            _ => false,
        },
{
    match (chip, enemy) {
        (ModeChip::Random, EnemyComp::Random) => true,
        (ModeChip::Manual, EnemyComp::Manual(_)) => true,
        (ModeChip::Style(i), EnemyComp::Style(j)) => i == j,
        _ => false,
    }
}

/// What the picker screen shows: the enemy page's mode chips, the army
/// list (hidden for a random enemy), the note under the chips (every enemy
/// mode but Manual), the Default button (editable pages only), and the
/// regiments in use.
#[derive(Clone, Copy)]
pub struct PickerView {
    pub mode_row: bool,
    pub grid: bool,
    pub note: bool,
    pub default_button: bool,
    pub used: Option<usize>,
}

/// The picker's panes and counters for the page on screen.
pub fn picker_view(config: &BattleConfig, state: &PickerState, preview: [usize; 4]) -> (v: PickerView)
    requires
        comp_sum(config.player_regs@) <= usize::MAX,
        comp_sum(preview@) <= usize::MAX,
        config.enemy matches EnemyComp::Manual(m) ==> comp_sum(m@) <= usize::MAX,
    ensures
        ({
            let shown = if state.team == 0 {
                Some(config.player_regs)
            } else {
                match config.enemy {
                    EnemyComp::Manual(m) => Some(m),
                    EnemyComp::Style(_) => Some(preview),
                    EnemyComp::Random => None,
                }
            };
            &&& v.mode_row == (state.team == 1)
            &&& v.grid == shown is Some
            &&& v.note == (state.team == 1 && !manual_mode(*config))
            &&& v.default_button == (state.team == 0 || manual_mode(*config))
            &&& v.used == match shown {
                Some(c) => Some(comp_sum(c@) as usize),
                None => None,
            }
        }),
{
    let counts = shown_counts(config, state, preview);
    let manual = matches!(config.enemy, EnemyComp::Manual(_));
    let used = match counts {
        Some(c) => Some(comp_total(&c)),
        None => None,
    };
    PickerView {
        mode_row: state.team == 1,
        grid: counts.is_some(),
        note: state.team == 1 && !manual,
        default_button: state.team == 0 || manual,
        used,
    }
}

/// The page title of the picker.
pub fn team_title(team: u8) -> (s: &'static str)
    ensures
        team == 0 ==> s@ == "Team 1  -  Your Army"@,
        team != 0 ==> s@ == "Team 2  -  Enemy Army"@,
{
    if team == 0 {
        "Team 1  -  Your Army"
    } else {
        "Team 2  -  Enemy Army"
    }
}

/// The note under the enemy mode chips.
pub fn enemy_note(enemy: EnemyComp) -> (s: &'static str)
    ensures
        enemy is Random ==> s@ == "A different army style takes the field every battle."@,
        enemy is Style ==> s@ == "Jittered a little every battle."@,
        enemy is Manual ==> s@ == ""@,
{
    match enemy {
        EnemyComp::Random => "A different army style takes the field every battle.",
        EnemyComp::Style(_) => "Jittered a little every battle.",
        EnemyComp::Manual(_) => "",
    }
}

/// The army list's cells: the placed regiments in battle-line order
/// (heavies, spears, lights, archers), then the empty slots.
pub open spec fn grid_of(comp: Seq<usize>, slots: int) -> Seq<Option<u8>> {
    let used = comp_sum(comp);
    Seq::new(comp[KIND_HEAVY as int] as nat, |i: int| Some(KIND_HEAVY))
        + Seq::new(comp[KIND_SPEAR as int] as nat, |i: int| Some(KIND_SPEAR))
        + Seq::new(comp[KIND_LIGHT as int] as nat, |i: int| Some(KIND_LIGHT))
        + Seq::new(comp[KIND_ARCHER as int] as nat, |i: int| Some(KIND_ARCHER))
        + Seq::new((if slots > used { slots - used } else { 0 }) as nat, |i: int| None::<u8>)
}

fn push_cells(cells: &mut Vec<Option<u8>>, n: usize, cell: Option<u8>)
    ensures
        final(cells)@ == old(cells)@ + Seq::new(n as nat, |i: int| cell),
{
    let ghost start = cells@;
    let mut i: usize = 0;
    while i < n
        invariant
            i <= n,
            cells@ == start + Seq::new(i as nat, |j: int| cell),
        decreases n - i,
    {
        cells.push(cell);
        i = i + 1;
        proof {
            assert(cells@ =~= start + Seq::new(i as nat, |j: int| cell));
        }
    }
}

/// The army list's cells for a composition and the slot budget.
pub fn grid_cells(comp: &[usize; 4], slots: usize) -> (cells: Vec<Option<u8>>)
    requires
        comp_sum(comp@) <= usize::MAX,
    ensures
        cells@ == grid_of(comp@, slots as int),
{
    let used = comp_total(comp);
    let mut cells: Vec<Option<u8>> = Vec::new();
    push_cells(&mut cells, comp[1], Some(KIND_HEAVY));
    push_cells(&mut cells, comp[2], Some(KIND_SPEAR));
    push_cells(&mut cells, comp[0], Some(KIND_LIGHT));
    push_cells(&mut cells, comp[3], Some(KIND_ARCHER));
    let empty: usize = if slots > used { slots - used } else { 0 };
    push_cells(&mut cells, empty, None);
    proof {
        assert(cells@ =~= grid_of(comp@, slots as int));
    }
    cells
}

/// A button of the picker screen.
#[derive(Clone, Copy, PartialEq, Eq, Structural, Debug)]
pub enum PickerButton {
    TeamFlip,
    Default,
    Back,
    Start,
}

/// A press of a picker button: the team arrow flips the page, Default
/// restores the classic split, Back returns to the menu, and Start begins
/// the battle when both armies are valid. Returns the screen to go to.
pub fn picker_press(
    button: PickerButton,
    config: &mut BattleConfig,
    state: &mut PickerState,
    classic: [usize; 4],
) -> (next: Option<GameState>)
    requires
        comp_sum(old(config).player_regs@) <= usize::MAX,
        old(config).enemy matches EnemyComp::Manual(m) ==> comp_sum(m@) <= usize::MAX,
    ensures
        button == PickerButton::TeamFlip ==> next is None && final(state).team == old(state).team ^ 1
            && final(state).enemy_manual == old(state).enemy_manual && *final(config) == *old(config),
        button == PickerButton::Default ==> next is None && final(state).team == old(state).team && (
        old(state).team == 0 ==> final(config).player_regs == classic && final(config).enemy == old(
            config,
        ).enemy && final(state).enemy_manual == old(state).enemy_manual) && (old(state).team != 0
            && manual_mode(*old(config)) ==> final(state).enemy_manual == classic && final(config).enemy
            == EnemyComp::Manual(classic) && final(config).player_regs == old(config).player_regs) && (
        old(state).team != 0 && !manual_mode(*old(config)) ==> *final(config) == *old(config)
            && *final(state) == *old(state)),
        button == PickerButton::Back ==> next == Some(GameState::Menu) && *final(config) == *old(config)
            && *final(state) == *old(state),
        button == PickerButton::Start ==> *final(config) == *old(config) && *final(state) == *old(state)
            && next == if valid_army(*old(config)) {
            Some(GameState::Battle)
        } else {
            None
        },
{
    match button {
        PickerButton::TeamFlip => {
            flip_team(state);
            None
        },
        PickerButton::Default => {
            restore_default(config, state, classic);
            None
        },
        PickerButton::Back => Some(GameState::Menu),
        PickerButton::Start => if army_valid(config) {
            Some(GameState::Battle)
        } else {
            None
        },
    }
}

/// The picker's keys: Escape goes back to the menu; Enter or Space starts
/// the battle when both armies are valid.
pub fn picker_keys(start: bool, escape: bool, config: &BattleConfig) -> (next: Option<GameState>)
    requires
        comp_sum(config.player_regs@) <= usize::MAX,
        config.enemy matches EnemyComp::Manual(m) ==> comp_sum(m@) <= usize::MAX,
    ensures
        next == if escape {
            Some(GameState::Menu)
        } else if start && valid_army(*config) {
            Some(GameState::Battle)
        } else {
            None
        },
{
    if escape {
        Some(GameState::Menu)
    } else if start && army_valid(config) {
        Some(GameState::Battle)
    } else {
        None
    }
}

/// Regiments per rank of the battle line: as many as fit across the map
/// (`fit`), but enough that the army needs no more than `max_ranks` ranks,
/// and at least one.
pub fn per_rank(fit: usize, n_regs: usize, max_ranks: usize) -> (n: usize)
    requires
        max_ranks >= 1,
    ensures
        n == {
            let need = (n_regs + max_ranks - 1) / (max_ranks as int);
            let m = if fit > need { fit as int } else { need };
            if m > 1 { m } else { 1 }
        },
        n >= 1,
{
    proof {
        let q = n_regs as int / max_ranks as int;
        let r = n_regs as int % max_ranks as int;
        vstd::arithmetic::div_mod::lemma_fundamental_div_mod(n_regs as int, max_ranks as int);
        vstd::arithmetic::div_mod::lemma_mod_pos_bound(n_regs as int, max_ranks as int);
        assert(max_ranks * q == q * max_ranks) by (nonlinear_arith);
        assert(q >= 0 && max_ranks * q >= q) by (nonlinear_arith)
            requires
                n_regs as int == max_ranks * q + r,
                0 <= r < max_ranks,
                max_ranks >= 1,
                n_regs >= 0,
        ;
        if r == 0 {
            vstd::arithmetic::div_mod::lemma_fundamental_div_mod_converse(
                n_regs + max_ranks - 1,
                max_ranks as int,
                q,
                max_ranks - 1,
            );
        } else {
            assert(n_regs + max_ranks - 1 == (q + 1) * max_ranks + (r - 1)) by (nonlinear_arith)
                requires
                    n_regs as int == max_ranks * q + r,
            ;
            vstd::arithmetic::div_mod::lemma_fundamental_div_mod_converse(
                n_regs + max_ranks - 1,
                max_ranks as int,
                q + 1,
                r - 1,
            );
        }
    }
    let need: usize = n_regs / max_ranks + if n_regs % max_ranks == 0 { 0 } else { 1 };
    let m = if fit > need { fit } else { need };
    if m > 1 { m } else { 1 }
}

/// The enemy's regiment count when a cap is asked for: the cap, kept
/// between one and the player's count.
pub fn enemy_regiments(asked: usize, n_regs: usize) -> (n: usize)
    requires
        n_regs >= 1,
    ensures
        n == if asked < 1 { 1 } else if asked > n_regs { n_regs } else { asked },
{
    if asked < 1 {
        1
    } else if asked > n_regs {
        n_regs
    } else {
        asked
    }
}

} // verus!
