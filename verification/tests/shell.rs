use flanks::army::{
    add_regs, archer_count, army_valid, choose_chip, comp_total, default_archer_regs, flip_team, kind_desc, kind_name,
    line_kinds, line_slot, regiments_per_army, remove_regs, restore_default, roster_click, shift_step, shown_counts,
    BattleConfig, Button, EnemyComp, ModeChip, PickerState, RosterAction, ROSTER_ORDER,
};
use flanks::fatigue::{activity, cannot_charge, state_from_bands, state_index, state_name, tires, Activity, FatigueState};
use flanks::formation::{
    mark_formed, plan_reforms, rect_files, regiment_members, slot_cells, toggle_blob, toggle_hold, toggle_spacing,
};
use flanks::game::{all_scenarios, army_size_label, next_army_size, outcome_banner, results_title, Scenario};
use flanks::regiment::{FormShape, FormSpacing, RegState, GroupData, KIND_ARCHER, KIND_HEAVY, KIND_LIGHT, KIND_SPEAR};
use flanks::settings::{present_mode, window_mode, PresentChoice, Switches, Toggle, WindowChoice};
use flanks::army::{chip_active, enemy_note, grid_cells, picker_view, team_title};
use flanks::army::{picker_keys, picker_press, PickerButton};
use flanks::game::{ai_label, menu_start, pause_input, regiment_size, results_next, PauseButton, ResultsButton, GameState};
use flanks::army::{enemy_regiments, per_rank};
use flanks::formation::hold_team;

type Pt = (i32, i32);

fn reg(count: usize) -> GroupData<Pt> {
    GroupData::new(0, KIND_LIGHT, (0, 0), count, 0)
}

fn config() -> BattleConfig {
    BattleConfig {
        units_per_team: 10_000,
        reg_size: 500,
        ai_enabled: true,
        scenario: Scenario::Normal,
        player_regs: [0, 0, 0, 0],
        enemy: EnemyComp::Random,
    }
}

#[test]
fn fatigue_bands() {
    assert_eq!(state_from_bands(&[true, true, true, true, true]), FatigueState::Fresh);
    assert_eq!(state_from_bands(&[false, false, true, true, true]), FatigueState::Winded);
    assert_eq!(state_from_bands(&[false, false, false, false, true]), FatigueState::VeryTired);
    assert_eq!(state_from_bands(&[false; 5]), FatigueState::Exhausted);
    assert_eq!(state_index(FatigueState::Tired), 3);
    assert_eq!(state_name(FatigueState::WarmedUp), "warmed up");
    assert_eq!(state_name(FatigueState::VeryTired), "very tired");
    assert!(cannot_charge(FatigueState::Exhausted));
    assert!(!cannot_charge(FatigueState::VeryTired));
}

#[test]
fn fatigue_activities() {
    assert_eq!(activity(true, true, true, true), Activity::Fight);
    assert_eq!(activity(false, true, false, false), Activity::Charge);
    assert_eq!(activity(false, false, true, false), Activity::Move);
    assert_eq!(activity(false, false, false, true), Activity::Move);
    assert_eq!(activity(false, false, false, false), Activity::Recover);
    assert!(tires(Activity::Fight));
    assert!(!tires(Activity::Recover));
}

#[test]
fn slot_cells_fill_rows_front_to_back() {
    let cells = slot_cells(7, 3);
    assert_eq!(cells.len(), 7);
    assert_eq!((cells[0].rank, cells[0].col, cells[0].in_row), (0, 0, 3));
    assert_eq!((cells[4].rank, cells[4].col, cells[4].in_row), (1, 1, 3));
    // The last, partial rank holds one man.
    assert_eq!((cells[6].rank, cells[6].col, cells[6].in_row), (2, 0, 1));
    // Zero files means one file; too many files means one rank.
    assert_eq!(slot_cells(3, 0)[2].rank, 2);
    assert_eq!(slot_cells(3, 10)[2].rank, 0);
    assert!(slot_cells(0, 4).is_empty());
}

#[test]
fn spacing_toggle_is_uniform() {
    let mut regs = vec![reg(10), reg(10), reg(10)];
    regs[0].spacing = FormSpacing::Wall;
    let on = toggle_spacing(&mut regs, &vec![0, 1], FormSpacing::Wall, &vec![6, 7, 8]);
    // One picked regiment was not in wall: all of them go in.
    assert!(on);
    assert_eq!(regs[0].spacing, FormSpacing::Wall);
    assert_eq!(regs[1].spacing, FormSpacing::Wall);
    assert_eq!(regs[1].shape, FormShape::Rect);
    assert_eq!(regs[1].files, 7);
    assert!(regs[1].reform);
    assert_eq!(regs[2].spacing, FormSpacing::Normal);
    // Now all are in wall: the same key takes them out.
    let on = toggle_spacing(&mut regs, &vec![0, 1], FormSpacing::Wall, &vec![6, 7, 8]);
    assert!(!on);
    assert_eq!(regs[0].spacing, FormSpacing::Normal);
    assert_eq!(regs[1].spacing, FormSpacing::Normal);
}

#[test]
fn blob_and_hold_toggles() {
    let mut regs = vec![reg(10), reg(10)];
    regs[0].shape = FormShape::Rect;
    regs[0].files = 5;
    assert!(toggle_blob(&mut regs, &vec![0, 1], &vec![9, 9]));
    assert_eq!(regs[0].shape, FormShape::Blob);
    assert_eq!(regs[0].files, 5);
    assert_eq!(regs[1].files, 9);
    assert!(!toggle_blob(&mut regs, &vec![0, 1], &vec![9, 9]));
    assert_eq!(regs[1].shape, FormShape::Rect);
    assert!(toggle_hold(&mut regs, &vec![1]));
    assert!(regs[1].hold);
    assert!(!regs[0].hold);
    assert!(!toggle_hold(&mut regs, &vec![1]));
    assert!(!regs[1].hold);
}

#[test]
fn reforms_fall_due_on_request_or_losses() {
    let mut regs = vec![reg(100), reg(100), reg(0), reg(100)];
    regs[0].reform = true;
    regs[1].shape = FormShape::Rect;
    regs[1].count_at_reform = 120;
    regs[2].reform = true;
    regs[3].shape = FormShape::Rect;
    regs[3].count_at_reform = 105;
    // Tick 89: regiment 1's staggered check falls on this tick (89 + 1 = 90).
    let due = plan_reforms(&mut regs, 89, false, &vec![10, 10, 10, 10]);
    assert_eq!(due, vec![true, true, false, false]);
    // A dead regiment's request is dropped.
    assert!(!regs[2].reform);
    assert!(regs[0].reform);
    // Off the check tick nothing new is due.
    let due = plan_reforms(&mut regs, 90, false, &vec![10, 10, 10, 10]);
    assert_eq!(due, vec![true, false, false, false]);
    mark_formed(&mut regs[0], 100);
    assert!(!regs[0].reform);
    assert_eq!(regs[0].count_at_reform, 100);
}

#[test]
fn picker_budget_is_army_over_regiment_size() {
    let mut c = config();
    let mut s = PickerState { team: 0, enemy_manual: [0, 0, 0, 0] };
    assert_eq!(c.n_slots(), 20);
    add_regs(&mut c, &mut s, 1, 15);
    add_regs(&mut c, &mut s, 2, 10);
    assert_eq!(c.player_regs, [0, 15, 5, 0]);
    assert_eq!(comp_total(&c.player_regs), 20);
    remove_regs(&mut c, &mut s, 2, 10);
    assert_eq!(c.player_regs, [0, 15, 0, 0]);
    assert!(army_valid(&c));
}

#[test]
fn enemy_page_edits_only_manual_compositions() {
    let mut c = config();
    let mut s = PickerState { team: 0, enemy_manual: [0, 0, 0, 0] };
    flip_team(&mut s);
    assert_eq!(s.team, 1);
    add_regs(&mut c, &mut s, 0, 3);
    assert_eq!(s.enemy_manual, [0, 0, 0, 0]);
    assert!(matches!(c.enemy, EnemyComp::Random));
    choose_chip(&mut c, &s, ModeChip::Manual);
    add_regs(&mut c, &mut s, 0, 3);
    assert_eq!(s.enemy_manual, [3, 0, 0, 0]);
    assert!(matches!(c.enemy, EnemyComp::Manual([3, 0, 0, 0])));
    assert_eq!(shown_counts(&c, &s, [9, 9, 9, 9]), Some([3, 0, 0, 0]));
    // No player regiments yet: not a valid battle.
    assert!(!army_valid(&c));
    choose_chip(&mut c, &s, ModeChip::Style(2));
    assert_eq!(shown_counts(&c, &s, [9, 9, 9, 9]), Some([9, 9, 9, 9]));
    choose_chip(&mut c, &s, ModeChip::Random);
    assert_eq!(shown_counts(&c, &s, [9, 9, 9, 9]), None);
    flip_team(&mut s);
    assert_eq!(shown_counts(&c, &s, [9, 9, 9, 9]), Some([0, 0, 0, 0]));
}

#[test]
fn restore_default_sets_the_classic_army() {
    let mut c = config();
    let mut s = PickerState { team: 0, enemy_manual: [1, 1, 1, 1] };
    restore_default(&mut c, &mut s, [4, 8, 4, 2]);
    assert_eq!(c.player_regs, [4, 8, 4, 2]);
    assert_eq!(s.enemy_manual, [1, 1, 1, 1]);
}

#[test]
fn roster_labels_and_clicks() {
    assert_eq!(kind_name(KIND_HEAVY), "Knights");
    assert_eq!(kind_name(KIND_SPEAR), "Spearmen");
    assert_eq!(kind_name(KIND_ARCHER), "Bowmen");
    assert_eq!(kind_name(KIND_LIGHT), "Men-at-Arms");
    assert!(kind_desc(KIND_ARCHER).starts_with("Bowmen: volleys"));
    assert_eq!(ROSTER_ORDER, [KIND_HEAVY, KIND_SPEAR, KIND_LIGHT, KIND_ARCHER]);
    assert_eq!(shift_step(true), 10);
    assert_eq!(roster_click(Button::Primary, false, false), RosterAction::Add(1));
    assert_eq!(roster_click(Button::Secondary, true, false), RosterAction::Remove(10));
    assert_eq!(roster_click(Button::Middle, true, false), RosterAction::Nothing);
    assert_eq!(roster_click(Button::Primary, true, true), RosterAction::Nothing);
}

#[test]
fn battle_line_layout() {
    assert_eq!(regiments_per_army(10_000, 500), 20);
    assert_eq!(regiments_per_army(300, 500), 1);
    assert_eq!(default_archer_regs(1), 1);
    assert_eq!(default_archer_regs(20), 2);
    assert_eq!(archer_count(5, 10, 4, 3), 3);
    assert_eq!(archer_count(2, 10, 4, 3), 2);
    assert_eq!(archer_count(2, 5, 4, 3), 0);
    assert_eq!(
        line_kinds(8, 2, 2, 2),
        vec![KIND_HEAVY, KIND_HEAVY, KIND_SPEAR, KIND_SPEAR, KIND_LIGHT, KIND_LIGHT, KIND_ARCHER, KIND_ARCHER]
    );
    let s = line_slot(7, 3, 8);
    assert_eq!((s.rank, s.file, s.in_rank), (2, 1, 2));
    let s = line_slot(1, 3, 8);
    assert_eq!((s.rank, s.file, s.in_rank), (0, 1, 3));
}

#[test]
fn scenarios_and_labels() {
    let all = all_scenarios();
    assert_eq!(all.len(), 9);
    assert_eq!(all[0], Scenario::Normal);
    assert_eq!(Scenario::Dir.label(), "Dir Defense");
    assert_eq!(Scenario::Pile.label(), "Pile-on");
    assert_eq!(Scenario::Routpass.label(), "Rout Pass");
    assert_eq!(results_title(Some(0)), "VICTORY");
    assert_eq!(results_title(Some(1)), "DEFEAT");
    assert_eq!(results_title(Some(2)), "MUTUAL DESTRUCTION");
}

#[test]
fn army_size_cycle() {
    assert_eq!(army_size_label(10_000), "20k");
    assert_eq!(army_size_label(50_000), "100k");
    assert_eq!(army_size_label(12_345), "200k");
    assert_eq!(next_army_size(10_000), (25_000, 1000));
    assert_eq!(next_army_size(100_000), (10_000, 500));
    assert_eq!(next_army_size(7), (10_000, 500));
    // Four presses come back around.
    let mut size = 25_000;
    for _ in 0..4 {
        size = next_army_size(size).0;
    }
    assert_eq!(size, 25_000);
}

#[test]
fn switch_toggles() {
    let mut s = Switches::default_switches();
    assert_eq!(s, Switches { edge_pan: true, vsync: false, fullscreen: false });
    assert_eq!(Toggle::EdgePan.label(&s), "On");
    assert_eq!(Toggle::Fullscreen.label(&s), "Windowed");
    Toggle::Fullscreen.flip(&mut s);
    assert!(s.fullscreen);
    assert!(s.edge_pan);
    assert_eq!(Toggle::Fullscreen.label(&s), "Borderless");
    assert_eq!(window_mode(&s), WindowChoice::Borderless);
    assert_eq!(present_mode(&s), PresentChoice::AutoNoVsync);
    Toggle::VSync.flip(&mut s);
    assert!(Toggle::VSync.get(&s));
    assert_eq!(present_mode(&s), PresentChoice::AutoVsync);
    Toggle::VSync.flip(&mut s);
    Toggle::Fullscreen.flip(&mut s);
    assert_eq!(s, Switches::default_switches());
}

#[test]
fn broken_regiments_never_reform() {
    let mut regs = vec![reg(50)];
    regs[0].reform = true;
    regs[0].state = RegState::Routing { since: 1 };
    let due = plan_reforms(&mut regs, 0, true, &vec![1]);
    assert_eq!(due, vec![false]);
    assert!(!regs[0].reform);
}

#[test]
fn picker_view_and_grid() {
    let mut c = config();
    c.player_regs = [1, 2, 0, 1];
    let s = PickerState { team: 0, enemy_manual: [0, 0, 0, 0] };
    let v = picker_view(&c, &s, [5, 5, 5, 5]);
    assert!(!v.mode_row && v.grid && !v.note && v.default_button);
    assert_eq!(v.used, Some(4));
    let e = PickerState { team: 1, enemy_manual: [0, 0, 0, 0] };
    let v = picker_view(&c, &e, [5, 5, 5, 5]);
    assert!(v.mode_row && !v.grid && v.note && !v.default_button);
    assert_eq!(v.used, None);
    c.enemy = EnemyComp::Style(1);
    assert_eq!(picker_view(&c, &e, [5, 5, 5, 5]).used, Some(20));
    assert!(chip_active(ModeChip::Style(1), c.enemy));
    assert!(!chip_active(ModeChip::Style(2), c.enemy));
    assert!(!chip_active(ModeChip::Manual, c.enemy));
    assert_eq!(team_title(0), "Team 1  -  Your Army");
    assert_eq!(team_title(1), "Team 2  -  Enemy Army");
    assert_eq!(enemy_note(EnemyComp::Style(0)), "Jittered a little every battle.");
    assert_eq!(enemy_note(EnemyComp::Manual([0; 4])), "");
    let cells = grid_cells(&[1, 2, 1, 1], 7);
    assert_eq!(
        cells,
        vec![Some(KIND_HEAVY), Some(KIND_HEAVY), Some(KIND_SPEAR), Some(KIND_LIGHT), Some(KIND_ARCHER), None, None]
    );
    assert_eq!(grid_cells(&[3, 0, 0, 0], 2).len(), 3);
}

#[test]
fn picker_buttons_and_keys() {
    let mut c = config();
    let mut s = PickerState { team: 0, enemy_manual: [0, 0, 0, 0] };
    assert_eq!(picker_press(PickerButton::Start, &mut c, &mut s, [4, 8, 4, 2]), None);
    assert_eq!(picker_keys(true, false, &c), None);
    assert_eq!(picker_press(PickerButton::Default, &mut c, &mut s, [4, 8, 4, 2]), None);
    assert_eq!(c.player_regs, [4, 8, 4, 2]);
    assert_eq!(picker_press(PickerButton::Start, &mut c, &mut s, [4, 8, 4, 2]), Some(GameState::Battle));
    assert_eq!(picker_keys(true, false, &c), Some(GameState::Battle));
    assert_eq!(picker_keys(true, true, &c), Some(GameState::Menu));
    assert_eq!(picker_press(PickerButton::TeamFlip, &mut c, &mut s, [4, 8, 4, 2]), None);
    assert_eq!(s.team, 1);
    assert_eq!(picker_press(PickerButton::Back, &mut c, &mut s, [4, 8, 4, 2]), Some(GameState::Menu));
}

#[test]
fn scenario_switches_round_trip() {
    for s in all_scenarios() {
        assert_eq!(Scenario::from_switches(&s.switches()), s);
    }
    assert_eq!(Scenario::Normal.switches(), [false; 8]);
    // The first switch set wins.
    assert_eq!(Scenario::from_switches(&[false, true, false, false, true, false, false, false]), Scenario::Rout);
    assert_eq!(regiment_size(10), 50);
    assert_eq!(regiment_size(1000), 1000);
    assert_eq!(ai_label(true), "On");
    let mut auto = false;
    assert_eq!(menu_start(true, &mut auto, false), Some(None));
    assert!(auto);
    assert_eq!(menu_start(true, &mut auto, false), None);
    assert_eq!(menu_start(false, &mut auto, true), Some(Some(Scenario::Normal)));
    assert_eq!(results_next(ResultsButton::PlayAgain), GameState::Battle);
    assert_eq!(results_next(ResultsButton::MainMenu), GameState::Menu);
    assert_eq!(pause_input(false, true, None), (true, None));
    assert_eq!(pause_input(true, true, None), (false, None));
    assert_eq!(pause_input(true, false, None), (true, None));
    assert_eq!(pause_input(true, false, Some(PauseButton::QuitToMenu)), (false, Some(GameState::Menu)));
    assert_eq!(pause_input(true, true, Some(PauseButton::Resume)), (false, None));
}

#[test]
fn battle_line_ranks_and_enemy_cap() {
    // 10 fit across; 25 regiments in at most 2 ranks need 13 per rank.
    assert_eq!(per_rank(10, 25, 2), 13);
    assert_eq!(per_rank(10, 12, 2), 10);
    assert_eq!(per_rank(0, 0, 3), 1);
    assert_eq!(per_rank(4, 9, 3), 4);
    assert_eq!(enemy_regiments(0, 8), 1);
    assert_eq!(enemy_regiments(5, 8), 5);
    assert_eq!(enemy_regiments(50, 8), 8);
}

#[test]
fn static_army_holds() {
    let mut regs = vec![reg(10), reg(10)];
    regs[1].team = 1;
    hold_team(&mut regs, 1);
    assert!(!regs[0].hold);
    assert!(regs[1].hold);
}


#[test]
fn reform_members_and_files() {
    assert_eq!(regiment_members(&vec![0, 1, 1, 0, 1], &vec![0, 0, 5, 0, 0], 1), vec![1, 4]);
    assert!(regiment_members(&vec![0, 0], &vec![0, 0], 3).is_empty());
    assert_eq!(rect_files(0, 10), 1);
    assert_eq!(rect_files(4, 10), 4);
    assert_eq!(rect_files(40, 10), 10);
}

#[test]
fn outcome_banner_lines() {
    assert_eq!(outcome_banner(Some(0)), "\n=== VICTORY: the enemy army is broken ===");
    assert_eq!(outcome_banner(Some(1)), "\n=== DEFEAT: your army is broken ===");
    assert_eq!(outcome_banner(Some(2)), "\n=== MUTUAL DESTRUCTION ===");
    assert_eq!(outcome_banner(None), "");
}

#[test]
fn the_player_page_ignores_the_enemy_composition() {
    let mut c = config();
    // An enemy composition whose total does not even fit in a usize.
    let mut s = PickerState { team: 0, enemy_manual: [usize::MAX, usize::MAX, 0, 0] };
    add_regs(&mut c, &mut s, 3, 4);
    assert_eq!(c.player_regs, [0, 0, 0, 4]);
    assert_eq!(s.enemy_manual, [usize::MAX, usize::MAX, 0, 0]);
}
