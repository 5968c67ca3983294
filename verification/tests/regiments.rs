use flanks::battle::{auto_engage, check_victory, BattleOutcome, is_ai_idle, is_ai_target, prune_targets, side_is_fighting};
use flanks::morale::{assign_leader, band, leadership, morale_step, safe_run, Band, Leadership};
use flanks::orders::{
    apply_line_order, attack_regiments, clear_arrived_orders, halt_selected, order_regiments, unbroken,
    LinePlacement,
};
use flanks::regiment::{
    wall_kind, Groups, FormShape, FormSpacing, Order, RegState, GroupData, KIND_ARCHER, KIND_HEAVY, KIND_LIGHT,
    KIND_SPEAR,
};
use flanks::selection::{copy_mask, promote_hits, ControlGroups, Selection};
use flanks::battle::ai_commit;
use flanks::orders::{drag_hold, drag_idle, drag_press, drag_release, OrderAction};
use flanks::selection::{count_hits, DragLine};

type Pt = (i32, i32);

fn reg(team: u8, kind: u8, at: Pt, count: usize) -> GroupData<Pt> {
    GroupData::new(team, kind, at, count, 30)
}

fn is_move_to(r: &GroupData<Pt>, p: Pt) -> bool {
    matches!(r.order, Some(Order::Move(q)) if q == p)
}

fn is_attack_on(r: &GroupData<Pt>, t: u32) -> bool {
    matches!(r.order, Some(Order::Attack(u)) if u == t)
}

#[test]
fn new_regiment_is_steady_blob_without_order() {
    let r = reg(0, KIND_HEAVY, (5, 7), 120);
    assert_eq!(r.team, 0);
    assert_eq!(r.kind, KIND_HEAVY);
    assert!(r.order.is_none());
    assert_eq!(r.anchor, (5, 7));
    assert_eq!(r.centroid, (5, 7));
    assert_eq!(r.count, 120);
    assert_eq!(r.initial_count, 120);
    assert_eq!(r.shape, FormShape::Blob);
    assert_eq!(r.spacing, FormSpacing::Normal);
    assert_eq!(r.state, RegState::Steady);
    assert!(!r.skirmish);
    assert_eq!(r.ammo_left, 0);
}

#[test]
fn new_archers_carry_arrows_and_skirmish() {
    let r = reg(1, KIND_ARCHER, (0, 0), 50);
    assert!(r.skirmish);
    assert_eq!(r.ammo_left, 50 * 30);
}

#[test]
fn broken_states_are_broken() {
    assert!(!RegState::Steady.is_broken());
    assert!(RegState::Routing { since: 3 }.is_broken());
    assert!(RegState::Shattered.is_broken());
}

#[test]
fn goal_follows_move_point_and_living_target() {
    let mut groups = Groups { list: vec![reg(0, KIND_LIGHT, (0, 0), 10), reg(1, KIND_LIGHT, (9, 9), 10)] };
    groups.list[1].centroid = (8, 8);
    assert_eq!(groups.goal(0), None);
    groups.list[0].order = Some(Order::Move((3, 4)));
    assert_eq!(groups.goal(0), Some((3, 4)));
    groups.list[0].order = Some(Order::Attack(1));
    assert_eq!(groups.goal(0), Some((8, 8)));
    groups.list[1].count = 0;
    assert_eq!(groups.goal(0), None);
    // Another regiment's order is not read.
    groups.list[1].order = Some(Order::Attack(99));
    groups.list[0].order = Some(Order::Move((5, 5)));
    assert_eq!(groups.goal(0), Some((5, 5)));
}

#[test]
fn wall_kinds() {
    let mut r = reg(0, KIND_SPEAR, (0, 0), 10);
    assert_eq!(wall_kind(&r), 0);
    r.spacing = FormSpacing::Wall;
    assert_eq!(wall_kind(&r), 2);
    r.kind = KIND_HEAVY;
    assert_eq!(wall_kind(&r), 1);
    r.state = RegState::Routing { since: 1 };
    assert_eq!(wall_kind(&r), 0);
}

#[test]
fn recount_counts_selected_player_units_only() {
    let regs = vec![reg(0, KIND_LIGHT, (0, 0), 10), reg(1, KIND_LIGHT, (0, 0), 20), reg(0, KIND_HEAVY, (0, 0), 5)];
    let mut sel = Selection { regiments: vec![true, true, true], count_units: 0 };
    sel.recount(&regs);
    assert_eq!(sel.count_units, 15);
}

#[test]
fn picked_controllable_skips_dead_and_broken() {
    let mut regs = vec![reg(0, KIND_LIGHT, (0, 0), 10), reg(0, KIND_LIGHT, (0, 0), 0), reg(0, KIND_LIGHT, (0, 0), 4)];
    regs[2].state = RegState::Shattered;
    let sel = Selection { regiments: vec![true, true, true], count_units: 14 };
    assert_eq!(sel.picked_controllable(&regs), vec![0]);
}

#[test]
fn lasso_needs_enough_hits() {
    // 1000 men: threshold is 3% = 30. 100 men: threshold is the floor of 8.
    // 5 men: the threshold is capped at the regiment's size.
    let regs = vec![
        reg(0, KIND_LIGHT, (0, 0), 1000),
        reg(0, KIND_LIGHT, (0, 0), 1000),
        reg(0, KIND_LIGHT, (0, 0), 100),
        reg(0, KIND_LIGHT, (0, 0), 5),
        reg(1, KIND_LIGHT, (0, 0), 100),
    ];
    let hits = vec![30, 29, 8, 5, 100];
    let mut sel = Selection { regiments: vec![], count_units: 0 };
    promote_hits(&regs, &hits, &mut sel);
    assert_eq!(sel.regiments, vec![true, false, true, true, false]);
    assert_eq!(sel.count_units, 1105);
}

#[test]
fn control_group_recall_returns_stored_selection() {
    let regs = vec![reg(0, KIND_LIGHT, (0, 0), 10), reg(0, KIND_LIGHT, (0, 0), 20), reg(0, KIND_LIGHT, (0, 0), 30)];
    let mut groups = ControlGroups::new();
    let sel = Selection { regiments: vec![false, true, true], count_units: 50 };
    groups.store(2, &sel);
    let mut now = Selection { regiments: vec![true, false, false], count_units: 10 };
    assert!(groups.recall(2, &mut now, &regs));
    assert_eq!(now.regiments, vec![false, true, true]);
    assert_eq!(now.count_units, 50);
    // An empty slot recalls nothing.
    assert!(!groups.recall(4, &mut now, &regs));
    assert_eq!(now.regiments, vec![false, true, true]);
}

#[test]
fn empty_selection_is_not_stored() {
    let mut groups = ControlGroups::new();
    let sel = Selection { regiments: vec![false, false], count_units: 0 };
    groups.store(0, &sel);
    assert!(groups.0[0].is_empty());
    assert_eq!(copy_mask(&vec![true, false]), vec![true, false]);
}

#[test]
fn move_orders_skip_broken_regiments() {
    let mut regs = vec![reg(0, KIND_LIGHT, (0, 0), 10), reg(0, KIND_LIGHT, (0, 0), 10), reg(0, KIND_LIGHT, (0, 0), 10)];
    regs[1].state = RegState::Routing { since: 2 };
    regs[2].shape = FormShape::Rect;
    let dest = vec![(1, 1), (2, 2), (3, 3)];
    order_regiments(&mut regs, &vec![0, 1, 2], &dest, &vec![true, true, true]);
    assert!(is_move_to(&regs[0], (1, 1)));
    assert!(regs[1].order.is_none());
    assert!(is_move_to(&regs[2], (3, 3)));
    // Only a rect formation that turns asks for a reform.
    assert!(!regs[0].reform);
    assert!(regs[2].reform);
    assert_eq!(unbroken(&regs, &vec![0, 1, 2]), vec![0, 2]);
}

#[test]
fn attack_orders_name_the_target() {
    let mut regs = vec![reg(0, KIND_LIGHT, (0, 0), 10), reg(1, KIND_LIGHT, (0, 0), 10)];
    regs[0].auto_order = true;
    attack_regiments(&mut regs, &vec![0], 1, &vec![false, false]);
    assert!(is_attack_on(&regs[0], 1));
    assert!(!regs[0].auto_order);
    assert!(regs[1].order.is_none());
}

#[test]
fn halt_anchors_at_centroid() {
    let mut regs = vec![reg(0, KIND_LIGHT, (0, 0), 10), reg(0, KIND_LIGHT, (0, 0), 10)];
    regs[0].order = Some(Order::Move((9, 9)));
    regs[0].centroid = (4, 5);
    regs[1].order = Some(Order::Move((9, 9)));
    let sel = Selection { regiments: vec![true, false], count_units: 10 };
    assert_eq!(halt_selected(&sel, &mut regs), 1);
    assert!(regs[0].order.is_none());
    assert_eq!(regs[0].anchor, (4, 5));
    assert!(is_move_to(&regs[1], (9, 9)));
    let none = Selection { regiments: vec![true, true], count_units: 0 };
    assert_eq!(halt_selected(&none, &mut regs), 0);
}

#[test]
fn arrival_and_wiped_targets_clear_orders() {
    let mut regs = vec![
        reg(0, KIND_LIGHT, (0, 0), 10),
        reg(0, KIND_LIGHT, (0, 0), 10),
        reg(1, KIND_LIGHT, (0, 0), 0),
        reg(0, KIND_LIGHT, (0, 0), 10),
        reg(1, KIND_LIGHT, (0, 0), 10),
    ];
    regs[0].order = Some(Order::Move((5, 5)));
    regs[1].order = Some(Order::Attack(2));
    regs[1].centroid = (7, 7);
    regs[3].order = Some(Order::Attack(4));
    regs[3].centroid = (6, 6);
    regs[4].state = RegState::Routing { since: 1 };
    clear_arrived_orders(&mut regs, &vec![true, false, false, false, false], &vec![false, false, false, true, false]);
    assert!(regs[0].order.is_none());
    assert_eq!(regs[0].anchor, (5, 5));
    assert!(regs[1].order.is_none());
    assert_eq!(regs[1].anchor, (7, 7));
    assert!(regs[3].order.is_none());
    assert_eq!(regs[3].anchor, (6, 6));
    assert!(regs[3].reform);
}

#[test]
fn engaged_regiment_keeps_its_move_order() {
    let mut regs = vec![reg(0, KIND_LIGHT, (0, 0), 10)];
    regs[0].order = Some(Order::Move((5, 5)));
    regs[0].engaged = true;
    clear_arrived_orders(&mut regs, &vec![true], &vec![false]);
    assert!(is_move_to(&regs[0], (5, 5)));
}

#[test]
fn line_order_places_each_regiment() {
    let mut regs = vec![reg(0, KIND_LIGHT, (0, 0), 10), reg(0, KIND_LIGHT, (0, 0), 10)];
    let layout = vec![LinePlacement { g: 1, anchor: (3, 0), files: 12 }, LinePlacement { g: 0, anchor: (-3, 0), files: 8 }];
    apply_line_order(&mut regs, &layout);
    assert!(is_move_to(&regs[0], (-3, 0)));
    assert_eq!(regs[0].files, 8);
    assert_eq!(regs[1].files, 12);
    assert_eq!(regs[1].shape, FormShape::Rect);
    assert!(regs[1].reform);
}

#[test]
fn victory_is_decided_once() {
    let mut regs = vec![reg(0, KIND_LIGHT, (0, 0), 10), reg(1, KIND_LIGHT, (0, 0), 10)];
    let mut outcome = BattleOutcome(None);
    check_victory(&regs, &mut outcome);
    assert_eq!(outcome, BattleOutcome(None));
    regs[1].state = RegState::Routing { since: 5 };
    assert!(!side_is_fighting(&regs, 1));
    check_victory(&regs, &mut outcome);
    assert_eq!(outcome, BattleOutcome(Some(0)));
    // Once decided it never changes.
    regs[0].count = 0;
    check_victory(&regs, &mut outcome);
    assert_eq!(outcome, BattleOutcome(Some(0)));
}

#[test]
fn defeat_and_draw() {
    let regs = vec![reg(0, KIND_LIGHT, (0, 0), 0), reg(1, KIND_LIGHT, (0, 0), 10)];
    let mut outcome = BattleOutcome(None);
    check_victory(&regs, &mut outcome);
    assert_eq!(outcome.0, Some(1));
    let regs = vec![reg(0, KIND_LIGHT, (0, 0), 0), reg(1, KIND_LIGHT, (0, 0), 0)];
    let mut outcome = BattleOutcome(None);
    check_victory(&regs, &mut outcome);
    assert_eq!(outcome.0, Some(2));
}

#[test]
fn at_ease_regiments_engage_and_drop_dead_targets() {
    let mut regs = vec![
        reg(0, KIND_LIGHT, (0, 0), 10),
        reg(1, KIND_LIGHT, (0, 0), 10),
        reg(0, KIND_LIGHT, (0, 0), 10),
        reg(1, KIND_LIGHT, (0, 0), 0),
        reg(0, KIND_LIGHT, (0, 0), 10),
    ];
    regs[2].order = Some(Order::Attack(3));
    regs[2].auto_order = true;
    regs[2].centroid = (2, 2);
    regs[4].hold = true;
    auto_engage(&mut regs, &vec![Some(1), None, None, None, Some(1)], &vec![false; 5]);
    assert!(is_attack_on(&regs[0], 1));
    assert!(regs[0].auto_order);
    assert!(regs[2].order.is_none());
    assert_eq!(regs[2].anchor, (2, 2));
    assert!(regs[4].order.is_none());
}

#[test]
fn ai_idles_and_targets() {
    let mut a = reg(1, KIND_LIGHT, (0, 0), 10);
    assert!(is_ai_idle(&a));
    a.engaged = true;
    assert!(!is_ai_idle(&a));
    let p = reg(0, KIND_LIGHT, (0, 0), 10);
    assert!(is_ai_target(&p));
    assert!(!is_ai_target(&a));
}

#[test]
fn prune_drops_dead_targets_and_counts_loads() {
    let mut regs = vec![reg(0, KIND_LIGHT, (0, 0), 10), reg(0, KIND_LIGHT, (0, 0), 0), reg(1, KIND_LIGHT, (0, 0), 10), reg(1, KIND_LIGHT, (0, 0), 10)];
    regs[0].count = 10;
    let mut targets = vec![None, None, Some(0), Some(1)];
    let load = prune_targets(&regs, &mut targets);
    assert_eq!(targets, vec![None, None, Some(0), None]);
    assert_eq!(load, vec![1, 0, 0, 0]);
}

#[test]
fn safe_run_examples() {
    // Three adjacent hostile sectors (a frontal contact) leave five.
    assert_eq!(safe_run(&[true, true, true, false, false, false, false, false]), 5);
    // The run wraps around the ring.
    assert_eq!(safe_run(&[false, true, false, false, true, false, false, false]), 4);
    assert_eq!(safe_run(&[true; 8]), 0);
    assert_eq!(safe_run(&[false; 8]), 8);
}

#[test]
fn a_break_needs_the_hold_and_shattered_is_final() {
    let mut r = reg(0, KIND_LIGHT, (0, 0), 10);
    r.order = Some(Order::Move((1, 1)));
    morale_step(&mut r, 7, true, true, true, false, false, false);
    assert_eq!(r.state, RegState::Steady);
    assert_eq!(r.break_ticks, 1);
    morale_step(&mut r, 8, true, true, true, true, false, false);
    assert_eq!(r.state, RegState::Routing { since: 8 });
    assert!(r.order.is_none());
    assert_eq!(r.break_ticks, 0);
    morale_step(&mut r, 9, false, false, false, false, true, true);
    assert_eq!(r.state, RegState::Shattered);
    morale_step(&mut r, 10, false, false, false, false, false, true);
    assert_eq!(r.state, RegState::Shattered);
}

#[test]
fn rally_reforms_where_it_stands() {
    let mut r = reg(0, KIND_LIGHT, (0, 0), 10);
    r.state = RegState::Routing { since: 2 };
    r.centroid = (3, 9);
    morale_step(&mut r, 11, false, false, false, false, false, true);
    assert_eq!(r.state, RegState::Steady);
    assert_eq!(r.anchor, (3, 9));
    assert!(r.reform);
}

#[test]
fn steady_recovery_resets_the_break_count() {
    let mut r = reg(0, KIND_LIGHT, (0, 0), 10);
    r.break_ticks = 4;
    morale_step(&mut r, 3, false, false, false, false, false, false);
    assert_eq!(r.break_ticks, 0);
}

#[test]
fn first_heavy_commands() {
    let mut regs = vec![reg(0, KIND_LIGHT, (0, 0), 10), reg(1, KIND_HEAVY, (0, 0), 10), reg(0, KIND_HEAVY, (0, 0), 10), reg(0, KIND_HEAVY, (0, 0), 10)];
    assign_leader(&mut regs, 0);
    assert!(!regs[0].leader);
    assert!(!regs[1].leader);
    assert!(regs[2].leader);
    assert!(!regs[3].leader);
    // Assigned once: a second call changes nothing.
    regs[2].count = 0;
    assign_leader(&mut regs, 0);
    assert!(regs[2].leader);
    assert!(!regs[3].leader);
}

#[test]
fn without_heavies_the_first_living_regiment_commands() {
    let mut regs = vec![reg(1, KIND_LIGHT, (0, 0), 0), reg(1, KIND_SPEAR, (0, 0), 10), reg(1, KIND_LIGHT, (0, 0), 10)];
    assign_leader(&mut regs, 1);
    assert!(!regs[0].leader);
    assert!(regs[1].leader);
}

#[test]
fn leadership_falls_once_and_remembers_when() {
    let mut regs = vec![reg(0, KIND_HEAVY, (0, 0), 10)];
    let mut lost = 0u32;
    assert_eq!(leadership(&regs, 0, 5, &mut lost), Leadership::Unled);
    regs[0].leader = true;
    assert_eq!(leadership(&regs, 0, 6, &mut lost), Leadership::Standing);
    regs[0].state = RegState::Routing { since: 6 };
    assert_eq!(leadership(&regs, 0, 7, &mut lost), Leadership::Fallen { since: 7 });
    assert_eq!(leadership(&regs, 0, 9, &mut lost), Leadership::Fallen { since: 7 });
    regs[0].state = RegState::Steady;
    assert_eq!(leadership(&regs, 0, 12, &mut lost), Leadership::Standing);
    assert_eq!(lost, 0);
}

#[test]
fn ai_commits_idle_regiments_to_living_targets() {
    let mut regs = vec![reg(1, KIND_LIGHT, (0, 0), 10), reg(0, KIND_LIGHT, (0, 0), 10), reg(0, KIND_LIGHT, (0, 0), 0)];
    let mut targets = vec![None, None, None];
    let mut load = vec![0u32, 2, 0];
    ai_commit(&mut regs, &mut targets, &mut load, 0, Some(1));
    assert!(is_attack_on(&regs[0], 1));
    assert_eq!(targets, vec![Some(1), None, None]);
    assert_eq!(load, vec![0, 3, 0]);
    // Busy now: a second choice changes nothing.
    ai_commit(&mut regs, &mut targets, &mut load, 0, Some(1));
    assert_eq!(load, vec![0, 3, 0]);
    // A dead target is no target.
    let mut regs = vec![reg(1, KIND_LIGHT, (0, 0), 10), reg(0, KIND_LIGHT, (0, 0), 0)];
    let mut targets = vec![None, None];
    let mut load = vec![0u32, 0];
    ai_commit(&mut regs, &mut targets, &mut load, 0, Some(1));
    assert!(regs[0].order.is_none());
    assert_eq!(targets, vec![None, None]);
}

#[test]
fn order_gesture_click_drag_and_release() {
    let mut d = drag_idle::<Pt>();
    // A press over the HUD starts nothing.
    drag_press(&mut d, true, Some((1, 1)));
    assert!(d.start.is_none());
    assert!(matches!(drag_release(&mut d, true, false, None), OrderAction::Nothing));
    // A click on open ground moves there.
    drag_press(&mut d, false, Some((4, 5)));
    drag_hold(&mut d, true, false);
    assert!(!d.active);
    assert!(matches!(drag_release(&mut d, true, false, None), OrderAction::Move((4, 5))));
    assert!(d.start.is_none());
    // A click on an enemy attacks it.
    drag_press(&mut d, false, Some((4, 5)));
    assert!(matches!(drag_release(&mut d, true, false, Some(3)), OrderAction::Attack(3)));
    // A long drag draws a line.
    drag_press(&mut d, false, Some((0, 0)));
    drag_hold(&mut d, true, true);
    assert!(d.active);
    drag_hold(&mut d, true, false);
    assert!(d.active);
    assert!(matches!(drag_release(&mut d, false, false, Some(3)), OrderAction::LineOrder));
    assert!(!d.active);
    // While deploying: lines are placed and clicks teleport.
    drag_press(&mut d, false, Some((0, 0)));
    drag_hold(&mut d, true, true);
    assert!(matches!(drag_release(&mut d, false, true, None), OrderAction::DeployLine));
    drag_press(&mut d, false, Some((2, 2)));
    assert!(matches!(drag_release(&mut d, true, true, Some(1)), OrderAction::DeployMove((2, 2))));
}

#[test]
fn lasso_hits_count_per_regiment() {
    let hits = count_hits(3, &vec![0, 0, 1, 2, 2, 2], &vec![true, false, true, true, true, false]);
    assert_eq!(hits, vec![1, 1, 2]);
    assert_eq!(count_hits(2, &vec![], &vec![]), vec![0, 0]);
}


#[test]
fn lasso_stroke_gesture() {
    let mut d: DragLine<Pt> = DragLine::new();
    d.press(true);
    assert!(!d.active);
    d.extend(Some((0, 0)), true);
    assert!(d.points.is_empty());
    assert!(!d.release());
    d.press(false);
    d.extend(Some((0, 0)), false);
    d.extend(Some((1, 0)), false);
    d.extend(None, true);
    d.extend(Some((5, 0)), true);
    assert_eq!(d.points, vec![(0, 0), (5, 0)]);
    assert!(d.release());
    assert!(!d.active);
    // A click without a ground point selects nothing.
    d.press(false);
    assert!(!d.release());
}

#[test]
fn morale_tick_clears_the_tallies_and_spares_the_dead() {
    let mut r = reg(0, KIND_LIGHT, (0, 0), 10);
    r.recent_deaths = 4;
    r.recent_kills = 2;
    morale_step(&mut r, 3, false, false, false, false, false, false);
    assert_eq!((r.recent_deaths, r.recent_kills), (0, 0));
    let mut dead = reg(0, KIND_LIGHT, (0, 0), 0);
    dead.recent_deaths = 1;
    morale_step(&mut dead, 3, true, true, true, true, false, false);
    assert_eq!(dead.state, RegState::Steady);
    assert_eq!(dead.recent_deaths, 0);
}

#[test]
fn steady_regiments_show_their_morale_band() {
    let mut r = reg(0, KIND_LIGHT, (0, 0), 10);
    assert_eq!(band(&r), Band::Steady);
    morale_step(&mut r, 1, true, false, false, false, false, false);
    assert!(r.shaken && !r.wavering);
    assert_eq!(band(&r), Band::Shaken);
    morale_step(&mut r, 2, true, true, false, false, false, false);
    assert_eq!(band(&r), Band::Wavering);
    morale_step(&mut r, 3, false, false, false, false, false, false);
    assert_eq!(band(&r), Band::Steady);
}

#[test]
fn a_broken_regiment_drops_its_morale_flags() {
    let mut r = reg(0, KIND_LIGHT, (0, 0), 10);
    // The break tick still reads the level: the flags stand.
    morale_step(&mut r, 4, true, true, true, true, false, false);
    assert_eq!(r.state, RegState::Routing { since: 4 });
    assert!(r.shaken && r.wavering);
    // Routing carries neither, whatever the level says.
    morale_step(&mut r, 5, true, true, true, true, false, false);
    assert!(!r.shaken && !r.wavering);
    // A regiment with no men left keeps what it had.
    let mut dead = reg(0, KIND_LIGHT, (0, 0), 0);
    dead.shaken = true;
    morale_step(&mut dead, 6, false, false, false, false, false, false);
    assert!(dead.shaken);
}
