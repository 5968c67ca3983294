use flanks::archery::{skirmish_all, skirmish_step, tally_ammo, Skirmish};
use flanks::buffers::{
    drain_chunk_spawns, drain_spawns, reset, settle_arrow, ArrowFate, ArrowSpawn, ArrowStats, Arrows, Corpses, Ring, StuckArrows, ARROW_CAP,
    CORPSE_CAP,
};
use flanks::combat::{process_deaths, CombatStats, Soldiers};
use flanks::fingerprint::{fnv1a, hash_due, hash_period, soldier_word, FNV_OFFSET};
use flanks::frontline::{
    case_edges, contour_case, contour_pieces, melee_step, refresh_contact, FightPoint, MeleeClock, MeleeSense, Piece, tally_regiments, CELEBRATE_TICKS, ENGAGE_HOLD_TICKS,
};
use flanks::regiment::{Order, RegState, GroupData, KIND_ARCHER, KIND_LIGHT};
use flanks::render::{bucket_of, RenderCounts};
use flanks::swing::{
    leaves_ranks, look_due, sight_after_look, strikes_in_melee, swing_step, Fighter, Phase, Swing, SwingEvent,
    SwingSense, SIGHT_GO, SIGHT_GO_FAR, SIGHT_LEFT, SIGHT_WAY,
};
use flanks::render::{count_kinds, pack_words};
use flanks::render::{stance_of, Stance};
use flanks::combat::credit_kill;
use flanks::render::{grow_alloc, bucket_bases, decode_readback, record_check, worst_mismatch, GpuCheck};
use flanks::swing::{choose_target, tick_timers, NO_SOLDIER};
use flanks::pipeline::{TickPipeline, TickSource};

type Pt = (i32, i32);

fn reg(team: u8, kind: u8, count: usize) -> GroupData<Pt> {
    GroupData::new(team, kind, (0, 0), count, 30)
}

#[test]
fn ring_fills_then_overwrites_oldest() {
    let mut r: Ring<u32> = Ring::new(3);
    assert_eq!(r.push(10), Some(0));
    assert_eq!(r.push(11), Some(1));
    assert_eq!(r.push(12), Some(2));
    assert_eq!(r.len(), 3);
    assert!(r.take_dirty());
    assert!(!r.take_dirty());
    // Full: the oldest slot is overwritten, then the next one.
    assert_eq!(r.push(13), Some(0));
    assert_eq!(r.push(14), Some(1));
    assert_eq!(r.as_slice(), &[13, 14, 12]);
    r.clear();
    assert_eq!(r.len(), 0);
    assert_eq!(r.push(20), Some(0));
}

#[test]
fn zero_capacity_ring_keeps_nothing() {
    let mut r: Ring<u8> = Ring::new(0);
    assert_eq!(r.push(1), None);
    assert_eq!(r.len(), 0);
    assert!(!r.take_dirty());
}

#[test]
fn corpses_are_tagged_with_their_gpu_slot() {
    let mut c: Corpses<u16> = Corpses::new();
    c.push(2, 7);
    c.push(2, 8);
    c.push(0, 9);
    assert_eq!(c.len(2), 2);
    assert_eq!(c.len(0), 1);
    assert_eq!(c.len(1), 0);
    assert_eq!(c.pending, vec![((2 * CORPSE_CAP) as u32, 7), ((2 * CORPSE_CAP + 1) as u32, 8), (0, 9)]);
    c.clear();
    assert_eq!(c.len(2), 0);
    assert!(c.pending.is_empty());
}

#[test]
fn arrows_spawn_move_and_retire() {
    let mut a: Arrows<i32> = Arrows::new();
    let spawns = vec![
        ArrowSpawn { pos: 1, vel: 10, team: 0, group: 3 },
        ArrowSpawn { pos: 2, vel: 20, team: 1, group: 4 },
        ArrowSpawn { pos: 3, vel: 30, team: 0, group: 5 },
    ];
    assert_eq!(a.take_spawns(&spawns), 3);
    assert_eq!(a.len(), 3);
    let r = a.get(1);
    assert_eq!((r.pos, r.pos_prev, r.vel, r.team, r.group), (2, 2, 20, 1, 4));
    a.set_motion(1, 5, 21);
    let r = a.get(1);
    assert_eq!((r.pos, r.pos_prev, r.vel), (5, 2, 21));
    // Swap-remove: the last arrow takes the removed one's row.
    a.swap_remove(0);
    assert_eq!(a.len(), 2);
    assert_eq!(a.get(0).group, 5);
    assert_eq!(a.get(1).group, 4);
    a.clear();
    assert_eq!(a.len(), 0);
}

#[test]
fn arrow_cap_limits_spawns() {
    let mut a: Arrows<u8> = Arrows::new();
    let many: Vec<ArrowSpawn<u8>> =
        (0..ARROW_CAP + 5).map(|i| ArrowSpawn { pos: 0, vel: 0, team: 0, group: i as u32 }).collect();
    assert_eq!(a.take_spawns(&many), ARROW_CAP);
    assert_eq!(a.len(), ARROW_CAP);
    assert_eq!(a.take_spawns(&many), 0);
}

#[test]
fn contour_cases_and_edges() {
    assert_eq!(contour_case(&[false; 4]), 0);
    assert_eq!(contour_case(&[true, false, true, false]), 5);
    assert_eq!(contour_case(&[true; 4]), 15);
    assert!(case_edges(0).is_empty());
    assert!(case_edges(15).is_empty());
    assert_eq!(case_edges(1), vec![(3, 0)]);
    assert_eq!(case_edges(6), vec![(0, 2)]);
    assert_eq!(case_edges(10), vec![(0, 1), (2, 3)]);
}

#[test]
fn engagement_holds_through_swing_gaps() {
    let mut regs = vec![reg(0, KIND_LIGHT, 10)];
    refresh_contact(&mut regs, &vec![9], &vec![true], &vec![true], &vec![false]);
    assert_eq!(regs[0].count, 9);
    assert!(regs[0].engaged);
    assert_eq!(regs[0].engage_hold, ENGAGE_HOLD_TICKS);
    // No one swings this tick: still engaged, the hold counts down.
    refresh_contact(&mut regs, &vec![9], &vec![false], &vec![true], &vec![false]);
    assert!(regs[0].engaged);
    assert_eq!(regs[0].engage_hold, ENGAGE_HOLD_TICKS - 1);
    regs[0].engage_hold = 1;
    refresh_contact(&mut regs, &vec![9], &vec![false], &vec![true], &vec![false]);
    assert!(!regs[0].engaged);
}

#[test]
fn cheer_starts_when_the_last_enemy_leaves() {
    let mut regs = vec![reg(0, KIND_LIGHT, 10)];
    regs[0].hostile_near = true;
    refresh_contact(&mut regs, &vec![10], &vec![false], &vec![false], &vec![false]);
    assert!(!regs[0].hostile_near);
    assert_eq!(regs[0].celebrate, CELEBRATE_TICKS - 1);
    refresh_contact(&mut regs, &vec![10], &vec![false], &vec![false], &vec![false]);
    assert_eq!(regs[0].celebrate, CELEBRATE_TICKS - 2);
}

#[test]
fn charge_phase_needs_a_living_target_in_range() {
    let mut regs = vec![reg(0, KIND_LIGHT, 10), reg(1, KIND_LIGHT, 10), reg(0, KIND_ARCHER, 10)];
    regs[0].order = Some(Order::Attack(1));
    regs[2].order = Some(Order::Attack(1));
    refresh_contact(&mut regs, &vec![10, 10, 10], &vec![false; 3], &vec![true; 3], &vec![true, false, true]);
    assert!(regs[0].charging);
    // Archers with arrows left shoot rather than charge.
    assert!(!regs[2].charging);
    refresh_contact(&mut regs, &vec![10, 0, 10], &vec![false; 3], &vec![true; 3], &vec![true, false, true]);
    assert!(!regs[0].charging);
    assert!(!regs[1].engaged);
    assert_eq!(regs[1].count, 0);
}

#[test]
fn regiment_tally() {
    let (counts, fighting) = tally_regiments(3, &vec![0, 2, 2, 0, 2], &vec![false, false, true, false, false]);
    assert_eq!(counts, vec![2, 0, 3]);
    assert_eq!(fighting, vec![false, false, true]);
}

#[test]
fn render_buckets_and_counts() {
    assert_eq!(bucket_of(0, 0), 0);
    assert_eq!(bucket_of(2, 3), 11);
    let mut living = [0u32; 16];
    let mut fallen = [0u32; 16];
    for b in 0..16 {
        living[b] = b as u32;
        fallen[b] = 1;
    }
    let mut rc = RenderCounts { drawn: 0, bucket_drawn: vec![], lod_drawn: [0; 4], corpses_drawn: 0 };
    rc.set_from_buckets(&living, &fallen);
    assert_eq!(rc.drawn, 120);
    assert_eq!(rc.corpses_drawn, 16);
    assert_eq!(rc.bucket_drawn, vec![6, 22, 38, 54]);
    assert_eq!(rc.lod_drawn, [24, 28, 32, 36]);
}

#[test]
fn deaths_are_swept_and_counted() {
    let mut units = Soldiers {
        data: vec![100u32, 101, 102, 103, 104],
        team: vec![0, 1, 0, 1, 1],
        living: vec![true, false, false, true, false],
        mask: vec![true, true, false, false, true],
    };
    let mut selected = 3usize;
    let mut stats = CombatStats { kills: [5, 0], alive: [0, 0] };
    process_deaths(&mut units, &mut selected, &mut stats);
    let mut left = units.data.clone();
    left.sort();
    assert_eq!(left, vec![100, 103]);
    assert!(units.living.iter().all(|&l| l));
    assert_eq!(stats.kills, [6, 2]);
    assert_eq!(stats.alive, [1, 1]);
    // Two selected soldiers died.
    assert_eq!(selected, 1);
    assert_eq!(units.mask.len(), 2);
    for i in 0..2 {
        assert_eq!(units.mask[i], units.data[i] == 100);
    }
}

#[test]
fn deaths_without_a_mask() {
    let mut units = Soldiers { data: vec![1u8, 2], team: vec![0, 0], living: vec![false, false], mask: vec![] };
    let mut selected = 7usize;
    let mut stats = CombatStats { kills: [0, 0], alive: [9, 9] };
    process_deaths(&mut units, &mut selected, &mut stats);
    assert!(units.data.is_empty());
    assert_eq!(selected, 0);
    assert_eq!(stats.kills, [2, 0]);
    assert_eq!(stats.alive, [0, 0]);
}

#[test]
fn ammo_pools_count_living_archers() {
    let mut regs = vec![reg(0, KIND_ARCHER, 3), reg(0, KIND_LIGHT, 3)];
    regs[0].ammo_left = 999;
    regs[1].ammo_left = 4;
    tally_ammo(
        &mut regs,
        &vec![KIND_ARCHER, KIND_ARCHER, KIND_ARCHER, KIND_LIGHT],
        &vec![0, 0, 0, 1],
        &vec![true, false, true, true],
        &vec![10, 20, 5, 7],
    );
    assert_eq!(regs[0].ammo_left, 15);
    assert_eq!(regs[1].ammo_left, 4);
}

#[test]
fn skirmishers_withdraw_and_stand_again() {
    let mut r = reg(0, KIND_ARCHER, 10);
    r.centroid = (4, 4);
    skirmish_step(&mut r, Skirmish::Closing((0, -30)));
    assert!(r.skirmishing);
    assert!(r.auto_order);
    assert!(matches!(r.order, Some(Order::Move((0, -30)))));
    skirmish_step(&mut r, Skirmish::Between);
    assert!(r.skirmishing);
    skirmish_step(&mut r, Skirmish::Reopened);
    assert!(!r.skirmishing);
    assert!(r.order.is_none());
    assert_eq!(r.anchor, (4, 4));
    assert!(r.reform);
}

#[test]
fn player_orders_beat_the_skirmish_rule() {
    let mut r = reg(0, KIND_ARCHER, 10);
    r.order = Some(Order::Move((7, 7)));
    skirmish_step(&mut r, Skirmish::Closing((0, -30)));
    assert!(matches!(r.order, Some(Order::Move((7, 7)))));
    assert!(!r.skirmishing);
    let mut broken = reg(0, KIND_ARCHER, 10);
    broken.state = RegState::Routing { since: 1 };
    skirmish_step(&mut broken, Skirmish::Closing((0, -30)));
    assert!(broken.order.is_none());
}

fn ready() -> Swing {
    Swing { phase: Phase::Ready, ranged: false, charge: false, style: 0, staggered: false, immune: false, timer: 0 }
}

fn sense() -> SwingSense {
    SwingSense {
        dying: false,
        routed: false,
        archer: false,
        chosen: None,
        aware: false,
        at_charge_speed: false,
        style: 1,
        can_shoot: false,
        volley_target: false,
        enemy_in_reach: false,
        windup_ticks: 2,
        cooldown_ticks: 6,
        blow_recovery: 5,
        draw_ticks: 3,
        reload_ticks: 200,
        cancel_ticks: 9,
    }
}

#[test]
fn a_blow_winds_up_lands_and_recovers() {
    let mut f = Fighter { swing: ready(), target: 0, ammo: 0 };
    let k = SwingSense { chosen: Some(42), aware: true, at_charge_speed: true, enemy_in_reach: true, ..sense() };
    assert_eq!(swing_step(&mut f, &k), SwingEvent::Quiet);
    assert_eq!(f.swing.phase, Phase::Windup);
    assert!(f.swing.charge);
    assert_eq!(f.swing.style, 1);
    assert_eq!(f.target, 42);
    assert_eq!(f.swing.timer, 2);
    assert_eq!(swing_step(&mut f, &k), SwingEvent::Quiet);
    assert_eq!(swing_step(&mut f, &k), SwingEvent::Quiet);
    assert_eq!(f.swing.timer, 0);
    assert_eq!(swing_step(&mut f, &k), SwingEvent::Strike { victim: 42, charge: true });
    assert_eq!(f.swing.phase, Phase::Recover);
    assert_eq!(f.swing.timer, 5);
    assert!(!f.swing.charge);
}

#[test]
fn no_blow_without_seeing_the_enemy_or_when_routed() {
    let mut f = Fighter { swing: ready(), target: 0, ammo: 0 };
    let unaware = SwingSense { chosen: Some(1), aware: false, ..sense() };
    assert_eq!(swing_step(&mut f, &unaware), SwingEvent::Quiet);
    assert_eq!(f.swing.phase, Phase::Ready);
    let routed = SwingSense { chosen: Some(1), aware: true, routed: true, ..sense() };
    assert_eq!(swing_step(&mut f, &routed), SwingEvent::Quiet);
    assert_eq!(f.swing.phase, Phase::Ready);
    let dying = SwingSense { chosen: Some(1), aware: true, dying: true, ..sense() };
    assert_eq!(swing_step(&mut f, &dying), SwingEvent::Quiet);
    assert_eq!(f.swing, ready());
}

#[test]
fn archers_draw_loose_and_reload() {
    let mut f = Fighter { swing: ready(), target: 0, ammo: 2 };
    let k = SwingSense { archer: true, can_shoot: true, volley_target: true, ..sense() };
    swing_step(&mut f, &k);
    assert_eq!(f.swing.phase, Phase::Windup);
    assert!(f.swing.ranged);
    assert_eq!(f.swing.timer, 3);
    for _ in 0..3 {
        assert_eq!(swing_step(&mut f, &k), SwingEvent::Quiet);
    }
    assert_eq!(swing_step(&mut f, &k), SwingEvent::Loose);
    assert_eq!(f.ammo, 1);
    assert_eq!(f.swing.phase, Phase::Recover);
    assert_eq!(f.swing.timer, 200);
    // Contacted in melee, a reloading archer drops to knife tempo.
    let contact = SwingSense { enemy_in_reach: true, ..k };
    swing_step(&mut f, &contact);
    assert_eq!(f.swing.timer, 6);
}

#[test]
fn an_empty_quiver_never_draws_and_a_lost_target_cancels() {
    let mut f = Fighter { swing: ready(), target: 0, ammo: 0 };
    let k = SwingSense { archer: true, can_shoot: true, volley_target: true, ..sense() };
    swing_step(&mut f, &k);
    assert_eq!(f.swing.phase, Phase::Ready);
    let mut g = Fighter { swing: Swing { phase: Phase::Windup, ranged: true, timer: 2, ..ready() }, target: 0, ammo: 4 };
    let gone = SwingSense { archer: true, volley_target: false, ..sense() };
    assert_eq!(swing_step(&mut g, &gone), SwingEvent::Quiet);
    assert_eq!(g.swing.phase, Phase::Recover);
    assert_eq!(g.swing.timer, 9);
    assert_eq!(g.ammo, 4);
}

#[test]
fn a_worn_off_stagger_leaves_a_free_pass() {
    let mut f = Fighter {
        swing: Swing { phase: Phase::Recover, staggered: true, timer: 0, ..ready() },
        target: 0,
        ammo: 0,
    };
    swing_step(&mut f, &sense());
    assert_eq!(f.swing.phase, Phase::Ready);
    assert!(f.swing.immune);
    assert!(!f.swing.staggered);
}

#[test]
fn melee_fighters_and_ranks() {
    let windup = Swing { phase: Phase::Windup, ..ready() };
    let draw = Swing { phase: Phase::Windup, ranged: true, ..ready() };
    assert!(strikes_in_melee(0, &windup));
    assert!(!strikes_in_melee(3, &windup));
    assert!(!strikes_in_melee(0, &draw));
    // Mid-blow in a fighting regiment: out of the ranks.
    assert!(leaves_ranks(true, false, false, false, &windup, false, 0, false, false));
    // Nothing pulls him out yet.
    assert!(!leaves_ranks(true, false, false, false, &ready(), false, 0, true, false));
    // A comrade seen going, on a lucky roll.
    assert!(leaves_ranks(true, false, false, false, &ready(), false, SIGHT_GO_FAR, true, false));
    assert!(!leaves_ranks(true, false, false, false, &ready(), false, SIGHT_GO, false, false));
    // Patience runs out.
    assert!(leaves_ranks(true, false, false, false, &ready(), false, 0, false, true));
    // Once out he stays out, until the melee ends.
    assert!(leaves_ranks(true, false, false, true, &ready(), false, 0, false, false));
    assert!(!leaves_ranks(false, false, false, true, &windup, true, 0, true, true));
    assert!(!leaves_ranks(true, true, false, true, &windup, true, 0, true, true));
}

#[test]
fn sight_bits_and_looks() {
    let s = sight_after_look(SIGHT_GO_FAR | SIGHT_LEFT, true, false, false, false, false, false);
    assert_eq!(s, SIGHT_GO_FAR | SIGHT_WAY);
    let s = sight_after_look(SIGHT_WAY, false, true, false, false, false, true);
    assert_eq!(s, SIGHT_LEFT | SIGHT_GO);
    assert!(look_due(3, 5));
    assert!(!look_due(3, 6));
    assert!(look_due(u32::MAX, 1));
}

#[test]
fn fingerprint_is_fnv1a() {
    assert_eq!(fnv1a(&[]), FNV_OFFSET);
    // FNV-1a over the single word 0: the offset basis times the prime.
    assert_eq!(fnv1a(&[0]), 0xcbf2_9ce4_8422_2325u64.wrapping_mul(0x0000_0100_0000_01b3));
    let mut h = 0xcbf2_9ce4_8422_2325u64;
    for w in [7u32, 0xdead_beef, 1] {
        h ^= w as u64;
        h = h.wrapping_mul(0x0000_0100_0000_01b3);
    }
    assert_eq!(fnv1a(&[7, 0xdead_beef, 1]), h);
    assert_eq!(soldier_word(1, 2, 3, 4), u32::from_le_bytes([1, 2, 3, 4]));
    assert_eq!(hash_period(0), 150);
    assert_eq!(hash_period(1), 150);
    assert_eq!(hash_period(30), 30);
    assert!(hash_due(300, 150));
    assert!(!hash_due(301, 150));
}

#[test]
fn gpu_words_and_kind_counts() {
    assert_eq!(pack_words(3, 0x12, 0x34, 0x56, 7, 9), (u32::from_le_bytes([3, 0x12, 0x34, 0x56]), 7 | (9 << 24)));
    // The regiment index keeps its low 24 bits.
    assert_eq!(pack_words(0, 0, 0, 0, 0x0123_4567, 0).1, 0x0023_4567);
    assert_eq!(count_kinds(&vec![0, 3, 3, 1, 3]), [1, 1, 0, 3]);
}

#[test]
fn stance_tiers() {
    let mut r = reg(0, KIND_LIGHT, 10);
    assert_eq!(stance_of(&r, false), Stance::Lowered);
    assert_eq!(stance_of(&r, true), Stance::Brace);
    r.order = Some(Order::Attack(2));
    assert_eq!(stance_of(&r, true), Stance::Confident);
    r.shaken = true;
    assert_eq!(stance_of(&r, true), Stance::Wavering);
    r.shaken = false;
    r.wavering = true;
    assert_eq!(stance_of(&r, true), Stance::Wavering);
    r.charging = true;
    assert_eq!(stance_of(&r, false), Stance::Charge);
}

#[test]
fn kills_are_credited_except_friendly_fire() {
    let mut regs = vec![reg(0, KIND_LIGHT, 10), reg(1, KIND_ARCHER, 10), reg(1, KIND_LIGHT, 10)];
    let mut kills = [0u64, 0];
    credit_kill(&mut regs, &mut kills, 0, 0, 1, 1);
    assert_eq!(kills, [1, 0]);
    assert_eq!(regs[0].recent_deaths, 1);
    assert_eq!(regs[1].recent_kills, 1);
    // An arrow into one's own side: a death, but no kill credit.
    credit_kill(&mut regs, &mut kills, 1, 2, 1, 1);
    assert_eq!(kills, [1, 1]);
    assert_eq!(regs[2].recent_deaths, 1);
    assert_eq!(regs[1].recent_kills, 1);
}


#[test]
fn readback_decodes_little_endian_counts() {
    let mut bytes = vec![0u8; 36 * 4];
    // Bucket 2: 300 in total, 44 fallen. Bucket 5: fewer in total than
    // fallen, which reads as none living. Frame 77.
    bytes[2 * 4..2 * 4 + 4].copy_from_slice(&300u32.to_le_bytes());
    bytes[(16 + 2) * 4..(16 + 2) * 4 + 4].copy_from_slice(&44u32.to_le_bytes());
    bytes[5 * 4..5 * 4 + 4].copy_from_slice(&3u32.to_le_bytes());
    bytes[(16 + 5) * 4..(16 + 5) * 4 + 4].copy_from_slice(&9u32.to_le_bytes());
    bytes[32 * 4..32 * 4 + 4].copy_from_slice(&77u32.to_le_bytes());
    let rb = decode_readback(&bytes).unwrap();
    assert_eq!(rb.living[2], 256);
    assert_eq!(rb.fallen[2], 44);
    assert_eq!(rb.living[5], 0);
    assert_eq!(rb.fallen[5], 9);
    assert_eq!(rb.frame, 77);
    assert!(decode_readback(&vec![0u8; 35 * 4 + 3]).is_none());
}

#[test]
fn gpu_check_reports_the_first_mismatches() {
    let mut a = [0u32; 16];
    let b = [0u32; 16];
    a[3] = 10;
    let mut f = [0u32; 16];
    f[7] = 2;
    assert_eq!(worst_mismatch(&a, &f, &b, &b), 10);
    assert_eq!(worst_mismatch(&b, &b, &b, &b), 0);
    let mut c = GpuCheck { compared: 298, mismatched: 0, worst: 0, detailed: 4 };
    assert_eq!(record_check(&mut c, 3), (true, false));
    assert_eq!(record_check(&mut c, 2), (false, true));
    assert_eq!(c, GpuCheck { compared: 300, mismatched: 2, worst: 3, detailed: 5 });
    assert_eq!(record_check(&mut c, 0), (false, false));
    assert_eq!(c.mismatched, 2);
}

#[test]
fn soldier_timers_and_target_choice() {
    assert_eq!(tick_timers(4, 0), (3, 0));
    assert_eq!(tick_timers(0, 30), (0, 29));
    assert_eq!(tick_timers(0, 1), (0, 1));
    assert_eq!(choose_target(true, 5, 9), Some(5));
    assert_eq!(choose_target(false, 5, 9), Some(9));
    assert_eq!(choose_target(false, 5, NO_SOLDIER), None);
}


#[test]
fn arrow_tick_counts_looses_hits_and_landings() {
    let mut a: Arrows<i32> = Arrows::new();
    let mut stats = ArrowStats { loosed: 9, landed: 9, hits: 9, dropped: 1 };
    let spawns: Vec<ArrowSpawn<i32>> =
        (0..3).map(|g| ArrowSpawn { pos: g, vel: 0, team: 0, group: g as u32 }).collect();
    drain_spawns(&mut a, &spawns, &mut stats);
    assert_eq!(stats, ArrowStats { loosed: 3, landed: 0, hits: 0, dropped: 1 });
    assert!(!settle_arrow(&mut a, 0, ArrowFate::Flying, &mut stats));
    assert_eq!(a.len(), 3);
    assert!(settle_arrow(&mut a, 0, ArrowFate::Body, &mut stats));
    assert_eq!(a.len(), 2);
    assert_eq!(a.get(0).group, 2);
    assert!(settle_arrow(&mut a, 1, ArrowFate::Ground, &mut stats));
    assert_eq!(stats, ArrowStats { loosed: 3, landed: 2, hits: 1, dropped: 1 });
    let mut litter: StuckArrows<u8> = Ring::new(2);
    assert_eq!(litter.push(1), Some(0));
}


#[test]
fn gpu_bucket_layout() {
    let (bases, total) = bucket_bases(&[10, 20, 30, 40]);
    assert_eq!(bases[0], 0);
    assert_eq!(bases[1], 25_010);
    assert_eq!(bases[4], 4 * 25_010);
    assert_eq!(bases[5], 4 * 25_010 + 25_020);
    assert_eq!(total, 4 * (25_010 + 25_020 + 25_030 + 25_040));
}

#[test]
fn battle_reset_clears_arrows() {
    let mut a: Arrows<i32> = Arrows::new();
    a.take_spawns(&vec![ArrowSpawn { pos: 1, vel: 1, team: 0, group: 0 }]);
    let mut spawns = vec![vec![ArrowSpawn { pos: 1, vel: 1, team: 0, group: 0 }], vec![]];
    let mut stuck: StuckArrows<u8> = Ring::new(4);
    stuck.push(3);
    assert!(stuck.take_dirty());
    reset(&mut a, &mut spawns, &mut stuck);
    assert_eq!(a.len(), 0);
    assert_eq!(spawns.len(), 2);
    assert!(spawns.iter().all(|b| b.is_empty()));
    assert_eq!(stuck.len(), 0);
    // The litter was cleared: the renderer must redraw it.
    assert!(stuck.take_dirty());
}

#[test]
fn a_stale_mask_is_dropped_by_the_death_sweep() {
    // Three soldiers, a mask left over from a larger army.
    let mut units = Soldiers { data: vec![1u8, 2, 3], team: vec![0, 1, 0], living: vec![true, false, true], mask: vec![true; 5] };
    let mut selected = 5usize;
    let mut stats = CombatStats { kills: [0, 0], alive: [0, 0] };
    process_deaths(&mut units, &mut selected, &mut stats);
    assert!(units.mask.is_empty());
    assert_eq!(selected, 0);
    assert_eq!(stats.kills, [0, 1]);
    assert_eq!(stats.alive, [2, 0]);
}


#[test]
fn front_contour_over_a_grid() {
    // A 3 by 2 grid of corners: blue holds the left column.
    let pos = vec![true, false, false, true, false, false];
    let pieces = contour_pieces(3, 2, &vec![true; 6], &pos);
    assert_eq!(pieces, vec![Piece { x: 0, z: 0, e0: 2, e1: 0 }]);
    // Only contact cells draw: the left cell has no contact corner here.
    let contact = vec![false, false, true, false, false, true];
    assert!(contour_pieces(3, 2, &contact, &pos).is_empty());
    // A saddle cell draws two segments.
    let saddle = vec![false, true, true, false];
    assert_eq!(
        contour_pieces(2, 2, &vec![true; 4], &saddle),
        vec![Piece { x: 0, z: 0, e0: 0, e1: 1 }, Piece { x: 0, z: 0, e0: 2, e1: 3 }]
    );
    assert!(contour_pieces(1, 5, &vec![true; 5], &vec![true; 5]).is_empty());
}

#[test]
fn tick_pipeline_keeps_one_job_in_flight() {
    let mut p = TickPipeline::new();
    assert_eq!(p.take(None, 1, true), TickSource::Inline);
    assert!(!p.advance());
    assert!(p.kick(true, true, true));
    assert!(!p.kick(true, true, true));
    assert_eq!(p.take(Some(1), 1, true), TickSource::Job);
    assert!(p.kick(true, true, true));
    // A job from an older battle is not installed.
    assert_eq!(p.take(Some(0), 1, true), TickSource::Inline);
    assert!(!p.in_flight);
    assert!(!p.kick(false, true, true));
    assert_eq!(p.take(None, 1, false), TickSource::Idle);
    p.tick = 59;
    assert!(p.advance());
    p.tick = u32::MAX;
    p.advance();
    assert_eq!(p.tick, 0);
}


#[test]
fn skirmish_rule_over_the_army() {
    let mut regs = vec![reg(0, KIND_ARCHER, 10), reg(0, KIND_LIGHT, 10), reg(1, KIND_ARCHER, 10)];
    skirmish_all(&mut regs, &vec![Skirmish::Closing((1, 1)), Skirmish::Closing((2, 2)), Skirmish::NoEnemy]);
    assert!(matches!(regs[0].order, Some(Order::Move((1, 1)))));
    assert!(regs[1].order.is_none());
    assert!(regs[2].order.is_none());
}


fn quiet() -> MeleeSense {
    MeleeSense {
        engaged: true,
        broken: false,
        rect: true,
        hold: false,
        attack_order: true,
        target_live: true,
        enough_fighting: false,
        was_charging: false,
        charging: false,
        new_crash_cap: 40,
        slowed: false,
    }
}

#[test]
fn a_charge_crashes_then_the_melee_starts() {
    let mut c = MeleeClock { melee_ticks: 0, contact: false, crashing: false, crash_ticks: 0, crash_cap: 0 };
    // The charge ends in contact: the crash begins.
    let out = melee_step(&mut c, &MeleeSense { was_charging: true, ..quiet() });
    assert!(c.crashing);
    assert_eq!((c.crash_ticks, c.crash_cap), (0, 40));
    assert_eq!(out.fight_point, FightPoint::Nowhere);
    // While crashing, the melee waits even with enough men fighting.
    let out = melee_step(&mut c, &MeleeSense { enough_fighting: true, ..quiet() });
    assert_eq!(c.melee_ticks, 0);
    assert!(!out.frame_taken);
    assert_eq!(c.crash_ticks, 1);
    // Stopped by the enemy after more than 15 ticks: the crash ends.
    c.crash_ticks = 15;
    melee_step(&mut c, &MeleeSense { slowed: true, ..quiet() });
    assert!(!c.crashing);
    // Now the melee runs and the contact frame is taken.
    let out = melee_step(&mut c, &MeleeSense { enough_fighting: true, ..quiet() });
    assert_eq!(c.melee_ticks, 1);
    assert!(c.contact);
    assert!(out.frame_taken);
    assert_eq!(out.fight_point, FightPoint::Target);
    let out = melee_step(&mut c, &quiet());
    assert_eq!(c.melee_ticks, 2);
    assert!(!out.frame_taken);
    assert!(c.contact);
}

#[test]
fn a_melee_that_ends_reforms_a_defender() {
    let mut c = MeleeClock { melee_ticks: 30, contact: false, crashing: false, crash_ticks: 0, crash_cap: 0 };
    let out = melee_step(&mut c, &MeleeSense { attack_order: false, target_live: false, ..quiet() });
    assert_eq!(out.fight_point, FightPoint::NearestFormed);
    let out = melee_step(&mut c, &MeleeSense { engaged: false, attack_order: false, target_live: false, ..quiet() });
    assert_eq!(c.melee_ticks, 0);
    assert!(out.reform_here);
    // A held regiment fights where it stands: no fight point.
    let mut h = MeleeClock { melee_ticks: 3, contact: false, crashing: false, crash_ticks: 0, crash_cap: 0 };
    assert_eq!(melee_step(&mut h, &MeleeSense { hold: true, ..quiet() }).fight_point, FightPoint::Nowhere);
    // A crash that runs past its cap ends.
    let mut k = MeleeClock { melee_ticks: 0, contact: false, crashing: true, crash_ticks: 40, crash_cap: 40 };
    melee_step(&mut k, &quiet());
    assert!(!k.crashing);
}


#[test]
fn corpse_ring_cursor_advances_once_full() {
    let mut c: Corpses<u32> = Corpses::new();
    for i in 0..CORPSE_CAP as u32 {
        c.push(1, i);
    }
    c.pending.clear();
    c.push(1, 100);
    c.push(1, 101);
    assert_eq!(c.len(1), CORPSE_CAP);
    assert_eq!(c.pending, vec![(CORPSE_CAP as u32, 100), (CORPSE_CAP as u32 + 1, 101)]);
}

#[test]
fn chunk_loose_buffers_are_drained_empty() {
    let mut a: Arrows<i32> = Arrows::new();
    let mut stats = ArrowStats { loosed: 0, landed: 5, hits: 5, dropped: 0 };
    let mut spawns = vec![
        vec![ArrowSpawn { pos: 1, vel: 0, team: 0, group: 1 }],
        vec![],
        vec![ArrowSpawn { pos: 2, vel: 0, team: 1, group: 2 }, ArrowSpawn { pos: 3, vel: 0, team: 1, group: 3 }],
    ];
    drain_chunk_spawns(&mut a, &mut spawns, &mut stats);
    assert_eq!(stats, ArrowStats { loosed: 3, landed: 0, hits: 0, dropped: 0 });
    assert!(spawns.iter().all(|b| b.is_empty()));
    assert_eq!(spawns.len(), 3);
    assert_eq!((a.get(0).group, a.get(1).group, a.get(2).group), (1, 2, 3));
    // Past the cap the rest are dropped.
    let mut full: Arrows<u8> = Arrows::new();
    let many: Vec<ArrowSpawn<u8>> =
        (0..ARROW_CAP - 1).map(|i| ArrowSpawn { pos: 0, vel: 0, team: 0, group: i as u32 }).collect();
    full.take_spawns(&many);
    let mut more = vec![
        vec![ArrowSpawn { pos: 0, vel: 0, team: 0, group: 7 }, ArrowSpawn { pos: 0, vel: 0, team: 0, group: 8 }],
        vec![ArrowSpawn { pos: 0, vel: 0, team: 0, group: 9 }],
    ];
    let mut st = ArrowStats { loosed: 0, landed: 0, hits: 0, dropped: 4 };
    drain_chunk_spawns(&mut full, &mut more, &mut st);
    assert_eq!((st.loosed, st.dropped), (1, 6));
    assert_eq!(full.len(), ARROW_CAP);
    assert_eq!(full.get(ARROW_CAP - 1).group, 7);
    assert!(more.iter().all(|b| b.is_empty()));
}

#[test]
fn gpu_buffers_grow_when_short() {
    assert_eq!(grow_alloc(None, 100, &[10, 0, 300, 0]), Some((1024, [256, 256, 300, 256])));
    assert_eq!(grow_alloc(Some((2000, [500, 500, 500, 500])), 1500, &[400, 0, 0, 0]), None);
    assert_eq!(grow_alloc(Some((1024, [500, 500, 500, 500])), 4000, &[400, 0, 0, 0]), Some((5000, [500, 500, 500, 500])));
    assert_eq!(grow_alloc(Some((5000, [500, 500, 500, 500])), 100, &[0, 900, 0, 0]), Some((1024, [500, 900, 500, 500])));
}

#[test]
fn gpu_words_decode_to_their_fields() {
    let (a, b) = pack_words(2, 1, 200, 9, 0x00ab_cdef, 77);
    assert_eq!((a & 0xff, (a >> 8) & 0xff, (a >> 16) & 0xff, a >> 24), (2, 1, 200, 9));
    assert_eq!((b & 0x00ff_ffff, b >> 24), (0x00ab_cdef, 77));
}
