//! The soldier's swing cycle, one fixed tick at a time: ready, wind-up (a
//! blow or a bow draw), recovery. A blow lands when a melee wind-up runs
//! out, an arrow leaves when a draw runs out, and a stagger that wears off
//! leaves one free pass against the next. Also the rule by which a man of
//! a fighting regiment leaves his ranks, and his packed sight bits.
//!
//! Everything that rests on a distance, an angle or a random roll reaches
//! this module as a plain `bool` or as a tick count already rolled.
use vstd::prelude::*;

verus! {

/// Where a soldier is in his swing cycle.
#[derive(Clone, Copy, PartialEq, Eq, Structural, Debug)]
pub enum Phase {
    Ready,
    Windup,
    Recover,
}

/// A soldier's swing state: the phase, its flags and the ticks left in it.
#[derive(Clone, Copy, PartialEq, Eq, Structural, Debug)]
pub struct Swing {
    pub phase: Phase,
    /// The wind-up is a bow draw.
    pub ranged: bool,
    /// The wind-up began at charge speed (a charging blow).
    pub charge: bool,
    /// Attack style for the render (0 stab, 1 swing).
    pub style: u8,
    /// Set by the damage pass while he reels from a hit.
    pub staggered: bool,
    /// One free pass against the next stagger.
    pub immune: bool,
    /// Ticks left in the phase.
    pub timer: u8,
}

/// A soldier's columns that the swing cycle reads and writes.
#[derive(Clone, Copy, PartialEq, Eq, Structural, Debug)]
pub struct Fighter {
    pub swing: Swing,
    /// His locked target (soldier index).
    pub target: u32,
    /// Arrows left in his quiver.
    pub ammo: u8,
}

/// What the tick's scans and rolls tell the swing cycle.
#[derive(Clone, Copy)]
pub struct SwingSense {
    /// He is dying (death animation playing).
    pub dying: bool,
    /// His regiment is broken.
    pub routed: bool,
    /// He is an archer.
    pub archer: bool,
    /// The enemy he would open on: his previous target while it stays in
    /// reach, else the nearest enemy in reach.
    pub chosen: Option<u32>,
    /// That enemy stands in his forward half-plane.
    pub aware: bool,
    /// He moves faster than the charge fraction of his speed.
    pub at_charge_speed: bool,
    /// Attack style rolled for a new blow.
    pub style: u8,
    /// Standing still with his regiment's volley target in bow range.
    pub can_shoot: bool,
    /// His regiment still has a volley target.
    pub volley_target: bool,
    /// Some enemy stands in his reach this tick.
    pub enemy_in_reach: bool,
    /// His kind's wind-up ticks for a blow.
    pub windup_ticks: u8,
    /// His kind's recovery ticks after a blow.
    pub cooldown_ticks: u8,
    /// Recovery ticks after this blow (the cooldown with its jitter).
    pub blow_recovery: u8,
    /// Ticks of a bow draw (with its jitter).
    pub draw_ticks: u8,
    /// Ticks of a reload after an arrow (with its jitter).
    pub reload_ticks: u8,
    /// Ticks to ease off a draw whose target is gone.
    pub cancel_ticks: u8,
}

/// What a tick of the swing cycle sends out.
#[derive(Clone, Copy, PartialEq, Eq, Structural, Debug)]
pub enum SwingEvent {
    Quiet,
    /// A blow lands on this soldier (validity is judged by the damage pass).
    Strike { victim: u32, charge: bool },
    /// An arrow leaves the bow.
    Loose,
}

/// The recovery phase with every flag cleared.
pub open spec fn recovering(timer: u8) -> Swing {
    Swing { phase: Phase::Recover, ranged: false, charge: false, style: 0, staggered: false, immune: false, timer }
}

/// The swing cycle before the archer's reload cut.
pub open spec fn swing_core(f: Fighter, k: SwingSense) -> (Fighter, SwingEvent) {
    let s = f.swing;
    match s.phase {
        Phase::Windup => if s.ranged {
            if !k.volley_target {
                (Fighter { swing: recovering(k.cancel_ticks), ..f }, SwingEvent::Quiet)
            } else if s.timer == 0 {
                (
                    Fighter {
                        swing: recovering(k.reload_ticks),
                        ammo: if f.ammo == 0 { 0 } else { (f.ammo - 1) as u8 },
                        ..f
                    },
                    SwingEvent::Loose,
                )
            } else {
                (Fighter { swing: Swing { timer: (s.timer - 1) as u8, ..s }, ..f }, SwingEvent::Quiet)
            }
        } else {
            if s.timer == 0 {
                (
                    Fighter { swing: recovering(k.blow_recovery), ..f },
                    SwingEvent::Strike { victim: f.target, charge: s.charge },
                )
            } else {
                (Fighter { swing: Swing { timer: (s.timer - 1) as u8, ..s }, ..f }, SwingEvent::Quiet)
            }
        },
        Phase::Recover => if s.timer == 0 {
            (
                Fighter {
                    swing: Swing {
                        phase: Phase::Ready,
                        ranged: false,
                        charge: false,
                        style: 0,
                        staggered: false,
                        immune: s.staggered || s.immune,
                        timer: 0,
                    },
                    ..f
                },
                SwingEvent::Quiet,
            )
        } else {
            (Fighter { swing: Swing { timer: (s.timer - 1) as u8, ..s }, ..f }, SwingEvent::Quiet)
        },
        Phase::Ready => if k.chosen is Some && !k.routed && k.aware {
            (
                Fighter {
                    swing: Swing {
                        phase: Phase::Windup,
                        ranged: false,
                        charge: k.at_charge_speed,
                        style: k.style,
                        staggered: false,
                        immune: false,
                        timer: k.windup_ticks,
                    },
                    target: k.chosen->0,
                    ..f
                },
                SwingEvent::Quiet,
            )
        } else if k.archer && !k.routed && f.ammo > 0 && k.can_shoot {
            (
                Fighter {
                    swing: Swing {
                        phase: Phase::Windup,
                        ranged: true,
                        charge: false,
                        style: 0,
                        staggered: false,
                        immune: false,
                        timer: k.draw_ticks,
                    },
                    ..f
                },
                SwingEvent::Quiet,
            )
        } else {
            (f, SwingEvent::Quiet)
        },
    }
}

/// One tick of the swing cycle. A dying man's swing stands still. A
/// reloading archer with an enemy in reach drops the reload to knife tempo.
pub open spec fn swing_next(f: Fighter, k: SwingSense) -> (Fighter, SwingEvent) {
    if k.dying {
        (f, SwingEvent::Quiet)
    } else {
        let (g, ev) = swing_core(f, k);
        if k.archer && k.enemy_in_reach && g.swing.phase == Phase::Recover && g.swing.timer > k.cooldown_ticks {
            (Fighter { swing: Swing { timer: k.cooldown_ticks, ..g.swing }, ..g }, ev)
        } else {
            (g, ev)
        }
    }
}

fn recovering_now(timer: u8) -> (s: Swing)
    ensures
        s == recovering(timer),
{
    Swing { phase: Phase::Recover, ranged: false, charge: false, style: 0, staggered: false, immune: false, timer }
}

/// Advance a soldier's swing cycle by one tick; returns what it sends out.
pub fn swing_step(f: &mut Fighter, k: &SwingSense) -> (ev: SwingEvent)
    ensures
        (*final(f), ev) == swing_next(*old(f), *k),
{
    if k.dying {
        return SwingEvent::Quiet;
    }
    let s = f.swing;
    let mut ev = SwingEvent::Quiet;
    match s.phase {
        Phase::Windup => {
            if s.ranged {
                if !k.volley_target {
                    f.swing = recovering_now(k.cancel_ticks);
                } else if s.timer == 0 {
                    f.ammo = if f.ammo == 0 { 0 } else { f.ammo - 1 };
                    f.swing = recovering_now(k.reload_ticks);
                    ev = SwingEvent::Loose;
                } else {
                    f.swing.timer = s.timer - 1;
                }
            } else if s.timer == 0 {
                ev = SwingEvent::Strike { victim: f.target, charge: s.charge };
                f.swing = recovering_now(k.blow_recovery);
            } else {
                f.swing.timer = s.timer - 1;
            }
        },
        Phase::Recover => {
            if s.timer == 0 {
                f.swing = Swing {
                    phase: Phase::Ready,
                    ranged: false,
                    charge: false,
                    style: 0,
                    staggered: false,
                    immune: s.staggered || s.immune,
                    timer: 0,
                };
            } else {
                f.swing.timer = s.timer - 1;
            }
        },
        Phase::Ready => {
            match k.chosen {
                Some(t) if !k.routed && k.aware => {
                    f.target = t;
                    f.swing = Swing {
                        phase: Phase::Windup,
                        ranged: false,
                        charge: k.at_charge_speed,
                        style: k.style,
                        staggered: false,
                        immune: false,
                        timer: k.windup_ticks,
                    };
                },
                _ => {
                    if k.archer && !k.routed && f.ammo > 0 && k.can_shoot {
                        f.swing = Swing {
                            phase: Phase::Windup,
                            ranged: true,
                            charge: false,
                            style: 0,
                            staggered: false,
                            immune: false,
                            timer: k.draw_ticks,
                        };
                    }
                },
            }
        },
    }
    if k.archer && k.enemy_in_reach && f.swing.phase == Phase::Recover && f.swing.timer > k.cooldown_ticks {
        f.swing.timer = k.cooldown_ticks;
    }
    ev
}

/// A soldier fights in melee this tick: alive (no death timer running)
/// and winding up a blow. A bow draw is a wind-up too but not melee.
pub fn strikes_in_melee(death_t: u8, s: &Swing) -> (b: bool)
    ensures
        b == (death_t == 0 && s.phase == Phase::Windup && !s.ranged),
{
    death_t == 0 && s.phase == Phase::Windup && !s.ranged
}

/// The per-tick countdowns of a soldier: the hit flash fades by one tick,
/// and a dying man's death animation runs down to its last frame (1),
/// where he stays until the corpse sweep.
pub fn tick_timers(flash: u8, death_t: u8) -> (t: (u8, u8))
    ensures
        t.0 == if flash > 0 { flash - 1 } else { 0 },
        t.1 == if death_t > 1 { death_t - 1 } else { death_t as int },
{
    let f = if flash > 0 { flash - 1 } else { 0 };
    let d = if death_t > 1 { death_t - 1 } else { death_t };
    (f, d)
}

/// No soldier (the scan's empty index).
pub const NO_SOLDIER: u32 = 0xffff_ffff;

/// The enemy a ready man would open on: his previous target while it is
/// still in his reach (a duel sticks), else the nearest enemy in reach.
pub fn choose_target(sticky: bool, previous: u32, nearest: u32) -> (t: Option<u32>)
    ensures
        t == {
            let c = if sticky { previous } else { nearest };
            if c == NO_SOLDIER { None } else { Some(c) }
        },
{
    let c = if sticky { previous } else { nearest };
    if c == NO_SOLDIER { None } else { Some(c) }
}

/// A drawn bow always has an arrow on the string.
pub open spec fn armed(f: Fighter) -> bool {
    f.swing.phase == Phase::Windup && f.swing.ranged ==> f.ammo > 0
}

/// The swing cycle keeps a drawn bow armed; the quiver only empties by
/// loosing, one arrow at a time, and never refills.
pub proof fn law_quiver_only_empties_by_loosing(f: Fighter, k: SwingSense)
    requires
        armed(f),
    ensures
        armed(swing_next(f, k).0),
        swing_next(f, k).1 == SwingEvent::Loose ==> swing_next(f, k).0.ammo == f.ammo - 1,
        swing_next(f, k).1 != SwingEvent::Loose ==> swing_next(f, k).0.ammo == f.ammo,
{
}

/// Every blow that lands comes from a melee wind-up that ran out, at the
/// target he locked, with the charge flag it began with.
pub proof fn law_blows_land_at_the_end_of_a_windup(f: Fighter, k: SwingSense, victim: u32, charge: bool)
    requires
        swing_next(f, k).1 == (SwingEvent::Strike { victim, charge }),
    ensures
        f.swing.phase == Phase::Windup,
        !f.swing.ranged,
        f.swing.timer == 0,
        victim == f.target,
        charge == f.swing.charge,
        swing_next(f, k).0.swing.phase == Phase::Recover,
{
}

/// A man of a broken regiment never opens a new attack, and a dying man's
/// swing stands still.
pub proof fn law_routed_never_open(f: Fighter, k: SwingSense)
    ensures
        k.routed && f.swing.phase == Phase::Ready ==> swing_next(f, k) == (f, SwingEvent::Quiet),
        k.dying ==> swing_next(f, k) == (f, SwingEvent::Quiet),
{
}

/// A stagger that wears off leaves one free pass against the next one,
/// and a plain recovery carries an unspent pass forward.
pub proof fn law_stagger_leaves_a_pass(f: Fighter, k: SwingSense)
    requires
        !k.dying,
        f.swing.phase == Phase::Recover,
        f.swing.timer == 0,
    ensures
        swing_next(f, k).0.swing.phase == Phase::Ready,
        swing_next(f, k).0.swing.immune == (f.swing.staggered || f.swing.immune),
        !swing_next(f, k).0.swing.staggered,
{
}

/// Whether a man of a regiment in melee is out of his ranks after this
/// tick: only while his regiment fights (not broken, he not dying), and
/// once out he stays out. He goes out when he is mid-blow, or he reacts
/// (to an enemy in sight or to a comrade seen going, on a lucky roll of
/// his reaction window), or his patience with the fight runs out.
pub open spec fn out_of_ranks(
    in_fight: bool,
    routed: bool,
    dying: bool,
    was_out: bool,
    mid_blow: bool,
    sees_enemy: bool,
    sight: u8,
    roll_hit: bool,
    impatient: bool,
) -> bool {
    let in_melee = in_fight && !routed && !dying;
    let saw_go = sight & (SIGHT_GO | SIGHT_GO_FAR) != 0;
    in_melee && (was_out || mid_blow || ((sees_enemy || saw_go) && roll_hit) || impatient)
}

/// The ranks rule as the tick runs it: the melee test, the mid-blow test,
/// then the reaction and patience test.
pub fn leaves_ranks(
    in_fight: bool,
    routed: bool,
    dying: bool,
    was_out: bool,
    swing: &Swing,
    sees_enemy: bool,
    sight: u8,
    roll_hit: bool,
    impatient: bool,
) -> (out: bool)
    ensures
        out == out_of_ranks(
            in_fight,
            routed,
            dying,
            was_out,
            swing.phase != Phase::Ready && !swing.ranged,
            sees_enemy,
            sight,
            roll_hit,
            impatient,
        ),
{
    let in_melee = in_fight && !routed && !dying;
    let mut out = was_out;
    if !in_melee {
        out = false;
    } else if swing.phase != Phase::Ready && !swing.ranged {
        out = true;
    }
    let committed = in_melee && out;
    if in_melee && !committed {
        let saw_go = sight & (SIGHT_GO | SIGHT_GO_FAR) != 0;
        let react = (sees_enemy || saw_go) && roll_hit;
        if react || impatient {
            out = true;
        }
    }
    out
}

/// Sight bits: a comrade blocks his way, his left, his right; a comrade
/// ahead; a comrade between him and his mark; a comrade close by going to
/// the fight; one further out (far look).
pub const SIGHT_WAY: u8 = 1;
pub const SIGHT_LEFT: u8 = 2;
pub const SIGHT_RIGHT: u8 = 4;
pub const SIGHT_AHEAD: u8 = 8;
pub const SIGHT_MARK: u8 = 16;
pub const SIGHT_GO: u8 = 32;
pub const SIGHT_GO_FAR: u8 = 64;

/// Ticks between two looks at the comrades around him.
pub const LOOK_TICKS: u32 = 8;

/// Whether soldier `i` looks around on this tick: each man in his own
/// rhythm, once every `LOOK_TICKS`.
pub fn look_due(i: u32, tick: u32) -> (due: bool)
    ensures
        due == ((i as int + tick as int) % 4294967296 % (LOOK_TICKS as int) == 0),
{
    let s = i.wrapping_add(tick);
    proof {
        assert(s as int == (i as int + tick as int) % 4294967296);
    }
    s % LOOK_TICKS == 0
}

/// His sight after a look: what he just saw, keeping only the far-look bit
/// of what he saw before.
pub fn sight_after_look(
    sight: u8,
    way: bool,
    left: bool,
    right: bool,
    ahead: bool,
    mark: bool,
    go: bool,
) -> (s: u8)
    ensures
        (s & SIGHT_WAY != 0) == way,
        (s & SIGHT_LEFT != 0) == left,
        (s & SIGHT_RIGHT != 0) == right,
        (s & SIGHT_AHEAD != 0) == ahead,
        (s & SIGHT_MARK != 0) == mark,
        (s & SIGHT_GO != 0) == go,
        (s & SIGHT_GO_FAR) == (sight & SIGHT_GO_FAR),
        s < 128,
{
    let w: u8 = if way { SIGHT_WAY } else { 0 };
    let l: u8 = if left { SIGHT_LEFT } else { 0 };
    let r: u8 = if right { SIGHT_RIGHT } else { 0 };
    let a: u8 = if ahead { SIGHT_AHEAD } else { 0 };
    let m: u8 = if mark { SIGHT_MARK } else { 0 };
    let g: u8 = if go { SIGHT_GO } else { 0 };
    let far = sight & SIGHT_GO_FAR;
    let s = far | w | l | r | a | m | g;
    proof {
        assert(far == 0 || far == 64u8) by (bit_vector)
            requires
                far == sight & 64u8,
        ;
        assert((s & 1u8 != 0) == (w == 1u8) && (s & 2u8 != 0) == (l == 2u8) && (s & 4u8 != 0) == (r == 4u8) && (s
            & 8u8 != 0) == (a == 8u8) && (s & 16u8 != 0) == (m == 16u8) && (s & 32u8 != 0) == (g == 32u8) && (s
            & 64u8) == far && s < 128u8) by (bit_vector)
            requires
                w == 0u8 || w == 1u8,
                l == 0u8 || l == 2u8,
                r == 0u8 || r == 4u8,
                a == 0u8 || a == 8u8,
                m == 0u8 || m == 16u8,
                g == 0u8 || g == 32u8,
                far == 0u8 || far == 64u8,
                s == far | w | l | r | a | m | g,
        ;
    }
    s
}

/// A man winding up a blow in a fighting regiment is out of his ranks:
/// whoever counts toward his regiment's engagement fights out of
/// formation, and only while the melee lasts.
pub proof fn law_fighters_leave_ranks(
    in_fight: bool,
    routed: bool,
    was_out: bool,
    s: Swing,
    sees_enemy: bool,
    sight: u8,
    roll_hit: bool,
    impatient: bool,
)
    requires
        s.phase == Phase::Windup,
        !s.ranged,
        in_fight,
        !routed,
    ensures
        out_of_ranks(in_fight, routed, false, was_out, s.phase != Phase::Ready && !s.ranged, sees_enemy, sight, roll_hit, impatient),
        !out_of_ranks(false, routed, false, was_out, s.phase != Phase::Ready && !s.ranged, sees_enemy, sight, roll_hit, impatient),
        !out_of_ranks(in_fight, true, false, was_out, s.phase != Phase::Ready && !s.ranged, sees_enemy, sight, roll_hit, impatient),
{
}

} // verus!
