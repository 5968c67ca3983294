//! The regiment: a permanent block of soldiers sharing an order, kind,
//! formation and morale state. Regiment indices never change during a
//! battle, so an index is a permanent regiment id.
use vstd::prelude::*;

verus! {

/// Men-at-arms: fast, lightly armored (the fallback kind).
pub const KIND_LIGHT: u8 = 0;
/// Knights: slow, armored line breakers.
pub const KIND_HEAVY: u8 = 1;
/// Spearmen: chainmail line troops.
pub const KIND_SPEAR: u8 = 2;
/// Bowmen: volleys over the friendly line.
pub const KIND_ARCHER: u8 = 3;
/// Number of unit kinds.
pub const NUM_KINDS: usize = 4;

/// The human player's side.
pub const PLAYER_TEAM: u8 = 0;

/// A regiment order: move orders target ground and end on arrival; attack
/// orders hunt a specific enemy regiment (an index into the regiment list)
/// and end when it is wiped.
#[derive(Clone, Copy)]
pub enum Order<P> {
    Move(P),
    Attack(u32),
}

/// Regiment morale state.
#[derive(Clone, Copy, PartialEq, Eq, Structural, Debug)]
pub enum RegState {
    Steady,
    /// Broken: uncontrollable, flees toward its own edge. `since` is the
    /// morale tick the break happened on.
    Routing { since: u32 },
    /// Too depleted to ever rally; flees until despawn.
    Shattered,
}

impl RegState {
    pub open spec fn spec_is_broken(self) -> bool {
        !(self is Steady)
    }

    /// Broken regiments (routing or shattered) are uncontrollable.
    pub fn is_broken(&self) -> (b: bool)
        ensures
            b == self.spec_is_broken(),
    {
        match self {
            RegState::Steady => false,
            _ => true,
        }
    }
}

/// Formation shape of a regiment.
#[derive(Clone, Copy, PartialEq, Eq, Structural, Debug)]
pub enum FormShape {
    /// Rank-and-file grid with facing: the battle formation.
    Rect,
    /// Loose cluster; facing is meaningless.
    Blob,
}

/// Slot density of a Rect formation.
#[derive(Clone, Copy, PartialEq, Eq, Structural, Debug)]
pub enum FormSpacing {
    Normal,
    /// Open order.
    Loose,
    /// Shieldwall (sword kinds) or spearwall (spears): tight files, braced.
    Wall,
}

/// The discrete state of one regiment. `P` is the game's ground point
/// type: the library copies it around and never looks inside.
pub struct GroupData<P> {
    pub team: u8,
    /// One of the `KIND_*` constants.
    pub kind: u8,
    /// Current order; `None` holds at the anchor.
    pub order: Option<Order<P>>,
    /// The order came from at-ease engagement, a skirmish withdrawal or
    /// a script, not the player.
    pub auto_order: bool,
    /// Reference point the regiment holds at.
    pub anchor: P,
    /// Mean position of the living men, refreshed every tick.
    pub centroid: P,
    /// Living strength.
    pub count: usize,
    /// Strength at spawn.
    pub initial_count: usize,
    pub shape: FormShape,
    pub spacing: FormSpacing,
    /// Soldiers per rank; 0 = decide on the first reform.
    pub files: u32,
    /// Hold position: never auto-engage, never chase.
    pub hold: bool,
    /// Request: rewrite the slots before the next tick.
    pub reform: bool,
    /// Living strength when the slots were last written.
    pub count_at_reform: usize,
    /// One soldier fighting engages the whole regiment.
    pub engaged: bool,
    /// Ticks of `engaged` left since the last soldier fought.
    pub engage_hold: u8,
    /// Charge phase: attack order, inside charge range, not in contact.
    pub charging: bool,
    /// An unbroken enemy regiment is within watch range.
    pub hostile_near: bool,
    /// Victory-cheer ticks remaining.
    pub celebrate: u16,
    /// The army's command regiment.
    pub leader: bool,
    /// Ticks the morale level has sat at or below the rout line.
    pub break_ticks: u8,
    /// A steady regiment whose morale level is at or below the shaken line.
    pub shaken: bool,
    /// A steady regiment whose morale level is at or below the wavering line.
    pub wavering: bool,
    pub state: RegState,
    /// Deaths suffered since the last morale tick.
    pub recent_deaths: u32,
    /// Kills made since the last morale tick.
    pub recent_kills: u32,
    /// Fire at will (archers).
    pub fire_at_will: bool,
    /// Skirmish mode (archers).
    pub skirmish: bool,
    /// The current move order is our own skirmish withdrawal.
    pub skirmishing: bool,
    /// Arrows left across the regiment.
    pub ammo_left: u32,
}

impl<P: Copy> GroupData<P> {
    /// A freshly raised regiment of `count` men standing at `anchor`,
    /// steady, in a loose cluster with no order. Archers carry
    /// `ammo_per_man` arrows each and skirmish by default.
    pub fn new(team: u8, kind: u8, anchor: P, count: usize, ammo_per_man: u32) -> (r: Self)
        requires
            kind == KIND_ARCHER ==> count * ammo_per_man <= u32::MAX,
            kind == KIND_ARCHER ==> count <= u32::MAX,
        ensures
            r.team == team,
            r.kind == kind,
            r.order is None,
            !r.auto_order,
            r.anchor == anchor,
            r.centroid == anchor,
            r.count == count,
            r.initial_count == count,
            r.count_at_reform == count,
            r.shape == FormShape::Blob,
            r.spacing == FormSpacing::Normal,
            r.files == 0,
            !r.hold,
            !r.reform,
            !r.engaged,
            r.engage_hold == 0,
            !r.charging,
            !r.hostile_near,
            r.celebrate == 0,
            !r.leader,
            r.break_ticks == 0,
            !r.shaken,
            !r.wavering,
            r.state == RegState::Steady,
            r.recent_deaths == 0,
            r.recent_kills == 0,
            r.fire_at_will,
            r.skirmish == (kind == KIND_ARCHER),
            !r.skirmishing,
            r.ammo_left == (if kind == KIND_ARCHER { count * ammo_per_man } else { 0 }),
    {
        let ammo_left: u32 = if kind == KIND_ARCHER {
            (count as u32) * ammo_per_man
        } else {
            0
        };
        GroupData {
            team,
            kind,
            order: None,
            auto_order: false,
            anchor,
            centroid: anchor,
            count,
            initial_count: count,
            shape: FormShape::Blob,
            spacing: FormSpacing::Normal,
            files: 0,
            hold: false,
            reform: false,
            count_at_reform: count,
            engaged: false,
            engage_hold: 0,
            charging: false,
            hostile_near: false,
            celebrate: 0,
            leader: false,
            break_ticks: 0,
            shaken: false,
            wavering: false,
            state: RegState::Steady,
            recent_deaths: 0,
            recent_kills: 0,
            fire_at_will: true,
            skirmish: kind == KIND_ARCHER,
            skirmishing: false,
            ammo_left,
        }
    }
}

/// A regiment that is alive and not broken: the set every order acts on.
pub open spec fn controllable<P>(r: GroupData<P>) -> bool {
    r.count > 0 && !r.state.spec_is_broken()
}

/// What a regiment's order points at this tick, given the regiment list:
/// a move order's ground point, or the centroid of a living attack target.
pub open spec fn goal_of<P>(regs: Seq<GroupData<P>>, g: int) -> Option<P> {
    match regs[g].order {
        None => None,
        Some(Order::Move(p)) => Some(p),
        Some(Order::Attack(t)) => if regs[t as int].count > 0 {
            Some(regs[t as int].centroid)
        } else {
            None
        },
    }
}

/// Every attack order in the list names a regiment of the list.
pub open spec fn targets_in_range<P>(regs: Seq<GroupData<P>>) -> bool {
    forall|g: int|
        0 <= g < regs.len() ==> match #[trigger] regs[g].order {
            Some(Order::Attack(t)) => t < regs.len(),
            _ => true,
        }
}

/// The regiment list of a battle. Regiment indices never change during a
/// battle, so an index is a permanent regiment id.
pub struct Groups<P> {
    pub list: Vec<GroupData<P>>,
}

impl<P: Copy> Groups<P> {
    /// A regiment's order destination this tick: the move point, or the
    /// current centroid of the attack target while it has men left.
    pub fn goal(&self, g: usize) -> (r: Option<P>)
        requires
            g < self.list.len(),
            match self.list@[g as int].order {
                Some(Order::Attack(t)) => t < self.list.len(),
                _ => true,
            },
        ensures
            r == goal_of(self.list@, g as int),
    {
        match self.list[g].order {
            None => None,
            Some(Order::Move(p)) => Some(p),
            Some(Order::Attack(t)) => {
                assert(t < self.list.len());
                let tr = &self.list[t as usize];
                if tr.count > 0 {
                    Some(tr.centroid)
                } else {
                    None
                }
            },
        }
    }
}

/// Wall flavor of a regiment, shared by the damage model and the render
/// pose: 0 = none, 1 = shieldwall (sword kinds), 2 = spearwall (spears).
pub open spec fn spec_wall_kind<P>(r: GroupData<P>) -> u8 {
    if r.spacing != FormSpacing::Wall || r.state.spec_is_broken() {
        0
    } else if r.kind == KIND_SPEAR {
        2
    } else {
        1
    }
}

/// The wall flavor of a regiment (see `spec_wall_kind`).
pub fn wall_kind<P>(r: &GroupData<P>) -> (w: u8)
    ensures
        w == spec_wall_kind(*r),
{
    if r.spacing != FormSpacing::Wall || r.state.is_broken() {
        0
    } else if r.kind == KIND_SPEAR {
        2
    } else {
        1
    }
}

} // verus!
