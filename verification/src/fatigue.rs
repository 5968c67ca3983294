//! Regiment fatigue: an accumulator fed by activity, banded into the six
//! display states. The accumulator and its rates are floating-point in the
//! game; the banding, the activity choice and the state effects that are
//! not numbers live here.
use vstd::prelude::*;

verus! {

/// The six fatigue states, freshest first.
#[derive(Clone, Copy, PartialEq, Eq, Structural, Debug)]
pub enum FatigueState {
    Fresh,
    WarmedUp,
    Winded,
    Tired,
    VeryTired,
    Exhausted,
}

/// Position of a state in the ladder, 0 (fresh) to 5 (exhausted).
pub open spec fn rank(s: FatigueState) -> int {
    match s {
        FatigueState::Fresh => 0,
        FatigueState::WarmedUp => 1,
        FatigueState::Winded => 2,
        FatigueState::Tired => 3,
        FatigueState::VeryTired => 4,
        FatigueState::Exhausted => 5,
    }
}

/// The index of a state in the effects table.
pub fn state_index(s: FatigueState) -> (i: usize)
    ensures
        i == rank(s),
{
    match s {
        FatigueState::Fresh => 0,
        FatigueState::WarmedUp => 1,
        FatigueState::Winded => 2,
        FatigueState::Tired => 3,
        FatigueState::VeryTired => 4,
        FatigueState::Exhausted => 5,
    }
}

/// The state at ladder position `i` (positions past the end are
/// exhausted).
pub open spec fn state_at(i: int) -> FatigueState {
    if i <= 0 {
        FatigueState::Fresh
    } else if i == 1 {
        FatigueState::WarmedUp
    } else if i == 2 {
        FatigueState::Winded
    } else if i == 3 {
        FatigueState::Tired
    } else if i == 4 {
        FatigueState::VeryTired
    } else {
        FatigueState::Exhausted
    }
}

/// The band a fatigue value falls in, from the five band tests
/// `below[i]` = "the value is under the i-th band boundary" (boundaries
/// ascending): the first boundary the value is under decides; past the
/// last one the regiment is exhausted.
pub fn state_from_bands(below: &[bool; 5]) -> (s: FatigueState)
    ensures
        exists|i: int|
            0 <= i <= 5 && s == state_at(i) && (i == 5 || below@[i]) && (forall|j: int|
                0 <= j < i ==> !#[trigger] below@[j]),
{
    let mut i: usize = 0;
    while i < 5
        invariant
            i <= 5,
            forall|j: int| 0 <= j < i ==> !#[trigger] below@[j],
        decreases 5 - i,
    {
        if below[i] {
            let s = match i {
                0 => FatigueState::Fresh,
                1 => FatigueState::WarmedUp,
                2 => FatigueState::Winded,
                3 => FatigueState::Tired,
                _ => FatigueState::VeryTired,
            };
            assert(s == state_at(i as int));
            return s;
        }
        i = i + 1;
    }
    assert(FatigueState::Exhausted == state_at(5));
    FatigueState::Exhausted
}

/// Display name of a state.
pub fn state_name(s: FatigueState) -> (name: &'static str)
    ensures
        s == FatigueState::Fresh ==> name@ == "fresh"@,
        s == FatigueState::WarmedUp ==> name@ == "warmed up"@,
        s == FatigueState::Winded ==> name@ == "winded"@,
        s == FatigueState::Tired ==> name@ == "tired"@,
        s == FatigueState::VeryTired ==> name@ == "very tired"@,
        s == FatigueState::Exhausted ==> name@ == "exhausted"@,
{
    match s {
        FatigueState::Fresh => "fresh",
        FatigueState::WarmedUp => "warmed up",
        FatigueState::Winded => "winded",
        FatigueState::Tired => "tired",
        FatigueState::VeryTired => "very tired",
        FatigueState::Exhausted => "exhausted",
    }
}

/// Completely exhausted men cannot run or charge: the charge bonus and the
/// charge sprint are denied.
pub fn cannot_charge(s: FatigueState) -> (b: bool)
    ensures
        b == (s == FatigueState::Exhausted),
{
    s == FatigueState::Exhausted
}

/// What a regiment is doing this tick, for the fatigue rate: fighting
/// tires fastest, then charging, then moving (broken regiments run for
/// their lives); standing recovers.
#[derive(Clone, Copy, PartialEq, Eq, Structural, Debug)]
pub enum Activity {
    Fight,
    Charge,
    Move,
    Recover,
}

pub open spec fn spec_activity(engaged: bool, charging: bool, broken: bool, moving: bool) -> Activity {
    if engaged {
        Activity::Fight
    } else if charging {
        Activity::Charge
    } else if broken || moving {
        Activity::Move
    } else {
        Activity::Recover
    }
}

/// The activity of a regiment with men left.
pub fn activity(engaged: bool, charging: bool, broken: bool, moving: bool) -> (a: Activity)
    ensures
        a == spec_activity(engaged, charging, broken, moving),
{
    if engaged {
        Activity::Fight
    } else if charging {
        Activity::Charge
    } else if broken || moving {
        Activity::Move
    } else {
        Activity::Recover
    }
}

/// Whether the kind's fatigue multiplier applies: to every activity that
/// tires, never to recovery.
pub fn tires(a: Activity) -> (b: bool)
    ensures
        b == (a != Activity::Recover),
{
    a != Activity::Recover
}

} // verus!
