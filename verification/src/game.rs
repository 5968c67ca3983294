//! The game shell's rules: the battle scenarios and their labels, the
//! menu's army-size cycle, the screen states and the results title.
use vstd::prelude::*;

verus! {

/// Battle scenario: the normal battle or one of the debug setups.
#[derive(Clone, Copy, PartialEq, Eq, Structural, Debug)]
pub enum Scenario {
    Normal,
    Surround,
    Rout,
    Dir,
    Arena,
    Charge,
    Pile,
    Join,
    Routpass,
}

impl Scenario {
    /// Menu label of a scenario.
    pub fn label(self) -> (s: &'static str)
        ensures
            self == Scenario::Normal ==> s@ == "Normal"@,
            self == Scenario::Surround ==> s@ == "Surround"@,
            self == Scenario::Rout ==> s@ == "Rout"@,
            self == Scenario::Dir ==> s@ == "Dir Defense"@,
            self == Scenario::Arena ==> s@ == "Arena"@,
            self == Scenario::Charge ==> s@ == "Charge"@,
            self == Scenario::Pile ==> s@ == "Pile-on"@,
            self == Scenario::Join ==> s@ == "Join Fight"@,
            self == Scenario::Routpass ==> s@ == "Rout Pass"@,
    {
        match self {
            Scenario::Normal => "Normal",
            Scenario::Surround => "Surround",
            Scenario::Rout => "Rout",
            Scenario::Dir => "Dir Defense",
            Scenario::Arena => "Arena",
            Scenario::Charge => "Charge",
            Scenario::Pile => "Pile-on",
            Scenario::Join => "Join Fight",
            Scenario::Routpass => "Rout Pass",
        }
    }
}

/// Every scenario, the normal battle first (the menu lists the rest as
/// debug scenarios).
pub fn all_scenarios() -> (v: Vec<Scenario>)
    ensures
        v@ == seq![
            Scenario::Normal,
            Scenario::Surround,
            Scenario::Rout,
            Scenario::Dir,
            Scenario::Arena,
            Scenario::Charge,
            Scenario::Pile,
            Scenario::Join,
            Scenario::Routpass,
        ],
{
    let v = vec![
        Scenario::Normal,
        Scenario::Surround,
        Scenario::Rout,
        Scenario::Dir,
        Scenario::Arena,
        Scenario::Charge,
        Scenario::Pile,
        Scenario::Join,
        Scenario::Routpass,
    ];
    assert(v@ =~= seq![
        Scenario::Normal,
        Scenario::Surround,
        Scenario::Rout,
        Scenario::Dir,
        Scenario::Arena,
        Scenario::Charge,
        Scenario::Pile,
        Scenario::Join,
        Scenario::Routpass,
    ]);
    v
}

/// Screens of the game.
#[derive(Clone, Copy, PartialEq, Eq, Structural, Debug)]
pub enum GameState {
    Menu,
    Battle,
    Results,
}

/// Soldiers per team of the menu's army sizes, smallest first.
pub open spec fn army_sizes() -> Seq<usize> {
    seq![10_000usize, 25_000usize, 50_000usize, 100_000usize]
}

/// Position of `per_team` in the army-size list, if it is one of them.
pub open spec fn size_pos(per_team: usize) -> Option<int> {
    if per_team == 10_000 {
        Some(0int)
    } else if per_team == 25_000 {
        Some(1int)
    } else if per_team == 50_000 {
        Some(2int)
    } else if per_team == 100_000 {
        Some(3int)
    } else {
        None
    }
}

/// Menu label of an army size: the total of both armies; sizes off the
/// list read as the largest.
pub fn army_size_label(per_team: usize) -> (s: &'static str)
    ensures
        size_pos(per_team) == Some(0int) ==> s@ == "20k"@,
        size_pos(per_team) == Some(1int) ==> s@ == "50k"@,
        size_pos(per_team) == Some(2int) ==> s@ == "100k"@,
        size_pos(per_team) == Some(3int) || size_pos(per_team) is None ==> s@ == "200k"@,
{
    if per_team == 10_000 {
        "20k"
    } else if per_team == 25_000 {
        "50k"
    } else if per_team == 50_000 {
        "100k"
    } else {
        "200k"
    }
}

/// The next army size of the menu's cycle (wrapping to the smallest; an
/// unknown size restarts at the smallest) and the regiment size that goes
/// with it: 500 men for the smallest army, 1000 otherwise.
pub fn next_army_size(per_team: usize) -> (r: (usize, usize))
    ensures
        r.0 == match size_pos(per_team) {
            Some(i) => army_sizes()[(i + 1) % 4],
            None => army_sizes()[0],
        },
        r.1 == if r.0 <= 10_000 { 500usize } else { 1000usize },
{
    let next: usize = if per_team == 10_000 {
        25_000
    } else if per_team == 25_000 {
        50_000
    } else if per_team == 50_000 {
        100_000
    } else {
        10_000
    };
    let reg: usize = if next <= 10_000 { 500 } else { 1000 };
    (next, reg)
}

/// Four presses of the army-size button come back to the size it started
/// at.
pub proof fn law_army_size_cycle(i: int)
    requires
        0 <= i < 4,
    ensures
        army_sizes()[(((((i + 1) % 4) + 1) % 4 + 1) % 4 + 1) % 4] == army_sizes()[i],
{
}

/// The results screen's title for a battle outcome: the player's victory,
/// defeat, or both armies broken.
pub fn results_title(outcome: Option<u8>) -> (s: &'static str)
    ensures
        outcome == Some(0u8) ==> s@ == "VICTORY"@,
        outcome == Some(1u8) ==> s@ == "DEFEAT"@,
        outcome != Some(0u8) && outcome != Some(1u8) ==> s@ == "MUTUAL DESTRUCTION"@,
{
    match outcome {
        Some(0) => "VICTORY",
        Some(1) => "DEFEAT",
        _ => "MUTUAL DESTRUCTION",
    }
}

/// The overlay's outcome banner, a line of its own under the battle
/// readout: the player's victory, defeat, both armies broken, or nothing
/// while the battle goes on.
pub fn outcome_banner(outcome: Option<u8>) -> (s: &'static str)
    ensures
        outcome == Some(0u8) ==> s@ == "\n=== VICTORY: the enemy army is broken ==="@,
        outcome == Some(1u8) ==> s@ == "\n=== DEFEAT: your army is broken ==="@,
        outcome == Some(2u8) ==> s@ == "\n=== MUTUAL DESTRUCTION ==="@,
        outcome is None || outcome->0 > 2 ==> s@ == ""@,
{
    match outcome {
        Some(0) => "\n=== VICTORY: the enemy army is broken ===",
        Some(1) => "\n=== DEFEAT: your army is broken ===",
        Some(2) => "\n=== MUTUAL DESTRUCTION ===",
        _ => "",
    }
}

/// The debug scenarios in the order their switches are read (the first
/// switch that is set wins; none set is the normal battle).
pub open spec fn scenario_order() -> Seq<Scenario> {
    seq![
        Scenario::Surround,
        Scenario::Rout,
        Scenario::Dir,
        Scenario::Arena,
        Scenario::Charge,
        Scenario::Pile,
        Scenario::Join,
        Scenario::Routpass,
    ]
}

/// The scenario the switches select: the first one set, in
/// `scenario_order`, else the normal battle.
pub open spec fn spec_from_switches(on: Seq<bool>) -> Scenario {
    if on[0] {
        Scenario::Surround
    } else if on[1] {
        Scenario::Rout
    } else if on[2] {
        Scenario::Dir
    } else if on[3] {
        Scenario::Arena
    } else if on[4] {
        Scenario::Charge
    } else if on[5] {
        Scenario::Pile
    } else if on[6] {
        Scenario::Join
    } else if on[7] {
        Scenario::Routpass
    } else {
        Scenario::Normal
    }
}

impl Scenario {
    /// The scenario selected by the eight debug switches (environment
    /// variables in the game), read in `scenario_order`.
    pub fn from_switches(on: &[bool; 8]) -> (s: Scenario)
        ensures
            s == spec_from_switches(on@),
    {
        if on[0] {
            Scenario::Surround
        } else if on[1] {
            Scenario::Rout
        } else if on[2] {
            Scenario::Dir
        } else if on[3] {
            Scenario::Arena
        } else if on[4] {
            Scenario::Charge
        } else if on[5] {
            Scenario::Pile
        } else if on[6] {
            Scenario::Join
        } else if on[7] {
            Scenario::Routpass
        } else {
            Scenario::Normal
        }
    }

    /// The debug switches for a scenario: exactly its own is set (none
    /// for the normal battle).
    pub fn switches(self) -> (on: [bool; 8])
        ensures
            forall|k: int| 0 <= k < 8 ==> #[trigger] on@[k] == (scenario_order()[k] == self),
    {
        let on = [
            self == Scenario::Surround,
            self == Scenario::Rout,
            self == Scenario::Dir,
            self == Scenario::Arena,
            self == Scenario::Charge,
            self == Scenario::Pile,
            self == Scenario::Join,
            self == Scenario::Routpass,
        ];
        proof {
            let o = scenario_order();
            assert(o[0] == Scenario::Surround && o[1] == Scenario::Rout && o[2] == Scenario::Dir && o[3]
                == Scenario::Arena && o[4] == Scenario::Charge && o[5] == Scenario::Pile && o[6]
                == Scenario::Join && o[7] == Scenario::Routpass);
        }
        on
    }
}

/// Setting a scenario's switches and reading them back gives the same
/// scenario: the battle setup and the next start agree.
pub proof fn law_scenario_switches_round_trip(s: Scenario, on: Seq<bool>)
    requires
        on.len() == 8,
        forall|k: int| 0 <= k < 8 ==> #[trigger] on[k] == (scenario_order()[k] == s),
    ensures
        spec_from_switches(on) == s,
{
    assert(on[0] == (scenario_order()[0] == s));
    assert(on[1] == (scenario_order()[1] == s));
    assert(on[2] == (scenario_order()[2] == s));
    assert(on[3] == (scenario_order()[3] == s));
    assert(on[4] == (scenario_order()[4] == s));
    assert(on[5] == (scenario_order()[5] == s));
    assert(on[6] == (scenario_order()[6] == s));
    assert(on[7] == (scenario_order()[7] == s));
}

/// Men per regiment: the size asked for, never under 50.
pub fn regiment_size(asked: usize) -> (n: usize)
    ensures
        n == if asked > 50 { asked } else { 50 },
{
    if asked > 50 { asked } else { 50 }
}

/// The AI option button's caption.
pub fn ai_label(on: bool) -> (s: &'static str)
    ensures
        on ==> s@ == "On"@,
        !on ==> s@ == "Off"@,
{
    if on { "On" } else { "Off" }
}

/// The main menu's start: a scripted test scenario starts on its own,
/// once; Enter, Space or the Start button start a normal battle. Returns
/// the scenario to run, if a battle starts.
pub fn menu_start(scripted: bool, auto_done: &mut bool, start: bool) -> (go: Option<Option<Scenario>>)
    ensures
        !*old(auto_done) && scripted ==> go == Some(None::<Scenario>) && *final(auto_done),
        !(!*old(auto_done) && scripted) ==> *final(auto_done) == *old(auto_done) && go == if start {
            Some(Some(Scenario::Normal))
        } else {
            None
        },
{
    if !*auto_done && scripted {
        *auto_done = true;
        return Some(None);
    }
    if start {
        Some(Some(Scenario::Normal))
    } else {
        None
    }
}

/// The results screen's buttons.
#[derive(Clone, Copy, PartialEq, Eq, Structural, Debug)]
pub enum ResultsButton {
    PlayAgain,
    MainMenu,
}

/// The screen a results button leads to.
pub fn results_next(b: ResultsButton) -> (s: GameState)
    ensures
        s == if b == ResultsButton::PlayAgain { GameState::Battle } else { GameState::Menu },
{
    match b {
        ResultsButton::PlayAgain => GameState::Battle,
        ResultsButton::MainMenu => GameState::Menu,
    }
}

/// The pause overlay's buttons: both unpause; Quit also leaves for the
/// menu.
#[derive(Clone, Copy, PartialEq, Eq, Structural, Debug)]
pub enum PauseButton {
    Resume,
    QuitToMenu,
}

/// Escape toggles the pause; a pause button always resumes. Returns the
/// new paused flag and the screen to go to.
pub fn pause_input(paused: bool, escape: bool, button: Option<PauseButton>) -> (r: (bool, Option<GameState>))
    ensures
        button is Some ==> r.0 == false && r.1 == if button == Some(PauseButton::QuitToMenu) {
            Some(GameState::Menu)
        } else {
            None
        },
        button is None ==> r.1 is None && r.0 == (paused != escape),
{
    match button {
        Some(PauseButton::QuitToMenu) => (false, Some(GameState::Menu)),
        Some(PauseButton::Resume) => (false, None),
        None => (paused != escape, None),
    }
}

} // verus!
