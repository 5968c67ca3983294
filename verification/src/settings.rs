//! The on/off user settings and their toggle buttons, and the window and
//! presentation modes they select. (The volume and pan-speed sliders are
//! floating-point and live with the game.)
use vstd::prelude::*;

verus! {

/// The switch settings: edge panning, vertical sync and borderless
/// fullscreen.
#[derive(Clone, Copy, PartialEq, Eq, Structural, Debug)]
pub struct Switches {
    pub edge_pan: bool,
    pub vsync: bool,
    pub fullscreen: bool,
}

impl Switches {
    /// Defaults: edge pan on, vsync off (the FPS overlay shows real
    /// headroom), windowed.
    pub fn default_switches() -> (s: Switches)
        ensures
            s == (Switches { edge_pan: true, vsync: false, fullscreen: false }),
    {
        Switches { edge_pan: true, vsync: false, fullscreen: false }
    }
}

/// A toggle button of the settings modal.
#[derive(Clone, Copy, PartialEq, Eq, Structural, Debug)]
pub enum Toggle {
    EdgePan,
    VSync,
    Fullscreen,
}

pub open spec fn spec_get(t: Toggle, s: Switches) -> bool {
    match t {
        Toggle::EdgePan => s.edge_pan,
        Toggle::VSync => s.vsync,
        Toggle::Fullscreen => s.fullscreen,
    }
}

/// The switches after pressing `t`.
pub open spec fn flipped(t: Toggle, s: Switches) -> Switches {
    match t {
        Toggle::EdgePan => Switches { edge_pan: !s.edge_pan, ..s },
        Toggle::VSync => Switches { vsync: !s.vsync, ..s },
        Toggle::Fullscreen => Switches { fullscreen: !s.fullscreen, ..s },
    }
}

impl Toggle {
    /// The switch a button shows.
    pub fn get(self, s: &Switches) -> (b: bool)
        ensures
            b == spec_get(self, *s),
    {
        match self {
            Toggle::EdgePan => s.edge_pan,
            Toggle::VSync => s.vsync,
            Toggle::Fullscreen => s.fullscreen,
        }
    }

    /// Pressing a button flips its switch and no other.
    pub fn flip(self, s: &mut Switches)
        ensures
            *final(s) == flipped(self, *old(s)),
            spec_get(self, *final(s)) == !spec_get(self, *old(s)),
            forall|t: Toggle| t != self ==> spec_get(t, *final(s)) == spec_get(t, *old(s)),
    {
        match self {
            Toggle::EdgePan => s.edge_pan = !s.edge_pan,
            Toggle::VSync => s.vsync = !s.vsync,
            Toggle::Fullscreen => s.fullscreen = !s.fullscreen,
        }
    }

    /// The caption of a button: the window mode for fullscreen, on/off
    /// for the others.
    pub fn label(self, s: &Switches) -> (l: &'static str)
        ensures
            self == Toggle::Fullscreen && spec_get(self, *s) ==> l@ == "Borderless"@,
            self == Toggle::Fullscreen && !spec_get(self, *s) ==> l@ == "Windowed"@,
            self != Toggle::Fullscreen && spec_get(self, *s) ==> l@ == "On"@,
            self != Toggle::Fullscreen && !spec_get(self, *s) ==> l@ == "Off"@,
    {
        let on = self.get(s);
        match self {
            Toggle::Fullscreen => if on { "Borderless" } else { "Windowed" },
            _ => if on { "On" } else { "Off" },
        }
    }
}

/// Two presses of the same toggle give back the settings as they were.
pub proof fn law_flip_twice(t: Toggle, s: Switches)
    ensures
        flipped(t, flipped(t, s)) == s,
{
}

/// The window mode the settings ask for.
#[derive(Clone, Copy, PartialEq, Eq, Structural, Debug)]
pub enum WindowChoice {
    Windowed,
    /// Borderless fullscreen on the current monitor.
    Borderless,
}

/// The presentation mode the settings ask for.
#[derive(Clone, Copy, PartialEq, Eq, Structural, Debug)]
pub enum PresentChoice {
    AutoVsync,
    AutoNoVsync,
}

/// The window mode the switches select.
pub fn window_mode(s: &Switches) -> (w: WindowChoice)
    ensures
        w == if s.fullscreen { WindowChoice::Borderless } else { WindowChoice::Windowed },
{
    if s.fullscreen { WindowChoice::Borderless } else { WindowChoice::Windowed }
}

/// The presentation mode the switches select.
pub fn present_mode(s: &Switches) -> (p: PresentChoice)
    ensures
        p == if s.vsync { PresentChoice::AutoVsync } else { PresentChoice::AutoNoVsync },
{
    if s.vsync { PresentChoice::AutoVsync } else { PresentChoice::AutoNoVsync }
}

} // verus!
