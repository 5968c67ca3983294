//! FLANKS battle rules: the regiment state, orders, selection, formations,
//! the morale, fatigue and swing state machines, contact and victory, the
//! pre-battle army picker, the bookkeeping buffers of the battlefield, and
//! the fixed-tick pipeline with its state fingerprint, each with its
//! contract.
//!
//! Positions and angles are floating-point in the game; the library never
//! reads them. A regiment carries its anchor and centroid as an opaque
//! payload `P`, and every decision that rests on a distance or an angle
//! takes the outcome of that comparison as a plain `bool`.
use vstd::prelude::*;

pub mod regiment;
pub mod selection;
pub mod orders;
pub mod battle;
pub mod morale;
pub mod fatigue;
pub mod formation;
pub mod army;
pub mod game;
pub mod settings;
pub mod buffers;
pub mod frontline;
pub mod render;
pub mod combat;
pub mod archery;
pub mod swing;
pub mod fingerprint;
pub mod pipeline;

verus! {

} // verus!
