//! The fixed-tick pipeline's bookkeeping: at most one tick job in flight on
//! the worker, a finished job is installed only when it was computed from
//! the current battle, otherwise the tick runs inline, and the tick counter
//! paces the overlap audit and the state fingerprint.
use vstd::prelude::*;

verus! {

/// Ticks between two overlap and movement audits (about two seconds).
pub const AUDIT_EVERY: u32 = 60;

/// The pipeline state: whether a job is out on the worker, and the tick
/// counter.
#[derive(Clone, Copy, PartialEq, Eq, Structural, Debug)]
pub struct TickPipeline {
    pub in_flight: bool,
    pub tick: u32,
}

/// Where this tick's kinematics come from.
#[derive(Clone, Copy, PartialEq, Eq, Structural, Debug)]
pub enum TickSource {
    /// No soldiers on the field: nothing to run.
    Idle,
    /// The finished background job, computed from this battle.
    Job,
    /// Run the tick inline (first tick of a battle, the pipeline off, or a
    /// stale job from an older battle, whose buffers are only recycled).
    Inline,
}

impl TickPipeline {
    /// A fresh pipeline: nothing in flight, tick zero.
    pub fn new() -> (p: Self)
        ensures
            !p.in_flight,
            p.tick == 0,
    {
        TickPipeline { in_flight: false, tick: 0 }
    }

    /// The start of a fixed tick: take the job in flight, if any (it has
    /// finished or is waited for), and choose where the tick comes from. A
    /// job counts only when it carries the current battle's generation and
    /// the field has soldiers.
    pub fn take(&mut self, job_generation: Option<u64>, generation: u64, has_units: bool) -> (src: TickSource)
        ensures
            !final(self).in_flight,
            final(self).tick == old(self).tick,
            src == if !has_units {
                TickSource::Idle
            } else if old(self).in_flight && job_generation == Some(generation) {
                TickSource::Job
            } else {
                TickSource::Inline
            },
    {
        let had = self.in_flight;
        self.in_flight = false;
        if !has_units {
            TickSource::Idle
        } else if had && job_generation == Some(generation) {
            TickSource::Job
        } else {
            TickSource::Inline
        }
    }

    /// After the tick is installed: the counter moves on (wrapping), and
    /// says whether the audit runs on this tick.
    pub fn advance(&mut self) -> (audit: bool)
        ensures
            final(self).in_flight == old(self).in_flight,
            final(self).tick == (old(self).tick as int + 1) % 4294967296,
            audit == (final(self).tick % AUDIT_EVERY == 0),
    {
        self.tick = self.tick.wrapping_add(1);
        self.tick % AUDIT_EVERY == 0
    }

    /// The end of the frame's fixed ticks: send the next job to the worker
    /// when the pipeline is on, the field has soldiers, the terrain
    /// snapshot is ready and no job is already out. Returns whether a job
    /// was sent.
    pub fn kick(&mut self, enabled: bool, has_units: bool, terrain_ready: bool) -> (sent: bool)
        ensures
            sent == (enabled && has_units && terrain_ready && !old(self).in_flight),
            final(self).in_flight == (old(self).in_flight || sent),
            final(self).tick == old(self).tick,
    {
        if !enabled || !has_units || self.in_flight || !terrain_ready {
            return false;
        }
        self.in_flight = true;
        true
    }
}

} // verus!
