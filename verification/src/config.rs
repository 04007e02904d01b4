//! Behaviour settings and their built-in defaults.
use vstd::prelude::*;

verus! {

/// How the frog behaves.
pub struct Behavior {
    /// How often the frog's brain ticks, in milliseconds.
    pub step_interval_ms: u32,
    /// How close the cursor has to get before the frog flees, in pixels.
    pub flee_radius_px: i32,
}

impl Default for Behavior {
    fn default() -> (r: Self)
        ensures
            r.step_interval_ms == 500,
            r.flee_radius_px == 120,
    {
        Self { step_interval_ms: 500, flee_radius_px: 120 }
    }
}

/// The speech-bubble scale actually used: the configured one, but at least 1.
pub fn effective_bubble_scale(configured: u32) -> (r: u32)
    ensures
        r == (if configured == 0 {
            1
        } else {
            configured
        }),
{
    if configured == 0 {
        1
    } else {
        configured
    }
}

} // verus!
