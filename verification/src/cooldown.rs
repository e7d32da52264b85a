//! One-shot timers that gate how often an entity may act.
//!
//! Time is measured in whole milliseconds. A timer is finished once its
//! elapsed time has reached its duration; ticking past the duration clamps,
//! so a finished timer stays finished until it is reset.

use vstd::prelude::*;

verus! {

/// How long a mob must wait between steps, in milliseconds.
pub const MOVEMENT_COOLDOWN_MS: u32 = 400;

/// How long a watcher waits after spotting its target before it may trigger
/// again, in milliseconds.
pub const SIGHT_COOLDOWN_MS: u32 = 2000;

/// How long the menu cursor waits between steps, in milliseconds.
pub const MENU_MOVE_COOLDOWN_MS: u32 = 100;

/// A one-shot millisecond timer: elapsed time counts up to a fixed duration
/// and clamps there.
#[derive(Clone, Copy, Debug, PartialEq, Eq, Structural)]
pub struct Cooldown {
    pub elapsed_ms: u32,
    pub duration_ms: u32,
}

impl Cooldown {
    /// A timer is well formed when its duration is positive and its elapsed
    /// time has not run past the duration.
    pub open spec fn wf(self) -> bool {
        1 <= self.duration_ms && self.elapsed_ms <= self.duration_ms
    }

    pub open spec fn spec_finished(&self) -> bool {
        self.elapsed_ms >= self.duration_ms
    }

    /// A fresh timer with nothing elapsed.
    pub fn new(duration_ms: u32) -> (r: Self)
        requires
            duration_ms >= 1,
        ensures
            r == (Cooldown { elapsed_ms: 0, duration_ms }),
            r.wf(),
    {
        Cooldown { elapsed_ms: 0, duration_ms }
    }

    /// Whether the full duration has elapsed.
    #[verifier::when_used_as_spec(spec_finished)]
    pub fn finished(&self) -> (r: bool)
        ensures
            r == self.spec_finished(),
    {
        self.elapsed_ms >= self.duration_ms
    }

    /// The timer as it stands after `delta_ms` more milliseconds.
    pub open spec fn spec_ticked(self, delta_ms: u32) -> Cooldown {
        if self.elapsed_ms + delta_ms >= self.duration_ms {
            Cooldown { elapsed_ms: self.duration_ms, duration_ms: self.duration_ms }
        } else {
            Cooldown { elapsed_ms: (self.elapsed_ms + delta_ms) as u32, duration_ms: self.duration_ms }
        }
    }

    /// Advances the timer, clamping at the duration.
    pub fn tick(&mut self, delta_ms: u32)
        requires
            old(self).wf(),
        ensures
            *final(self) == old(self).spec_ticked(delta_ms),
            final(self).wf(),
    {
        if delta_ms >= self.duration_ms - self.elapsed_ms {
            self.elapsed_ms = self.duration_ms;
        } else {
            self.elapsed_ms = self.elapsed_ms + delta_ms;
        }
    }

    /// Starts the wait over.
    pub fn reset(&mut self)
        ensures
            *final(self) == (Cooldown { elapsed_ms: 0, duration_ms: old(self).duration_ms }),
    {
        self.elapsed_ms = 0;
    }

    /// Forces the timer into the finished state.
    pub fn finish(&mut self)
        ensures
            *final(self) == (Cooldown {
                elapsed_ms: old(self).duration_ms,
                duration_ms: old(self).duration_ms,
            }),
            final(self).finished(),
    {
        self.elapsed_ms = self.duration_ms;
    }

    pub open spec fn spec_fraction_permille(self) -> int {
        self.elapsed_ms * 1000 / self.duration_ms as int
    }

    /// Elapsed share of the duration in thousandths, from 0 (just reset) to
    /// 1000 (finished).
    pub fn fraction_permille(&self) -> (r: u32)
        requires
            self.wf(),
        ensures
            r == self.spec_fraction_permille(),
            r <= 1000,
    {
        proof {
            vstd::arithmetic::div_mod::lemma_div_is_ordered(
                self.elapsed_ms * 1000,
                self.duration_ms * 1000,
                self.duration_ms as int,
            );
            vstd::arithmetic::div_mod::lemma_div_by_multiple(1000, self.duration_ms as int);
        }
        ((self.elapsed_ms as u64 * 1000) / (self.duration_ms as u64)) as u32
    }
}

/// Movement pacing timer of a mob. A freshly built one is already finished,
/// so the first step after spawning is never blocked.
#[derive(Clone, Copy, Debug, PartialEq, Eq, Structural)]
pub struct MovementCooldown(pub Cooldown);

impl Default for MovementCooldown {
    fn default() -> (r: Self)
        ensures
            r.0 == (Cooldown {
                elapsed_ms: MOVEMENT_COOLDOWN_MS,
                duration_ms: MOVEMENT_COOLDOWN_MS,
            }),
            r.0.wf(),
            r.0.finished(),
    {
        MovementCooldown(Cooldown { elapsed_ms: MOVEMENT_COOLDOWN_MS, duration_ms: MOVEMENT_COOLDOWN_MS })
    }
}

/// Re-trigger pacing timer of a sight watcher. A freshly built one starts
/// cold: the watcher may first trigger only after the full wait.
#[derive(Clone, Copy, Debug, PartialEq, Eq, Structural)]
pub struct SightTriggerCooldown(pub Cooldown);

impl Default for SightTriggerCooldown {
    fn default() -> (r: Self)
        ensures
            r.0 == (Cooldown { elapsed_ms: 0, duration_ms: SIGHT_COOLDOWN_MS }),
            r.0.wf(),
    {
        SightTriggerCooldown(Cooldown { elapsed_ms: 0, duration_ms: SIGHT_COOLDOWN_MS })
    }
}

/// Pacing timer for menu cursor movement.
#[derive(Clone, Copy, Debug, PartialEq, Eq, Structural)]
pub struct MenuMovementCooldown(pub Cooldown);

impl Default for MenuMovementCooldown {
    fn default() -> (r: Self)
        ensures
            r.0 == (Cooldown { elapsed_ms: 0, duration_ms: MENU_MOVE_COOLDOWN_MS }),
            r.0.wf(),
    {
        MenuMovementCooldown(Cooldown { elapsed_ms: 0, duration_ms: MENU_MOVE_COOLDOWN_MS })
    }
}

} // verus!
