use vstd::prelude::*;

use crate::machine::Chip8;
use crate::model::tick_spec;

verus! {

/// `std::time::Instant` is declared as an opaque type: the interpreter only
/// stores the reference timestamp of the last timer decrement and hands it
/// back to the clock, never inspecting it.
#[verifier::external_type_specification]
#[verifier::external_body]
pub struct ExInstant(std::time::Instant);

/// Relies on std::time::Instant::now: a timestamp of the present moment.
/// Nothing is assumed of its value.
pub assume_specification[ std::time::Instant::now ]() -> std::time::Instant;

/// Relies on std::time::Instant::elapsed: the time since the timestamp.
/// Nothing is assumed of its value.
pub assume_specification[ std::time::Instant::elapsed ](
    t: &std::time::Instant,
) -> std::time::Duration;

/// Relies on std::time::Duration::as_nanos: the duration in whole
/// nanoseconds. Nothing is assumed of its value.
pub assume_specification[ std::time::Duration::as_nanos ](d: &std::time::Duration) -> u128;

impl Chip8 {
    /// One 1/60-second timer interval: both countdown timers decrement by one,
    /// saturating at zero. Nothing else changes.
    pub fn tick_timers(&mut self)
        requires
            old(self).wf(),
        ensures
            final(self).wf(),
            final(self)@ == tick_spec(old(self)@),
    {
        self.delay_timer = self.delay_timer.saturating_sub(1);
        self.sound_timer = self.sound_timer.saturating_sub(1);
        proof {
            assert(self@ =~= tick_spec(old(self)@));
        }
    }
}

} // verus!
