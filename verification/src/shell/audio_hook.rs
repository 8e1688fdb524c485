//! The taskbar scroll hook's switch. Every change of the switch starts a new
//! generation; a queued request counts only if the hook is on and nothing
//! was switched since it was queued.

use vstd::prelude::*;

verus! {

/// The hook's on/off switch and its generation counter.
pub struct AudioHookState {
    enabled: bool,
    generation: u64,
}

impl AudioHookState {
    pub closed spec fn on(&self) -> bool {
        self.enabled
    }

    pub closed spec fn current_generation(&self) -> u64 {
        self.generation
    }

    /// On, in the first generation.
    pub fn new() -> (r: Self)
        ensures
            r.on(),
            r.current_generation() == 0,
    {
        AudioHookState { enabled: true, generation: 0 }
    }

    /// Switches the hook; a real change starts the next generation
    /// (wrapping), setting it to what it is changes nothing.
    pub fn set_enabled(&mut self, enabled: bool)
        ensures
            final(self).on() == enabled,
            old(self).on() != enabled ==> final(self).current_generation() == old(
                self,
            ).current_generation().wrapping_add(1),
            old(self).on() == enabled ==> final(self).current_generation() == old(
                self,
            ).current_generation(),
    {
        if self.enabled != enabled {
            self.generation = self.generation.wrapping_add(1);
        }
        self.enabled = enabled;
    }

    pub fn is_enabled(&self) -> (r: bool)
        ensures
            r == self.on(),
    {
        self.enabled
    }

    /// The generation a request queued now is stamped with.
    pub fn generation(&self) -> (r: u64)
        ensures
            r == self.current_generation(),
    {
        self.generation
    }
}

/// A request counts only while the hook is on and in the generation it was
/// queued in.
pub fn request_is_current(request_generation: u64, enabled: bool, current_generation: u64) -> (r:
    bool)
    ensures
        r == (enabled && request_generation == current_generation),
{
    enabled && request_generation == current_generation
}

/// A request queued before the hook was switched off, or before it was
/// switched off and on again, is never carried out: any one switch moves the
/// generation away from the request's stamp.
pub proof fn lemma_switch_makes_requests_stale(stamp: u64, before: u64, after: u64)
    requires
        stamp == before,
        after == before.wrapping_add(1),
    ensures
        stamp != after,
{
}

} // verus!
