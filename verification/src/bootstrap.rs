//! Cancellation of background preparation runs.
//!
//! Each run takes a token from the current epoch; cancelling advances the
//! epoch, so every token taken before is no longer active.
use vstd::prelude::*;

verus! {

pub struct BootstrapState {
    epoch: u64,
}

impl BootstrapState {
    pub closed spec fn epoch(&self) -> u64 {
        self.epoch
    }

    pub fn new() -> (r: Self)
        ensures
            r.epoch() == 0,
    {
        BootstrapState { epoch: 0 }
    }

    /// The token for a run that starts now.
    pub fn snapshot(&self) -> (r: u64)
        ensures
            r == self.epoch(),
    {
        self.epoch
    }

    /// Cancels every run started so far.
    pub fn cancel_active(&mut self)
        ensures
            final(self).epoch() == vstd::wrapping::u64_specs::wrapping_add(old(self).epoch(), 1),
    {
        self.epoch = self.epoch.wrapping_add(1);
    }

    /// Whether the run holding `token` has not been cancelled.
    pub fn is_active(&self, token: u64) -> (r: bool)
        ensures
            r == (self.epoch() == token),
    {
        self.epoch == token
    }
}

/// A run's token is active until the next cancellation, and inactive after it.
pub proof fn lemma_cancel_deactivates(before: BootstrapState, after: BootstrapState)
    requires
        after.epoch() == vstd::wrapping::u64_specs::wrapping_add(before.epoch(), 1),
    ensures
        after.epoch() != before.epoch(),
{
}

} // verus!
