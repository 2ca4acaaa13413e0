//! When changes in the watched mods folders are reported: not while the
//! application itself is writing there.
use vstd::prelude::*;

verus! {

/// Until when (in milliseconds since the epoch) events of the mods folders
/// are held back.
pub struct SuppressWindow {
    pub until_ms: u64,
}

/// `a + b`, held at `u64::MAX`.
pub open spec fn saturating_sum(a: u64, b: u64) -> u64 {
    if a + b > u64::MAX {
        u64::MAX
    } else {
        (a + b) as u64
    }
}

/// The end of the window after holding events back for `duration_ms` from
/// `now_ms`: it only ever moves later.
pub open spec fn extended_until(until_ms: u64, now_ms: u64, duration_ms: u64) -> u64 {
    let wanted = saturating_sum(now_ms, duration_ms);
    if wanted > until_ms {
        wanted
    } else {
        until_ms
    }
}

impl SuppressWindow {
    pub fn new() -> (r: SuppressWindow)
        ensures
            r.until_ms == 0,
    {
        SuppressWindow { until_ms: 0 }
    }
}

/// Holds events back for `duration_ms` from `now_ms`, keeping a window that
/// already reaches further.
pub fn suppress_events_for(window: &mut SuppressWindow, now_ms: u64, duration_ms: u64)
    ensures
        final(window).until_ms == extended_until(old(window).until_ms, now_ms, duration_ms),
{
    let until = now_ms.saturating_add(duration_ms);
    if until > window.until_ms {
        window.until_ms = until;
    }
}

/// An event at `now_ms` is held back.
pub fn should_suppress_event(window: &SuppressWindow, now_ms: u64) -> (r: bool)
    ensures
        r == (now_ms <= window.until_ms),
{
    now_ms <= window.until_ms
}

/// A change reported by the watcher is passed on to the interface: it is no
/// watcher error and falls outside the window.
pub fn should_forward_event(window: &SuppressWindow, now_ms: u64, watcher_ok: bool) -> (r: bool)
    ensures
        r == (watcher_ok && now_ms > window.until_ms),
{
    watcher_ok && !should_suppress_event(window, now_ms)
}

/// After holding events back for a while, every event up to its end is held
/// back, and so is every event that an earlier window held back.
pub proof fn lemma_suppress_covers(until_ms: u64, now_ms: u64, duration_ms: u64, t: u64)
    requires
        (now_ms <= t && t <= saturating_sum(now_ms, duration_ms)) || t <= until_ms,
    ensures
        t <= extended_until(until_ms, now_ms, duration_ms),
{
}

/// Holding events back never shortens the window.
pub proof fn lemma_suppress_monotonic(until_ms: u64, now_ms: u64, duration_ms: u64)
    ensures
        until_ms <= extended_until(until_ms, now_ms, duration_ms),
        saturating_sum(now_ms, duration_ms) <= extended_until(until_ms, now_ms, duration_ms),
{
}

} // verus!
