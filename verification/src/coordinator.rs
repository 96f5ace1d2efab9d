//! The sync coordinator: mutual exclusion of drain passes.
//!
//! At most one drain pass runs at a time; sync triggers that arrive while
//! a pass is running are coalesced, i.e. ignored.

use vstd::prelude::*;

verus! {

/// Whether a drain pass is currently running.
#[derive(Clone, Copy, Debug, PartialEq, Eq, Structural)]
pub enum SyncState {
    Idle,
    Syncing,
}

/// The state after one sync trigger, and whether that trigger starts a
/// drain pass: it does exactly when the client is online and no pass is
/// already running.
pub open spec fn spec_try_begin(s: SyncState, online: bool) -> (SyncState, bool) {
    if online && s == SyncState::Idle {
        (SyncState::Syncing, true)
    } else {
        (s, false)
    }
}

/// Orchestrates queue draining: tracks whether a pass is in flight.
pub struct SyncCoordinator {
    state: SyncState,
}

impl SyncCoordinator {
    pub closed spec fn spec_state(self) -> SyncState {
        self.state
    }

    /// A fresh coordinator is idle.
    pub fn new() -> (r: SyncCoordinator)
        ensures
            r.spec_state() == SyncState::Idle,
    {
        SyncCoordinator { state: SyncState::Idle }
    }

    pub fn is_syncing(&self) -> (r: bool)
        ensures
            r == (self.spec_state() == SyncState::Syncing),
    {
        self.state == SyncState::Syncing
    }

    /// One sync trigger: moves to `Syncing` and reports `true` exactly when
    /// the client is online and no pass is already running; otherwise the
    /// trigger is coalesced and nothing changes.
    pub fn try_begin(&mut self, online: bool) -> (started: bool)
        ensures
            (final(self).spec_state(), started) == spec_try_begin(old(self).spec_state(), online),
            !started ==> *final(self) == *old(self),
    {
        if online && self.state == SyncState::Idle {
            self.state = SyncState::Syncing;
            true
        } else {
            false
        }
    }

    /// Completion of a drain pass, successful or not: back to `Idle`.
    pub fn finish(&mut self)
        ensures
            final(self).spec_state() == SyncState::Idle,
    {
        self.state = SyncState::Idle;
    }
}

/// However many sync triggers arrive while a pass is running, none of them
/// starts a second pass: starting from `Idle`, the first trigger while
/// online starts a pass, every further trigger before completion is
/// coalesced, and completion returns the coordinator to `Idle`.
pub proof fn lemma_sync_passes_coalesced(online: bool, later: Seq<bool>)
    requires
        online,
    ensures
        spec_try_begin(SyncState::Idle, online) == (SyncState::Syncing, true),
        forall|i: int|
            0 <= i < later.len() ==> #[trigger] spec_try_begin(SyncState::Syncing, later[i]) == (
            SyncState::Syncing,
            false,
        ),
{
}

} // verus!
