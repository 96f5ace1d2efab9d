//! Connectivity monitoring: samples of an external reachability signal
//! are turned into edge-triggered online/offline transition events.

use vstd::prelude::*;

verus! {

/// Tracks the last known reachability state and reports transitions.
///
/// A transition event is emitted only when a sample differs from the last
/// known state, never on every sample, so downstream work is not redone
/// while the state is steady. The probe itself is platform-provided; the
/// monitor consumes its boolean samples.
pub struct ConnectivityMonitor {
    online: bool,
}

impl ConnectivityMonitor {
    /// The last known reachability state.
    pub closed spec fn spec_online(self) -> bool {
        self.online
    }

    /// A fresh monitor starts offline until a sample says otherwise.
    pub fn new() -> (r: ConnectivityMonitor)
        ensures
            !r.spec_online(),
    {
        ConnectivityMonitor { online: false }
    }

    pub fn is_online(&self) -> (r: bool)
        ensures
            r == self.spec_online(),
    {
        self.online
    }

    /// Feeds one reachability sample. Returns `Some(new_state)` exactly on
    /// a transition, `None` while the state is steady.
    pub fn observe(&mut self, sample: bool) -> (r: Option<bool>)
        ensures
            final(self).spec_online() == sample,
            old(self).spec_online() == sample ==> r is None,
            old(self).spec_online() != sample ==> r == Some(sample),
    {
        let changed = self.online != sample;
        self.online = sample;
        if changed {
            Some(sample)
        } else {
            None
        }
    }
}

} // verus!
