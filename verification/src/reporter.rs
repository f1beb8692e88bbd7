//! The snapshot bus.
//!
//! Holds the latest generated resource set under a version number, and
//! mints a new version exactly when a published set differs structurally
//! from the held one.  Identical generator outputs across unchanged polling
//! cycles therefore collapse into a single version, and subscribers that
//! poll see a monotonically advancing version.

use vstd::prelude::*;
use crate::resources::{eq_resource_set, ResourceSet};

verus! {

/// Whether publishing `set` over `prev` mints a new version: it does unless
/// an equal set is already held.
pub open spec fn spec_changed(prev: Option<ResourceSet>, set: ResourceSet) -> bool {
    match prev {
        Some(c) => c.deep_view() != set.deep_view(),
        None => true,
    }
}

/// The versioned holder of the latest resource set.
pub struct Reporter {
    /// Counts the distinct snapshots published so far; zero before the
    /// first.
    pub version: u64,
    /// The latest published resource set.
    pub current: Option<ResourceSet>,
}

impl Reporter {
    /// An empty bus: nothing published, version zero.
    pub fn new() -> (r: Self)
        ensures
            r.version == 0,
            r.current is None,
    {
        Reporter { version: 0, current: None }
    }

    /// Publishes a resource set: replaces the held one, and mints a new
    /// version exactly when the set differs structurally from what was
    /// held.  Returns whether it did.
    pub fn publish(&mut self, set: ResourceSet) -> (changed: bool)
        requires
            old(self).version < u64::MAX,
        ensures
            changed == spec_changed(old(self).current, set),
            final(self).current == Some(set),
            final(self).version == if changed {
                (old(self).version + 1) as u64
            } else {
                old(self).version
            },
    {
        let changed = match &self.current {
            Some(held) => !eq_resource_set(held, &set),
            None => true,
        };
        if changed {
            self.version = self.version + 1;
        }
        self.current = Some(set);
        changed
    }

    /// What a subscriber that last saw `last_seen` is handed: the held set
    /// under its version when the bus has moved past `last_seen`, nothing
    /// otherwise.  Intermediate versions are never replayed: a slow reader
    /// sees only the latest, which the state-of-the-world protocol allows.
    pub fn poll(&self, last_seen: u64) -> (r: Option<(u64, &ResourceSet)>)
        ensures
            r is Some <==> self.current is Some && self.version > last_seen,
            r is Some ==> (r->0).0 == self.version && ((r->0).1).deep_view()
                == self.current->0.deep_view(),
    {
        if self.version > last_seen {
            match &self.current {
                Some(held) => Some((self.version, held)),
                None => None,
            }
        } else {
            None
        }
    }
}

/// Publishing the same contents twice mints exactly one version: after the
/// first publish the bus holds the set, and a second publish of a
/// structurally equal set changes nothing.
pub proof fn lemma_publish_twice_one_version(set: ResourceSet, again: ResourceSet)
    requires
        set.deep_view() == again.deep_view(),
    ensures
        !spec_changed(Some(set), again),
{
}

} // verus!
