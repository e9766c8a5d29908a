//! Handler registrations.
//!
//! An entry binds a stable identifier to a dispatch priority and a router.
//! The identifier is derived deterministically from the registering
//! function's identity by the application and is what deduplication,
//! replacement and equality go by; the callback itself stays with the
//! application, looked up by this identifier.  Entries are immutable after
//! registration.

use vstd::prelude::*;

use crate::queue::QueueItem;
use crate::router::RouterKind;
use crate::text::str_eq;

verus! {

/// A registration unit: a stable identifier, an integer priority (lower
/// dispatches first) and the router deciding which events it applies to.
pub struct Entry {
    pub id: String,
    pub priority: i8,
    pub router: RouterKind,
}

impl Entry {
    /// A registration under the given identifier.
    pub fn new(id: &str, priority: i8, router: RouterKind) -> (r: Entry)
        ensures
            r.id@ == id@,
            r.priority == priority,
            r.router == router,
    {
        Entry { id: id.to_owned(), priority, router }
    }

    /// The dispatch priority of this registration.
    pub fn get_priority(&self) -> (r: i8)
        ensures
            r == self.priority,
    {
        self.priority
    }

    /// The router of this registration.
    pub fn get_router(&self) -> (r: &RouterKind)
        ensures
            r == &self.router,
    {
        &self.router
    }
}

/// Entries compare equal exactly when their identifiers are equal.
impl PartialEq for Entry {
    fn eq(&self, other: &Self) -> (r: bool) {
        str_eq(self.id.as_str(), other.id.as_str())
    }
}

impl vstd::std_specs::cmp::PartialEqSpecImpl for Entry {
    open spec fn obeys_eq_spec() -> bool {
        true
    }

    open spec fn eq_spec(&self, other: &Entry) -> bool {
        self.id@ == other.id@
    }
}

/// In the dispatch queue, an entry's key is its identifier: pushing an
/// entry whose identifier is already pending replaces the old entry.
impl QueueItem for Entry {
    open spec fn key(&self) -> Seq<char> {
        self.id@
    }

    fn same_key(&self, other: &Self) -> (r: bool) {
        str_eq(self.id.as_str(), other.id.as_str())
    }
}

} // verus!
