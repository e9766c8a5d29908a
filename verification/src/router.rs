//! The router predicate algebra.
//!
//! A router is a stateless, side-effect-free predicate over one event,
//! decided by the event's content alone.  Routers compose: `AnyRouter`
//! accepts when at least one child accepts, `AllRouter` accepts everything.
//! A content payload of the wrong shape is a routing miss, never a fault.

use vstd::prelude::*;

use crate::event::Content;
use crate::event::ContentView;
use crate::event::Event;
use crate::event::content_view_eq;
use crate::text::str_eq;

mod command;
mod error;
mod logic;
mod matcher;

pub use command::CommandRouter;
pub use error::ErrorRouter;
pub use logic::AllRouter;
pub use logic::AnyRouter;
pub use matcher::ContainsRouter;
pub use matcher::EndsWithRouter;
pub use matcher::ExactMatchRouter;
pub use matcher::StartsWithRouter;

verus! {

/// A predicate over an event, deciding whether a handler applies to it.
pub trait Router {
    /// Which content payloads this router accepts.
    spec fn spec_matches(&self, c: ContentView) -> bool;

    /// Does this router accept the event?  Pure: the answer is a function
    /// of the event's content alone.
    fn matches<E: Event>(&self, event: &E) -> (r: bool)
        ensures
            r == self.spec_matches(event.content_view());
}

/// One router of any of the known kinds, as a value.  Registrations own
/// their router through this type, and `AnyRouter` composes over it.
pub enum RouterKind {
    All(AllRouter),
    Any(AnyRouter),
    Exact(ExactMatchRouter),
    StartsWith(StartsWithRouter),
    Contains(ContainsRouter),
    EndsWith(EndsWithRouter),
    Command(CommandRouter),
    Error(ErrorRouter),
    /// A plain string routes as an exact match on text content.
    Text(String),
}

/// What a router of each kind accepts.
pub open spec fn kind_matches(r: RouterKind, c: ContentView) -> bool
    decreases r,
{
    match r {
        RouterKind::All(_) => true,
        RouterKind::Any(a) => exists|i: int|
            0 <= i < a.routers@.len() && kind_matches(#[trigger] a.routers@[i], c),
        RouterKind::Exact(x) => x.spec_matches(c),
        RouterKind::StartsWith(x) => x.spec_matches(c),
        RouterKind::Contains(x) => x.spec_matches(c),
        RouterKind::EndsWith(x) => x.spec_matches(c),
        RouterKind::Command(x) => x.spec_matches(c),
        RouterKind::Error(x) => x.spec_matches(c),
        RouterKind::Text(s) => content_view_eq(ContentView::Text(s@), c),
    }
}

impl RouterKind {
    /// Does this router accept the given content?
    #[verifier::loop_isolation(false)]
    pub fn content_applies(&self, c: &Content) -> (r: bool)
        ensures
            r == kind_matches(*self, c@),
        decreases *self,
    {
        match self {
            RouterKind::All(_) => true,
            RouterKind::Any(a) => {
                let n = a.routers.len();
                let mut i: usize = 0;
                while i < n
                    invariant
                        0 <= i <= n,
                        n == a.routers@.len(),
                        forall|j: int| 0 <= j < i ==> !kind_matches(#[trigger] a.routers@[j], c@),
                    decreases n - i,
                {
                    if a.routers[i].content_applies(c) {
                        proof {
                            assert(kind_matches(a.routers@[i as int], c@));
                        }
                        return true;
                    }
                    i += 1;
                }
                false
            },
            RouterKind::Exact(x) => crate::event::content_eq(&x.pattern, c),
            RouterKind::StartsWith(x) => match c {
                Content::Text(t) => crate::text::str_starts_with(t.as_str(), x.pattern.as_str()),
                _ => false,
            },
            RouterKind::Contains(x) => match c {
                Content::Text(t) => crate::text::str_contains(t.as_str(), x.pattern.as_str()),
                _ => false,
            },
            RouterKind::EndsWith(x) => match c {
                Content::Text(t) => crate::text::str_ends_with(t.as_str(), x.pattern.as_str()),
                _ => false,
            },
            RouterKind::Command(x) => match c {
                Content::Text(t) => x.text_applies(t.as_str()),
                _ => false,
            },
            RouterKind::Error(x) => match c {
                Content::Fault { kind, message: _ } => str_eq(kind.as_str(), x.kind.as_str()),
                _ => false,
            },
            RouterKind::Text(s) => match c {
                Content::Text(t) => str_eq(t.as_str(), s.as_str()),
                _ => false,
            },
        }
    }
}

impl Router for RouterKind {
    open spec fn spec_matches(&self, c: ContentView) -> bool {
        kind_matches(*self, c)
    }

    fn matches<E: Event>(&self, event: &E) -> (r: bool) {
        let c = event.content();
        self.content_applies(&c)
    }
}

/// A plain string is a router: it accepts exactly the text content that
/// equals it.
impl Router for String {
    open spec fn spec_matches(&self, c: ContentView) -> bool {
        content_view_eq(ContentView::Text(self@), c)
    }

    fn matches<E: Event>(&self, event: &E) -> (r: bool) {
        match event.content() {
            Content::Text(t) => str_eq(t.as_str(), self.as_str()),
            _ => false,
        }
    }
}

} // verus!
