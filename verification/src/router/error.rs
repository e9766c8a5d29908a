//! Routing failures to dedicated error handlers.

use vstd::prelude::*;

use crate::event::Content;
use crate::event::ContentView;
use crate::event::Event;
use crate::router::Router;
use crate::text::str_eq;

verus! {

/// Accepts an event whose content is a fault of the given kind, so that
/// failures raised elsewhere in the pipeline reach their error handlers.
pub struct ErrorRouter {
    pub kind: String,
}

impl ErrorRouter {
    pub fn new(kind: &str) -> (r: Self)
        ensures
            r.kind@ == kind@,
    {
        ErrorRouter { kind: kind.to_owned() }
    }
}

impl Router for ErrorRouter {
    open spec fn spec_matches(&self, c: ContentView) -> bool {
        match c {
            ContentView::Fault { kind, message: _ } => kind == self.kind@,
            _ => false,
        }
    }

    fn matches<E: Event>(&self, event: &E) -> (r: bool) {
        match event.content() {
            Content::Fault { kind, message: _ } => str_eq(kind.as_str(), self.kind.as_str()),
            _ => false,
        }
    }
}

} // verus!
