//! Content matchers: exact equality and the three substring relations.

use vstd::prelude::*;

use crate::event::Content;
use crate::event::ContentView;
use crate::event::Event;
use crate::event::content_view_eq;
use crate::router::Router;
use crate::text::text_contains;

verus! {

/// Accepts content equal to `pattern`: the same shape carrying the same
/// value.  Content of another shape is a miss, not an error.
pub struct ExactMatchRouter {
    pub pattern: Content,
}

impl ExactMatchRouter {
    pub fn new(pattern: Content) -> (r: Self)
        ensures
            r.pattern == pattern,
    {
        ExactMatchRouter { pattern }
    }
}

impl Router for ExactMatchRouter {
    open spec fn spec_matches(&self, c: ContentView) -> bool {
        content_view_eq(self.pattern@, c)
    }

    fn matches<E: Event>(&self, event: &E) -> (r: bool) {
        let c = event.content();
        crate::event::content_eq(&self.pattern, &c)
    }
}

/// Accepts text content that starts with `pattern`.
pub struct StartsWithRouter {
    pub pattern: String,
}

impl StartsWithRouter {
    pub fn new(pattern: &str) -> (r: Self)
        ensures
            r.pattern@ == pattern@,
    {
        StartsWithRouter { pattern: pattern.to_owned() }
    }
}

impl Router for StartsWithRouter {
    open spec fn spec_matches(&self, c: ContentView) -> bool {
        match c {
            ContentView::Text(t) => self.pattern@.is_prefix_of(t),
            _ => false,
        }
    }

    fn matches<E: Event>(&self, event: &E) -> (r: bool) {
        match event.content() {
            Content::Text(t) => crate::text::str_starts_with(t.as_str(), self.pattern.as_str()),
            _ => false,
        }
    }
}

/// Accepts text content that contains `pattern`.
pub struct ContainsRouter {
    pub pattern: String,
}

impl ContainsRouter {
    pub fn new(pattern: &str) -> (r: Self)
        ensures
            r.pattern@ == pattern@,
    {
        ContainsRouter { pattern: pattern.to_owned() }
    }
}

impl Router for ContainsRouter {
    open spec fn spec_matches(&self, c: ContentView) -> bool {
        match c {
            ContentView::Text(t) => text_contains(t, self.pattern@),
            _ => false,
        }
    }

    fn matches<E: Event>(&self, event: &E) -> (r: bool) {
        match event.content() {
            Content::Text(t) => crate::text::str_contains(t.as_str(), self.pattern.as_str()),
            _ => false,
        }
    }
}

/// Accepts text content that ends with `pattern`.
pub struct EndsWithRouter {
    pub pattern: String,
}

impl EndsWithRouter {
    pub fn new(pattern: &str) -> (r: Self)
        ensures
            r.pattern@ == pattern@,
    {
        EndsWithRouter { pattern: pattern.to_owned() }
    }
}

impl Router for EndsWithRouter {
    open spec fn spec_matches(&self, c: ContentView) -> bool {
        match c {
            ContentView::Text(t) => self.pattern@.is_suffix_of(t),
            _ => false,
        }
    }

    fn matches<E: Event>(&self, event: &E) -> (r: bool) {
        match event.content() {
            Content::Text(t) => crate::text::str_ends_with(t.as_str(), self.pattern.as_str()),
            _ => false,
        }
    }
}

} // verus!
