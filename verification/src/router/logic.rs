//! Logical combinators over routers.

use vstd::prelude::*;

use crate::event::ContentView;
use crate::event::Event;
use crate::router::Router;
use crate::router::RouterKind;
use crate::router::kind_matches;

verus! {

/// The catch-all router: accepts every event.
pub struct AllRouter;

impl Router for AllRouter {
    open spec fn spec_matches(&self, c: ContentView) -> bool {
        true
    }

    fn matches<E: Event>(&self, event: &E) -> (r: bool) {
        true
    }
}

impl Default for AllRouter {
    /// The default catch-all router.
    fn default() -> (r: Self) {
        AllRouter
    }
}

/// Accepts an event when at least one child router accepts it; with no
/// children it accepts nothing.
pub struct AnyRouter {
    pub routers: Vec<RouterKind>,
}

impl AnyRouter {
    pub fn new(routers: Vec<RouterKind>) -> (r: Self)
        ensures
            r.routers@ == routers@,
    {
        AnyRouter { routers }
    }
}

impl Router for AnyRouter {
    open spec fn spec_matches(&self, c: ContentView) -> bool {
        exists|i: int| 0 <= i < self.routers@.len() && kind_matches(#[trigger] self.routers@[i], c)
    }

    #[verifier::loop_isolation(false)]
    fn matches<E: Event>(&self, event: &E) -> (r: bool) {
        let c = event.content();
        let n = self.routers.len();
        let mut i: usize = 0;
        while i < n
            invariant
                0 <= i <= n,
                n == self.routers@.len(),
                forall|j: int| 0 <= j < i ==> !kind_matches(#[trigger] self.routers@[j], c@),
            decreases n - i,
        {
            if self.routers[i].content_applies(&c) {
                proof {
                    assert(kind_matches(self.routers@[i as int], c@));
                }
                return true;
            }
            i += 1;
        }
        false
    }
}

} // verus!
