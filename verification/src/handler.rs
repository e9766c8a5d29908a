//! The handler registry and dispatcher.
//!
//! A `Handler` owns the registered entries, mutated only during setup and
//! read-only once dispatch begins.  For one event it evaluates every
//! entry's router, queues each match into a fresh dispatch queue, and the
//! drained queue is the invocation order: by priority, and latest queued
//! first among equal priorities.  The application drives the callbacks,
//! awaiting each before the next, and stops the chain on the first failure.

use vstd::prelude::*;

use crate::entry::Entry;
use crate::event::ContentView;
use crate::event::Event;
use crate::queue::EventEntry;
use crate::queue::EventQueue;
use crate::queue::QueueItem;
use crate::queue::drained;
use crate::queue::lemma_drained_sorted;
use crate::queue::pushed;
use crate::router::kind_matches;
use crate::text::str_eq;

verus! {

/// One matched registration, as the dispatch queue carries it: the entry's
/// stable identifier and the priority it was registered with.  The
/// application resolves the identifier back to its callback.
pub struct Ticket {
    pub id: String,
    pub priority: i8,
}

impl QueueItem for Ticket {
    open spec fn key(&self) -> Seq<char> {
        self.id@
    }

    fn same_key(&self, other: &Self) -> (r: bool) {
        str_eq(self.id.as_str(), other.id.as_str())
    }
}

impl Clone for Ticket {
    /// A clone is the same ticket.
    fn clone(&self) -> (res: Self)
        ensures
            res == *self,
    {
        Ticket { id: self.id.clone(), priority: self.priority }
    }
}

/// The ticket a registration queues under.
pub open spec fn ticket_of(e: Entry) -> Ticket {
    Ticket { id: e.id, priority: e.priority }
}

/// The dispatch queue that matching the registered entries against content
/// `c` fills: each matching entry is pushed in registration order, at its
/// priority, keyed by its identifier (so among entries sharing one
/// identifier the last registered wins).
pub open spec fn matched_queue(entries: Seq<Entry>, c: ContentView) -> Seq<EventEntry<Ticket>>
    decreases entries.len(),
{
    if entries.len() == 0 {
        Seq::empty()
    } else {
        let prev = matched_queue(entries.drop_last(), c);
        let e = entries.last();
        if kind_matches(e.router, c) {
            pushed(prev, e.priority, ticket_of(e))
        } else {
            prev
        }
    }
}

/// The set of all entries known to the runtime.
pub struct Handler {
    pub entries: Vec<Entry>,
}

impl Handler {
    /// A registry holding the given entries, in registration order.
    pub fn new(entries: Vec<Entry>) -> (r: Self)
        ensures
            r.entries@ == entries@,
    {
        Handler { entries }
    }

    /// A registry with nothing registered.
    pub fn empty() -> (r: Self)
        ensures
            r.entries@ == Seq::<Entry>::empty(),
    {
        Handler { entries: Vec::new() }
    }

    /// Register more entries, after the ones already held.  Only the setup
    /// phase calls this; once dispatch begins the registry is read-only.
    pub fn extend(&mut self, more: Vec<Entry>)
        ensures
            final(self).entries@ == old(self).entries@ + more@,
    {
        let mut more = more;
        self.entries.append(&mut more);
    }

    /// Match one event against every registered entry: the returned queue
    /// holds exactly the matching entries' tickets, in registration order
    /// at their priorities.
    #[verifier::loop_isolation(false)]
    pub fn matches<E: Event>(&self, event: &E) -> (q: EventQueue<Ticket>)
        ensures
            q@ == matched_queue(self.entries@, event.content_view()),
    {
        let c = event.content();
        let mut q: EventQueue<Ticket> = EventQueue::new();
        let n = self.entries.len();
        let mut i: usize = 0;
        while i < n
            invariant
                0 <= i <= n,
                q@ == matched_queue(self.entries@.subrange(0, i as int), c@),
            decreases n - i,
        {
            let e = &self.entries[i];
            if e.router.content_applies(&c) {
                q.push(e.priority, Ticket { id: e.id.clone(), priority: e.priority });
            }
            i += 1;
            proof {
                let sub = self.entries@.subrange(0, i as int);
                assert(sub.drop_last() =~= self.entries@.subrange(0, i - 1));
                assert(sub.last() == self.entries@[i - 1]);
            }
        }
        proof {
            assert(self.entries@.subrange(0, n as int) =~= self.entries@);
        }
        q
    }

    /// The invocation order for one event: every matching entry's ticket,
    /// by priority first; among equal priorities the entry queued latest
    /// goes first.  The application invokes each callback in this order,
    /// awaiting each before the next, and stops the chain at the first
    /// failing callback.
    pub fn dispatch_order<E: Event>(&self, event: &E) -> (r: Vec<Ticket>)
        ensures
            ({
                let d = drained(matched_queue(self.entries@, event.content_view()));
                &&& r@.len() == d.len()
                &&& forall|k: int| 0 <= k < d.len() ==> r@[k] == d[k].item
            }),
    {
        let mut q = self.matches(event);
        let ghost q0 = q@;
        let ghost mut done: Seq<EventEntry<Ticket>> = Seq::empty();
        let mut r: Vec<Ticket> = Vec::new();
        proof {
            assert(done + drained(q@) =~= drained(q@));
        }
        loop
            invariant
                drained(q0) == done + drained(q@),
                r@.len() == done.len(),
                forall|k: int| 0 <= k < done.len() ==> r@[k] == done[k].item,
            ensures
                q@.len() == 0,
                drained(q0) == done,
            decreases q@.len(),
        {
            let ghost pending = q@;
            match q.pop() {
                Some(t) => {
                    proof {
                        let i = crate::queue::pop_index(pending);
                        crate::queue::lemma_pop_index(pending);
                        assert(drained(pending) == seq![pending[i]] + drained(pending.remove(i)));
                        done = done.push(pending[i]);
                        assert(drained(q0) =~= done + drained(q@));
                    }
                    r.push(t);
                },
                None => {
                    proof {
                        assert(drained(q@) =~= Seq::<EventEntry<Ticket>>::empty());
                        assert(drained(q0) =~= done);
                    }
                    break ;
                },
            }
        }
        r
    }
}

/// Law: dispatch order is deterministic and priority-first.  In the order
/// computed for one event, a ticket never stands after one of larger
/// priority; with the queue's stability, equal priorities keep their
/// registration order.
pub proof fn lemma_dispatch_priority_order(entries: Seq<Entry>, c: ContentView, a: int, b: int)
    requires
        0 <= a <= b < drained(matched_queue(entries, c)).len(),
    ensures
        drained(matched_queue(entries, c))[a].priority <= drained(matched_queue(entries, c))[b].priority,
{
    lemma_drained_sorted(matched_queue(entries, c), a, b);
}

/// The matched queue never holds two tickets with one identifier.
pub proof fn lemma_matched_queue_unique(entries: Seq<Entry>, c: ContentView)
    ensures
        crate::queue::unique_keys(matched_queue(entries, c)),
    decreases entries.len(),
{
    if entries.len() > 0 {
        lemma_matched_queue_unique(entries.drop_last(), c);
        if kind_matches(entries.last().router, c) {
            crate::queue::lemma_pushed_unique(
                matched_queue(entries.drop_last(), c),
                entries.last().priority,
                ticket_of(entries.last()),
            );
        }
    }
}

/// Law: matching is sound.  Every ticket the matching step queues is the
/// ticket of a registered entry whose router accepts the content, at that
/// entry's priority.
pub proof fn lemma_matched_queue_sound(entries: Seq<Entry>, c: ContentView, i: int)
    requires
        0 <= i < matched_queue(entries, c).len(),
    ensures
        exists|j: int|
            0 <= j < entries.len() && kind_matches((#[trigger] entries[j]).router, c)
                && matched_queue(entries, c)[i].item == ticket_of(entries[j]) && matched_queue(
                entries,
                c,
            )[i].priority == entries[j].priority,
    decreases entries.len(),
{
    let mq = matched_queue(entries, c);
    let prev = matched_queue(entries.drop_last(), c);
    let e = entries.last();
    if kind_matches(e.router, c) {
        let dk = crate::queue::drop_key(prev, ticket_of(e).key());
        if i == mq.len() - 1 {
            assert(mq[i].item == ticket_of(entries[entries.len() - 1]));
            assert(kind_matches(entries[entries.len() - 1].router, c));
        } else {
            assert(mq[i] == dk[i]);
            crate::queue::lemma_drop_key_membership(prev, ticket_of(e).key(), i);
            let m = choose|m: int| 0 <= m < prev.len() && #[trigger] prev[m] == dk[i];
            lemma_matched_queue_sound(entries.drop_last(), c, m);
            let j = choose|j: int|
                0 <= j < entries.drop_last().len() && kind_matches(
                    (#[trigger] entries.drop_last()[j]).router,
                    c,
                ) && prev[m].item == ticket_of(entries.drop_last()[j]) && prev[m].priority
                    == entries.drop_last()[j].priority;
            assert(entries[j] == entries.drop_last()[j]);
            assert(kind_matches(entries[j].router, c));
        }
    } else {
        assert(mq == prev);
        lemma_matched_queue_sound(entries.drop_last(), c, i);
        let j = choose|j: int|
            0 <= j < entries.drop_last().len() && kind_matches(
                (#[trigger] entries.drop_last()[j]).router,
                c,
            ) && prev[i].item == ticket_of(entries.drop_last()[j]) && prev[i].priority
                == entries.drop_last()[j].priority;
        assert(entries[j] == entries.drop_last()[j]);
        assert(kind_matches(entries[j].router, c));
    }
}

/// Law: matching is complete.  Every registered entry whose router accepts
/// the content keeps a ticket with its identifier in the matched queue.
pub proof fn lemma_matched_queue_complete(entries: Seq<Entry>, c: ContentView, j: int)
    requires
        0 <= j < entries.len(),
        kind_matches(entries[j].router, c),
    ensures
        exists|i: int|
            0 <= i < matched_queue(entries, c).len() && (#[trigger] matched_queue(entries, c)[i]).item.key()
                == entries[j].id@,
    decreases entries.len(),
{
    let mq = matched_queue(entries, c);
    let prev = matched_queue(entries.drop_last(), c);
    let e = entries.last();
    if kind_matches(e.router, c) {
        let k = ticket_of(e).key();
        if entries[j].id@ == e.id@ {
            assert(mq[mq.len() - 1].item.key() == entries[j].id@);
        } else {
            assert(j < entries.len() - 1);
            assert(entries.drop_last()[j] == entries[j]);
            lemma_matched_queue_complete(entries.drop_last(), c, j);
            let i = choose|i: int|
                0 <= i < prev.len() && (#[trigger] prev[i]).item.key() == entries[j].id@;
            crate::queue::lemma_drop_key_keeps(prev, k, i);
            let dk = crate::queue::drop_key(prev, k);
            let m = choose|m: int| 0 <= m < dk.len() && #[trigger] dk[m] == prev[i];
            assert(mq[m] == dk[m]);
            assert(mq[m].item.key() == entries[j].id@);
        }
    } else {
        assert(j < entries.len() - 1);
        assert(entries.drop_last()[j] == entries[j]);
        lemma_matched_queue_complete(entries.drop_last(), c, j);
    }
}

/// Law: at most once per handler per event.  No two positions of one
/// event's dispatch order carry the same identifier, so no callback is
/// invoked twice for one event.
pub proof fn lemma_dispatch_at_most_once(entries: Seq<Entry>, c: ContentView, a: int, b: int)
    requires
        0 <= a < b < drained(matched_queue(entries, c)).len(),
    ensures
        drained(matched_queue(entries, c))[a].item.id@ != drained(matched_queue(entries, c))[b].item.id@,
{
    lemma_matched_queue_unique(entries, c);
    crate::queue::lemma_drained_unique_keys(matched_queue(entries, c), a, b);
}

} // verus!
