//! The connection registry and the broadcast backlog.
//!
//! The registry is the identifier-indexed table of live transport
//! connections: the accept path registers a connection's identity and send
//! handle together, so a reader can never observe a half-initialized
//! connection; a read failure removes only that connection.  The backlog is
//! the bounded buffer behind the broadcast channel: publishing past its
//! bound drops the oldest pending event rather than blocking the reader
//! that publishes.

use vstd::prelude::*;

use crate::models::MessageEvent;
use crate::models::OnebotEvent;
use crate::text::str_eq;

verus! {

/// One live transport connection: its identity, extracted from the
/// handshake, and the opaque token under which the application holds the
/// connection's write side.  Both are set together, before the connection
/// is published into the registry.
pub struct Connection {
    pub id: String,
    pub handle: u64,
}

/// The identity a handshake yields: the identity header's value when the
/// peer sent one, and the empty identity otherwise — a missing header is
/// not a connection failure.
pub fn handshake_identity(header: Option<String>) -> (r: String)
    ensures
        match header {
            Some(h) => r@ == h@,
            None => r@ == Seq::<char>::empty(),
        },
{
    match header {
        Some(h) => h,
        None => String::new(),
    }
}

/// The identifier-to-handle table that a sequence of registrations builds:
/// a later registration under the same identifier replaces the earlier one.
pub open spec fn table(s: Seq<Connection>) -> Map<Seq<char>, u64>
    decreases s.len(),
{
    if s.len() == 0 {
        Map::empty()
    } else {
        table(s.drop_last()).insert(s.last().id@, s.last().handle)
    }
}

/// The registrations of `s` whose identifier is not `k`, in order.
pub open spec fn drop_conn_id(s: Seq<Connection>, k: Seq<char>) -> Seq<Connection>
    decreases s.len(),
{
    if s.len() == 0 {
        Seq::empty()
    } else {
        let rest = drop_conn_id(s.drop_last(), k);
        if s.last().id@ == k {
            rest
        } else {
            rest.push(s.last())
        }
    }
}

proof fn lemma_table_lookup(s: Seq<Connection>, k: Seq<char>, i: int)
    requires
        0 <= i < s.len(),
        s[i].id@ == k,
        forall|j: int| i < j < s.len() ==> (#[trigger] s[j]).id@ != k,
    ensures
        table(s).contains_key(k),
        table(s)[k] == s[i].handle,
    decreases s.len(),
{
    if i < s.len() - 1 {
        assert(s.drop_last()[i] == s[i]);
        assert forall|j: int| i < j < s.drop_last().len() implies (#[trigger] s.drop_last()[j]).id@
            != k by {
            assert(s.drop_last()[j] == s[j]);
        }
        lemma_table_lookup(s.drop_last(), k, i);
    }
}

proof fn lemma_table_absent(s: Seq<Connection>, k: Seq<char>)
    requires
        forall|j: int| 0 <= j < s.len() ==> (#[trigger] s[j]).id@ != k,
    ensures
        !table(s).contains_key(k),
    decreases s.len(),
{
    if s.len() > 0 {
        assert forall|j: int| 0 <= j < s.drop_last().len() implies (#[trigger] s.drop_last()[j]).id@
            != k by {
            assert(s.drop_last()[j] == s[j]);
        }
        lemma_table_absent(s.drop_last(), k);
    }
}

proof fn lemma_drop_conn_absent(s: Seq<Connection>, k: Seq<char>)
    requires
        forall|i: int| 0 <= i < s.len() ==> (#[trigger] s[i]).id@ != k,
    ensures
        drop_conn_id(s, k) == s,
    decreases s.len(),
{
    if s.len() > 0 {
        assert forall|i: int| 0 <= i < s.drop_last().len() implies (#[trigger] s.drop_last()[i]).id@
            != k by {
            assert(s.drop_last()[i] == s[i]);
        }
        lemma_drop_conn_absent(s.drop_last(), k);
        assert(drop_conn_id(s, k) =~= s.drop_last().push(s.last()));
        assert(s.drop_last().push(s.last()) =~= s);
    }
}

proof fn lemma_drop_conn_one(s: Seq<Connection>, k: Seq<char>, i: int)
    requires
        0 <= i < s.len(),
        s[i].id@ == k,
        forall|j: int| 0 <= j < i ==> (#[trigger] s[j]).id@ != k,
    ensures
        drop_conn_id(s, k) == drop_conn_id(s.remove(i), k),
    decreases s.len(),
{
    if i == s.len() - 1 {
        assert(s.remove(i) =~= s.drop_last());
    } else {
        assert(s.drop_last()[i] == s[i]);
        assert forall|j: int| 0 <= j < i implies (#[trigger] s.drop_last()[j]).id@ != k by {
            assert(s.drop_last()[j] == s[j]);
        }
        lemma_drop_conn_one(s.drop_last(), k, i);
        assert(s.remove(i).drop_last() =~= s.drop_last().remove(i));
        assert(s.remove(i).last() == s.last());
    }
}

/// Dropping an identifier from the registrations removes exactly that key
/// from the table they build.
proof fn lemma_table_drop(s: Seq<Connection>, k: Seq<char>)
    ensures
        table(drop_conn_id(s, k)) == table(s).remove(k),
    decreases s.len(),
{
    if s.len() == 0 {
        assert(table(drop_conn_id(s, k)) =~= table(s).remove(k));
    } else {
        lemma_table_drop(s.drop_last(), k);
        if s.last().id@ == k {
            assert(table(s).remove(k) =~= table(s.drop_last()).remove(k));
        } else {
            assert(drop_conn_id(s, k).drop_last() =~= drop_conn_id(s.drop_last(), k));
            assert(drop_conn_id(s, k).last() == s.last());
            assert(table(drop_conn_id(s, k)) == table(drop_conn_id(s.drop_last(), k)).insert(
                s.last().id@,
                s.last().handle,
            ));
            assert(table(s.drop_last()).remove(k).insert(s.last().id@, s.last().handle)
                =~= table(s).remove(k));
        }
    }
}

/// The shared lookup table of live connections, indexed by identity.
pub struct ConnectionRegistry {
    conns: Vec<Connection>,
}

impl View for ConnectionRegistry {
    type V = Map<Seq<char>, u64>;

    closed spec fn view(&self) -> Map<Seq<char>, u64> {
        table(self.conns@)
    }
}

impl ConnectionRegistry {
    /// A registry with no connections.
    pub fn new() -> (r: Self)
        ensures
            r@ == Map::<Seq<char>, u64>::empty(),
    {
        ConnectionRegistry { conns: Vec::new() }
    }

    /// Publish a connection: identity and send handle enter the table
    /// together.  Registering an identity again replaces its handle.
    pub fn register(&mut self, id: &str, handle: u64)
        ensures
            final(self)@ == old(self)@.insert(id@, handle),
    {
        self.conns.push(Connection { id: id.to_owned(), handle });
        proof {
            assert(self.conns@.drop_last() =~= old(self).conns@);
        }
    }

    /// The send handle of the connection registered under `id`, if one is.
    #[verifier::loop_isolation(false)]
    pub fn lookup(&self, id: &str) -> (r: Option<u64>)
        ensures
            match r {
                Some(h) => self@.contains_key(id@) && self@[id@] == h,
                None => !self@.contains_key(id@),
            },
    {
        let n = self.conns.len();
        let mut i: usize = n;
        while i > 0
            invariant
                0 <= i <= n,
                forall|j: int| i <= j < n ==> (#[trigger] self.conns@[j]).id@ != id@,
            decreases i,
        {
            i = i - 1;
            if str_eq(self.conns[i].id.as_str(), id) {
                proof {
                    lemma_table_lookup(self.conns@, id@, i as int);
                }
                return Some(self.conns[i].handle);
            }
        }
        proof {
            lemma_table_absent(self.conns@, id@);
        }
        None
    }

    /// Remove the connection registered under `id`, if any: a read failure
    /// or an explicit close takes only that connection out of the table.
    #[verifier::loop_isolation(false)]
    pub fn remove(&mut self, id: &str)
        ensures
            final(self)@ == old(self)@.remove(id@),
    {
        let ghost s0 = self.conns@;
        let mut i: usize = 0;
        while i < self.conns.len()
            invariant
                0 <= i <= self.conns@.len(),
                forall|j: int| 0 <= j < i ==> (#[trigger] self.conns@[j]).id@ != id@,
                drop_conn_id(self.conns@, id@) == drop_conn_id(s0, id@),
            decreases self.conns@.len() - i,
        {
            if str_eq(self.conns[i].id.as_str(), id) {
                proof {
                    lemma_drop_conn_one(self.conns@, id@, i as int);
                }
                self.conns.remove(i);
            } else {
                i = i + 1;
            }
        }
        proof {
            lemma_drop_conn_absent(self.conns@, id@);
            lemma_table_drop(s0, id@);
        }
    }

}

/// The bounded buffer behind the broadcast channel, oldest event first.
/// Publishing past the bound drops the oldest pending event: a stalled
/// consumer can never block the connection read loops.
pub struct Backlog<T> {
    items: Vec<T>,
    capacity: usize,
}

impl<T> View for Backlog<T> {
    type V = Seq<T>;

    closed spec fn view(&self) -> Seq<T> {
        self.items@
    }
}

impl<T> Backlog<T> {
    /// The bound the backlog was created with.
    pub closed spec fn spec_capacity(&self) -> int {
        self.capacity as int
    }

    #[verifier::type_invariant]
    spec fn wf(self) -> bool {
        self.capacity >= 1 && self.items@.len() <= self.capacity
    }

    /// An empty backlog holding at most `capacity` pending events.
    pub fn new(capacity: usize) -> (r: Self)
        requires
            capacity >= 1,
        ensures
            r@ == Seq::<T>::empty(),
            r.spec_capacity() == capacity,
    {
        Backlog { items: Vec::new(), capacity }
    }

    /// Publish one event.  Under the bound it queues behind the pending
    /// ones; at the bound the oldest pending event is dropped to make room,
    /// and the publisher never waits.
    pub fn publish(&mut self, item: T)
        ensures
            final(self).spec_capacity() == old(self).spec_capacity(),
            old(self)@.len() < old(self).spec_capacity() ==> final(self)@ == old(self)@.push(item),
            old(self)@.len() >= old(self).spec_capacity() ==> final(self)@
                == old(self)@.drop_first().push(item),
            final(self)@.len() <= final(self).spec_capacity(),
    {
        proof {
            use_type_invariant(&*self);
        }
        let mut items: Vec<T> = Vec::new();
        core::mem::swap(&mut items, &mut self.items);
        if items.len() == self.capacity {
            items.remove(0);
            proof {
                assert(items@ =~= old(self)@.drop_first());
            }
        }
        items.push(item);
        core::mem::swap(&mut items, &mut self.items);
    }

    /// Take the oldest pending event; `None` exactly when none is pending.
    pub fn pop_oldest(&mut self) -> (r: Option<T>)
        ensures
            final(self).spec_capacity() == old(self).spec_capacity(),
            old(self)@.len() == 0 ==> r is None && final(self)@ == old(self)@,
            old(self)@.len() > 0 ==> r == Some(old(self)@[0]) && final(self)@
                == old(self)@.drop_first(),
    {
        proof {
            use_type_invariant(&*self);
        }
        if self.items.len() == 0 {
            return None;
        }
        let mut items: Vec<T> = Vec::new();
        core::mem::swap(&mut items, &mut self.items);
        let oldest = items.remove(0);
        core::mem::swap(&mut items, &mut self.items);
        proof {
            assert(self.items@ =~= old(self)@.drop_first());
        }
        Some(oldest)
    }

    /// How many events are pending.
    pub fn len(&self) -> (r: usize)
        ensures
            r == self@.len(),
    {
        self.items.len()
    }
}

/// One inbound frame, as the transport adapter hands it to the read loop's
/// decision step: already decoded, since wire decoding is the adapter's
/// work.
pub enum InboundFrame {
    /// The frame did not carry text.
    NotText,
    /// The text was not a well-formed record.
    Malformed,
    /// A well-formed record that is not a message.
    NotMessage,
    /// A well-formed message record.
    Message(MessageEvent),
}

/// Whether the read loop published an event for a frame.
#[derive(PartialEq, Eq, Structural, Clone, Copy, Debug)]
pub enum IngestOutcome {
    /// The frame became an event on the broadcast backlog.
    Published,
    /// The frame was dropped; the connection stays open and the backlog is
    /// untouched.
    Dropped,
}

/// The read loop's decision for one frame from connection `origin`: a
/// message becomes an event bound to its origin and is published; anything
/// else — a non-text frame, a malformed frame, a non-message record — is
/// dropped without touching the backlog, so a bad frame on one connection
/// never disturbs events already buffered from the others.
pub fn ingest_frame(backlog: &mut Backlog<OnebotEvent>, origin: u64, frame: InboundFrame) -> (r:
    IngestOutcome)
    ensures
        final(backlog).spec_capacity() == old(backlog).spec_capacity(),
        match frame {
            InboundFrame::Message(m) => {
                let event = OnebotEvent { plain_data: m, origin };
                &&& r == IngestOutcome::Published
                &&& old(backlog)@.len() < old(backlog).spec_capacity() ==> final(backlog)@ == old(
                    backlog,
                )@.push(event)
                &&& old(backlog)@.len() >= old(backlog).spec_capacity() ==> final(backlog)@ == old(
                    backlog,
                )@.drop_first().push(event)
            },
            _ => r == IngestOutcome::Dropped && final(backlog)@ == old(backlog)@,
        },
{
    match frame {
        InboundFrame::Message(m) => {
            backlog.publish(OnebotEvent { plain_data: m, origin });
            IngestOutcome::Published
        },
        _ => IngestOutcome::Dropped,
    }
}

} // verus!
