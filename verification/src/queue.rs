//! The stable min-priority dispatch queue.
//!
//! Lower numeric priority pops first; among equal priorities, the entry
//! pushed latest pops first.  Pushing an item whose key is already queued
//! replaces the old entry (last write wins, re-queued at the new priority
//! and position), and `remove` invalidates a pending entry so that no later
//! `pop` returns it.
//!
//! The queue's view is the sequence of pending entries in insertion order;
//! every contract below is stated over that sequence.

use vstd::prelude::*;

verus! {

/// An item the dispatch queue can hold.  Each item carries a key — its
/// identity — and push/replace/remove compare items by that key alone.
pub trait QueueItem {
    /// The identity of the item, as deduplication and removal see it.
    spec fn key(&self) -> Seq<char>;

    /// Executable comparison of two items' keys.
    fn same_key(&self, other: &Self) -> (r: bool)
        ensures
            r == (self.key() == other.key());
}

/// A plain string is its own key.
impl QueueItem for &str {
    open spec fn key(&self) -> Seq<char> {
        self@
    }

    fn same_key(&self, other: &Self) -> (r: bool) {
        crate::text::str_eq(self, other)
    }
}

/// One pending entry: an item bound to the priority it was pushed with.
/// Its position in the queue's view records the insertion order.
pub struct EventEntry<T> {
    pub priority: i8,
    pub item: T,
}

/// No two pending entries share a key.
pub open spec fn unique_keys<T: QueueItem>(s: Seq<EventEntry<T>>) -> bool {
    forall|i: int, j: int|
        0 <= i < j < s.len() ==> (#[trigger] s[i]).item.key() != (#[trigger] s[j]).item.key()
}

/// The pending entries of `s` whose key is not `k`, in order.
pub open spec fn drop_key<T: QueueItem>(s: Seq<EventEntry<T>>, k: Seq<char>) -> Seq<EventEntry<T>>
    decreases s.len(),
{
    if s.len() == 0 {
        Seq::empty()
    } else {
        let rest = drop_key(s.drop_last(), k);
        if s.last().item.key() == k {
            rest
        } else {
            rest.push(s.last())
        }
    }
}

/// The pending entries of `s` whose key is `k`, in order.
pub open spec fn with_key<T: QueueItem>(s: Seq<EventEntry<T>>, k: Seq<char>) -> Seq<EventEntry<T>>
    decreases s.len(),
{
    if s.len() == 0 {
        Seq::empty()
    } else {
        let rest = with_key(s.drop_last(), k);
        if s.last().item.key() == k {
            rest.push(s.last())
        } else {
            rest
        }
    }
}

/// What one push leaves behind: any entry with the same key goes, and the
/// new entry joins at the back (so a replaced entry also loses its place).
pub open spec fn pushed<T: QueueItem>(
    s: Seq<EventEntry<T>>,
    priority: i8,
    item: T,
) -> Seq<EventEntry<T>> {
    drop_key(s, item.key()).push(EventEntry { priority, item })
}

/// Index `i` is the one `pop` takes: minimal priority, and strictly the
/// last position among entries of that priority.
pub open spec fn is_pop_index<T: QueueItem>(s: Seq<EventEntry<T>>, i: int) -> bool {
    &&& 0 <= i < s.len()
    &&& forall|j: int| 0 <= j < s.len() ==> s[i].priority <= (#[trigger] s[j]).priority
    &&& forall|j: int| i < j < s.len() ==> s[i].priority < (#[trigger] s[j]).priority
}

/// The index `pop` takes, as a function of the pending sequence.
pub open spec fn pop_index<T: QueueItem>(s: Seq<EventEntry<T>>) -> int
    decreases s.len(),
{
    if s.len() <= 1 {
        0
    } else {
        let r = 1 + pop_index(s.drop_first());
        if s[0].priority < s[r].priority {
            0
        } else {
            r
        }
    }
}

/// `pop_index` indeed picks the last entry of minimal priority.
pub proof fn lemma_pop_index<T: QueueItem>(s: Seq<EventEntry<T>>)
    requires
        s.len() > 0,
    ensures
        is_pop_index(s, pop_index(s)),
    decreases s.len(),
{
    if s.len() > 1 {
        let t = s.drop_first();
        lemma_pop_index(t);
        let r = 1 + pop_index(t);
        assert(is_pop_index(t, r - 1));
        assert(t[r - 1] == s[r]);
        assert forall|j: int| 1 <= j < s.len() implies s[r].priority <= (#[trigger] s[j]).priority by {
            assert(t[j - 1] == s[j]);
            assert(t[r - 1].priority <= t[j - 1].priority);
        }
        assert forall|j: int| r < j < s.len() implies s[r].priority < (#[trigger] s[j]).priority by {
            assert(t[j - 1] == s[j]);
            assert(t[r - 1].priority < t[j - 1].priority);
        }
    }
}

/// Two pop indices are the same index.
pub proof fn lemma_pop_index_unique<T: QueueItem>(s: Seq<EventEntry<T>>, i: int, j: int)
    requires
        is_pop_index(s, i),
        is_pop_index(s, j),
    ensures
        i == j,
{
    if i < j {
        assert(s[i].priority < s[j].priority);
        assert(s[j].priority <= s[i].priority);
    }
    if j < i {
        assert(s[j].priority < s[i].priority);
        assert(s[i].priority <= s[j].priority);
    }
}

/// If no pending entry has key `k`, dropping `k` changes nothing.
pub proof fn lemma_drop_key_absent<T: QueueItem>(s: Seq<EventEntry<T>>, k: Seq<char>)
    requires
        forall|i: int| 0 <= i < s.len() ==> (#[trigger] s[i]).item.key() != k,
    ensures
        drop_key(s, k) == s,
    decreases s.len(),
{
    if s.len() > 0 {
        assert forall|i: int| 0 <= i < s.drop_last().len() implies (#[trigger] s.drop_last()[i]).item.key()
            != k by {
            assert(s.drop_last()[i] == s[i]);
        }
        lemma_drop_key_absent(s.drop_last(), k);
        assert(drop_key(s, k) =~= s.drop_last().push(s.last()));
        assert(s.drop_last().push(s.last()) =~= s);
    }
}

/// If exactly the entry at `i` has key `k`, dropping `k` removes just it.
pub proof fn lemma_drop_key_one<T: QueueItem>(s: Seq<EventEntry<T>>, k: Seq<char>, i: int)
    requires
        0 <= i < s.len(),
        s[i].item.key() == k,
        forall|j: int| 0 <= j < s.len() && j != i ==> (#[trigger] s[j]).item.key() != k,
    ensures
        drop_key(s, k) == s.remove(i),
    decreases s.len(),
{
    if i == s.len() - 1 {
        assert forall|j: int| 0 <= j < s.drop_last().len() implies (#[trigger] s.drop_last()[j]).item.key()
            != k by {
            assert(s.drop_last()[j] == s[j]);
        }
        lemma_drop_key_absent(s.drop_last(), k);
        assert(drop_key(s, k) =~= s.remove(i));
    } else {
        assert forall|j: int| 0 <= j < s.drop_last().len() && j != i implies (#[trigger] s.drop_last()[j]).item.key()
            != k by {
            assert(s.drop_last()[j] == s[j]);
        }
        assert(s.drop_last()[i] == s[i]);
        lemma_drop_key_one(s.drop_last(), k, i);
        assert(s.last().item.key() != k);
        assert(drop_key(s, k) == s.drop_last().remove(i).push(s.last()));
        assert(s.drop_last().remove(i).push(s.last()) =~= s.remove(i));
    }
}

/// Removing one entry keeps the remaining keys unique.
pub proof fn lemma_unique_remove<T: QueueItem>(s: Seq<EventEntry<T>>, i: int)
    requires
        unique_keys(s),
        0 <= i < s.len(),
    ensures
        unique_keys(s.remove(i)),
{
    let t = s.remove(i);
    assert forall|a: int, b: int| 0 <= a < b < t.len() implies (#[trigger] t[a]).item.key() != (
    #[trigger] t[b]).item.key() by {
        let a0: int = if a < i {
            a
        } else {
            a + 1
        };
        let b0: int = if b < i {
            b
        } else {
            b + 1
        };
        assert(t[a] == s[a0]);
        assert(t[b] == s[b0]);
    }
}

/// The stable priority dispatch queue.
pub struct EventQueue<T: QueueItem> {
    entries: Vec<EventEntry<T>>,
}

impl<T: QueueItem> View for EventQueue<T> {
    type V = Seq<EventEntry<T>>;

    closed spec fn view(&self) -> Seq<EventEntry<T>> {
        self.entries@
    }
}

impl<T: QueueItem> EventQueue<T> {
    #[verifier::type_invariant]
    spec fn wf(self) -> bool {
        unique_keys(self@)
    }

    /// A queue with nothing pending.
    pub fn new() -> (q: Self)
        ensures
            q@ == Seq::<EventEntry<T>>::empty(),
    {
        EventQueue { entries: Vec::new() }
    }

    /// The index of the pending entry whose key matches `item`, if any.
    fn find_key_index(entries: &Vec<EventEntry<T>>, item: &T) -> (r: Option<usize>)
        ensures
            match r {
                Some(i) => i < entries@.len() && entries@[i as int].item.key() == item.key(),
                None => forall|j: int|
                    0 <= j < entries@.len() ==> (#[trigger] entries@[j]).item.key() != item.key(),
            },
    {
        let n = entries.len();
        let mut i: usize = 0;
        while i < n
            invariant
                0 <= i <= n,
                n == entries@.len(),
                forall|j: int| 0 <= j < i ==> (#[trigger] entries@[j]).item.key() != item.key(),
            decreases n - i,
        {
            if entries[i].item.same_key(item) {
                return Some(i);
            }
            i += 1;
        }
        None
    }

    /// Queue `item` at `priority`.  An entry with the same key, if pending,
    /// is replaced: the new entry takes the new priority and the place of a
    /// fresh insertion at the back.
    pub fn push(&mut self, priority: i8, item: T)
        ensures
            final(self)@ == pushed(old(self)@, priority, item),
    {
        proof {
            use_type_invariant(&*self);
        }
        let ghost s0 = self@;
        let ghost k = item.key();
        let mut entries: Vec<EventEntry<T>> = Vec::new();
        core::mem::swap(&mut entries, &mut self.entries);
        match Self::find_key_index(&entries, &item) {
            Some(i) => {
                proof {
                    assert forall|j: int| 0 <= j < s0.len() && j != i implies (#[trigger] s0[j]).item.key()
                        != k by {
                        if j < i {
                            assert(s0[j].item.key() != s0[i as int].item.key());
                        } else {
                            assert(s0[i as int].item.key() != s0[j].item.key());
                        }
                    }
                    lemma_drop_key_one(s0, k, i as int);
                }
                entries.remove(i);
                proof {
                    assert forall|j: int| 0 <= j < entries@.len() implies (#[trigger] entries@[j]).item.key()
                        != k by {
                        if j < i {
                            assert(entries@[j] == s0[j]);
                        } else {
                            assert(entries@[j] == s0[j + 1]);
                        }
                    }
                    lemma_unique_remove(s0, i as int);
                }
            },
            None => {
                proof {
                    lemma_drop_key_absent(s0, k);
                }
            },
        }
        let ghost s1 = entries@;
        assert(s1 == drop_key(s0, k));
        assert(forall|j: int| 0 <= j < s1.len() ==> (#[trigger] s1[j]).item.key() != k);
        assert(unique_keys(s1));
        entries.push(EventEntry { priority, item });
        proof {
            assert forall|a: int, b: int| 0 <= a < b < entries@.len() implies (#[trigger] entries@[a]).item.key()
                != (#[trigger] entries@[b]).item.key() by {
                if b < entries@.len() - 1 {
                    assert(entries@[a] == s1[a]);
                    assert(entries@[b] == s1[b]);
                } else {
                    assert(entries@[a] == s1[a]);
                    assert(entries@[b].item.key() == k);
                }
            }
        }
        core::mem::swap(&mut entries, &mut self.entries);
    }

    /// Take the pending entry that dispatches next: minimal priority, and
    /// among those the one pushed latest.  `None` exactly when nothing is
    /// pending.
    pub fn pop(&mut self) -> (r: Option<T>)
        ensures
            old(self)@.len() == 0 ==> r is None && final(self)@ == old(self)@,
            old(self)@.len() > 0 ==> {
                let i = pop_index(old(self)@);
                &&& r == Some(old(self)@[i].item)
                &&& final(self)@ == old(self)@.remove(i)
            },
    {
        proof {
            use_type_invariant(&*self);
        }
        let ghost s0 = self@;
        let n = self.entries.len();
        if n == 0 {
            return None;
        }
        let mut entries: Vec<EventEntry<T>> = Vec::new();
        core::mem::swap(&mut entries, &mut self.entries);
        let mut best: usize = 0;
        let mut i: usize = 1;
        while i < n
            invariant
                0 <= best < i <= n,
                n == s0.len(),
                entries@ == s0,
                forall|j: int| 0 <= j < i ==> s0[best as int].priority <= (#[trigger] s0[j]).priority,
                forall|j: int| best < j < i ==> s0[best as int].priority < (#[trigger] s0[j]).priority,
            decreases n - i,
        {
            if entries[i].priority <= entries[best].priority {
                best = i;
            }
            i += 1;
        }
        proof {
            assert(is_pop_index(s0, best as int));
            lemma_pop_index(s0);
            lemma_pop_index_unique(s0, best as int, pop_index(s0));
            lemma_unique_remove(s0, best as int);
        }
        let e = entries.remove(best);
        core::mem::swap(&mut entries, &mut self.entries);
        Some(e.item)
    }

    /// Invalidate the pending entry (if any) whose key matches `item`: no
    /// later `pop` returns an item with that key until it is pushed again.
    pub fn remove(&mut self, item: &T)
        ensures
            final(self)@ == drop_key(old(self)@, item.key()),
    {
        proof {
            use_type_invariant(&*self);
        }
        let ghost s0 = self@;
        let ghost k = item.key();
        let mut entries: Vec<EventEntry<T>> = Vec::new();
        core::mem::swap(&mut entries, &mut self.entries);
        match Self::find_key_index(&entries, item) {
            Some(i) => {
                proof {
                    assert forall|j: int| 0 <= j < s0.len() && j != i implies (#[trigger] s0[j]).item.key()
                        != k by {
                        if j < i {
                            assert(s0[j].item.key() != s0[i as int].item.key());
                        } else {
                            assert(s0[i as int].item.key() != s0[j].item.key());
                        }
                    }
                    lemma_drop_key_one(s0, k, i as int);
                    lemma_unique_remove(s0, i as int);
                }
                entries.remove(i);
            },
            None => {
                proof {
                    lemma_drop_key_absent(s0, k);
                }
            },
        }
        core::mem::swap(&mut entries, &mut self.entries);
    }

    /// Is anything pending?
    pub fn is_empty(&self) -> (r: bool)
        ensures
            r == (self@.len() == 0),
    {
        self.entries.len() == 0
    }
}

impl<T: QueueItem> Default for EventQueue<T> {
    /// The default queue has nothing pending.
    fn default() -> (q: Self)
        ensures
            q@ == Seq::<EventEntry<T>>::empty(),
    {
        EventQueue::new()
    }
}

/// The pending entries of `s` whose priority is `p`, in order.
pub open spec fn with_priority<T: QueueItem>(
    s: Seq<EventEntry<T>>,
    p: i8,
) -> Seq<EventEntry<T>>
    decreases s.len(),
{
    if s.len() == 0 {
        Seq::empty()
    } else {
        let rest = with_priority(s.drop_last(), p);
        if s.last().priority == p {
            rest.push(s.last())
        } else {
            rest
        }
    }
}

/// Everything a queue holding `s` would yield, in pop order.
pub open spec fn drained<T: QueueItem>(s: Seq<EventEntry<T>>) -> Seq<EventEntry<T>>
    decreases s.len(),
{
    if s.len() == 0 {
        Seq::empty()
    } else {
        proof {
            lemma_pop_index::<T>(s);
        }
        seq![s[pop_index(s)]] + drained(s.remove(pop_index(s)))
    }
}

proof fn lemma_wp_add<T: QueueItem>(a: Seq<EventEntry<T>>, b: Seq<EventEntry<T>>, p: i8)
    ensures
        with_priority(a + b, p) == with_priority(a, p) + with_priority(b, p),
    decreases b.len(),
{
    if b.len() == 0 {
        assert(a + b =~= a);
        assert(with_priority(b, p) =~= Seq::<EventEntry<T>>::empty());
        assert(with_priority(a, p) + with_priority(b, p) =~= with_priority(a, p));
    } else {
        lemma_wp_add(a, b.drop_last(), p);
        assert((a + b).drop_last() =~= a + b.drop_last());
        assert((a + b).last() == b.last());
        if b.last().priority == p {
            assert(with_priority(a + b, p) == (with_priority(a, p) + with_priority(
                b.drop_last(),
                p,
            )).push(b.last()));
            assert((with_priority(a, p) + with_priority(b.drop_last(), p)).push(b.last())
                =~= with_priority(a, p) + with_priority(b.drop_last(), p).push(b.last()));
        }
    }
}

proof fn lemma_wp_singleton<T: QueueItem>(x: EventEntry<T>, p: i8)
    ensures
        x.priority == p ==> with_priority(seq![x], p) == seq![x],
        x.priority != p ==> with_priority(seq![x], p) == Seq::<EventEntry<T>>::empty(),
{
    let sx = seq![x];
    assert(sx.last() == x);
    assert(sx.drop_last() =~= Seq::<EventEntry<T>>::empty());
    assert(with_priority(Seq::<EventEntry<T>>::empty(), p) == Seq::<EventEntry<T>>::empty());
    if x.priority == p {
        assert(with_priority(sx, p) =~= sx);
    } else {
        assert(with_priority(sx, p) =~= Seq::<EventEntry<T>>::empty());
    }
}

proof fn lemma_wp_absent<T: QueueItem>(s: Seq<EventEntry<T>>, p: i8)
    requires
        forall|j: int| 0 <= j < s.len() ==> (#[trigger] s[j]).priority != p,
    ensures
        with_priority(s, p) == Seq::<EventEntry<T>>::empty(),
    decreases s.len(),
{
    if s.len() > 0 {
        assert forall|j: int| 0 <= j < s.drop_last().len() implies (#[trigger] s.drop_last()[j]).priority
            != p by {
            assert(s.drop_last()[j] == s[j]);
        }
        lemma_wp_absent(s.drop_last(), p);
    }
}

proof fn lemma_wp_remove_other<T: QueueItem>(s: Seq<EventEntry<T>>, p: i8, i: int)
    requires
        0 <= i < s.len(),
        s[i].priority != p,
    ensures
        with_priority(s.remove(i), p) == with_priority(s, p),
{
    let pre = s.subrange(0, i);
    let mid = seq![s[i]];
    let post = s.subrange(i + 1, s.len() as int);
    assert(s =~= (pre + mid) + post);
    lemma_wp_add(pre + mid, post, p);
    lemma_wp_add(pre, mid, p);
    lemma_wp_singleton(s[i], p);
    lemma_wp_add(pre, post, p);
    assert(s.remove(i) == pre + post);
    assert((with_priority(pre, p) + Seq::<EventEntry<T>>::empty()) + with_priority(post, p)
        =~= with_priority(pre, p) + with_priority(post, p));
}

proof fn lemma_wp_remove_last<T: QueueItem>(s: Seq<EventEntry<T>>, p: i8, i: int)
    requires
        0 <= i < s.len(),
        s[i].priority == p,
        forall|j: int| i < j < s.len() ==> (#[trigger] s[j]).priority != p,
    ensures
        with_priority(s, p) == with_priority(s.remove(i), p).push(s[i]),
{
    let pre = s.subrange(0, i);
    let mid = seq![s[i]];
    let post = s.subrange(i + 1, s.len() as int);
    assert(s =~= (pre + mid) + post);
    lemma_wp_add(pre + mid, post, p);
    lemma_wp_add(pre, mid, p);
    lemma_wp_singleton(s[i], p);
    assert forall|j: int| 0 <= j < post.len() implies (#[trigger] post[j]).priority != p by {
        assert(post[j] == s[i + 1 + j]);
    }
    lemma_wp_absent(post, p);
    lemma_wp_add(pre, post, p);
    assert(s.remove(i) == pre + post);
    assert((with_priority(pre, p) + mid) + Seq::<EventEntry<T>>::empty() =~= (with_priority(pre, p)
        + Seq::<EventEntry<T>>::empty()).push(s[i]));
}

proof fn lemma_reverse_push<A>(t: Seq<A>, x: A)
    ensures
        t.push(x).reverse() == seq![x] + t.reverse(),
{
    let lhs = t.push(x).reverse();
    let rhs = seq![x] + t.reverse();
    assert forall|i: int| 0 <= i < lhs.len() implies lhs[i] == rhs[i] by {
        assert(lhs[i] == t.push(x)[t.push(x).len() - 1 - i]);
        if i > 0 {
            assert(t.reverse()[i - 1] == t[t.len() - i]);
        }
    }
    assert(lhs =~= rhs);
}

/// Whatever the queue yields was pending in it.
pub proof fn lemma_drained_membership<T: QueueItem>(s: Seq<EventEntry<T>>, e: EventEntry<T>)
    requires
        drained(s).contains(e),
    ensures
        s.contains(e),
    decreases s.len(),
{
    let d = drained(s);
    let i = pop_index(s);
    lemma_pop_index(s);
    let j = choose|j: int| 0 <= j < d.len() && d[j] == e;
    if j == 0 {
        assert(s[i] == e);
    } else {
        let rest = s.remove(i);
        assert(drained(rest)[j - 1] == e);
        assert(drained(rest).contains(e));
        lemma_drained_membership(rest, e);
        let m = choose|m: int| 0 <= m < rest.len() && rest[m] == e;
        let m0: int = if m < i {
            m
        } else {
            m + 1
        };
        assert(s[m0] == e);
    }
}

/// Law: the queue yields entries in non-decreasing priority order.  For any
/// pending sequence, any two positions of the drain are ordered by priority.
pub proof fn lemma_drained_sorted<T: QueueItem>(s: Seq<EventEntry<T>>, a: int, b: int)
    requires
        0 <= a <= b < drained(s).len(),
    ensures
        drained(s)[a].priority <= drained(s)[b].priority,
    decreases s.len(),
{
    let d = drained(s);
    let i = pop_index(s);
    lemma_pop_index(s);
    let rest = s.remove(i);
    if a == 0 {
        if b > 0 {
            let e = drained(rest)[b - 1];
            assert(drained(rest).contains(e));
            lemma_drained_membership(rest, e);
            let m = choose|m: int| 0 <= m < rest.len() && rest[m] == e;
            let m0: int = if m < i {
                m
            } else {
                m + 1
            };
            assert(s[m0] == e);
            assert(s[i].priority <= s[m0].priority);
        }
    } else {
        lemma_drained_sorted(rest, a - 1, b - 1);
    }
}

/// Law: the drain's tie order is exact.  Among the pending entries of one
/// priority, the drain yields exactly the reverse of the pending order: the
/// latest push of a priority dispatches first, as a fresh replacement
/// should.
pub proof fn lemma_drained_stable<T: QueueItem>(s: Seq<EventEntry<T>>, p: i8)
    ensures
        with_priority(drained(s), p) == with_priority(s, p).reverse(),
    decreases s.len(),
{
    if s.len() == 0 {
        assert(drained(s) =~= Seq::<EventEntry<T>>::empty());
        assert(with_priority(s, p).reverse() =~= Seq::<EventEntry<T>>::empty());
    } else {
        let i = pop_index(s);
        lemma_pop_index(s);
        let rest = s.remove(i);
        lemma_drained_stable(rest, p);
        lemma_wp_add(seq![s[i]], drained(rest), p);
        lemma_wp_singleton(s[i], p);
        if s[i].priority == p {
            assert forall|j: int| i < j < s.len() implies (#[trigger] s[j]).priority != p by {
                assert(s[i].priority < s[j].priority);
            }
            lemma_wp_remove_last(s, p, i);
            lemma_reverse_push(with_priority(rest, p), s[i]);
        } else {
            lemma_wp_remove_other(s, p, i);
            assert(Seq::<EventEntry<T>>::empty() + with_priority(drained(rest), p)
                =~= with_priority(drained(rest), p));
        }
    }
}

/// Every entry that survives `drop_key` has a different key.
pub proof fn lemma_drop_key_keys<T: QueueItem>(s: Seq<EventEntry<T>>, k: Seq<char>)
    ensures
        forall|i: int|
            0 <= i < drop_key(s, k).len() ==> (#[trigger] drop_key(s, k)[i]).item.key() != k,
    decreases s.len(),
{
    if s.len() > 0 {
        lemma_drop_key_keys(s.drop_last(), k);
        let rest = drop_key(s.drop_last(), k);
        assert forall|i: int| 0 <= i < drop_key(s, k).len() implies (#[trigger] drop_key(s, k)[i]).item.key()
            != k by {
            if s.last().item.key() == k {
                assert(drop_key(s, k)[i] == rest[i]);
            } else if i < rest.len() {
                assert(drop_key(s, k)[i] == rest[i]);
            } else {
                assert(drop_key(s, k)[i] == s.last());
            }
        }
    }
}

/// Law: a removed key is never popped.  After removing key `k`, nothing the
/// queue will ever yield carries `k` (until a new push of that key).
pub proof fn lemma_remove_then_pop<T: QueueItem>(s: Seq<EventEntry<T>>, k: Seq<char>, j: int)
    requires
        0 <= j < drained(drop_key(s, k)).len(),
    ensures
        drained(drop_key(s, k))[j].item.key() != k,
{
    let t = drop_key(s, k);
    let e = drained(t)[j];
    assert(drained(t).contains(e));
    lemma_drained_membership(t, e);
    lemma_drop_key_keys(s, k);
    let m = choose|m: int| 0 <= m < t.len() && t[m] == e;
    assert(t[m].item.key() != k);
}

proof fn lemma_drop_key_push<T: QueueItem>(t: Seq<EventEntry<T>>, e: EventEntry<T>, k: Seq<char>)
    ensures
        e.item.key() == k ==> drop_key(t.push(e), k) == drop_key(t, k),
        e.item.key() != k ==> drop_key(t.push(e), k) == drop_key(t, k).push(e),
{
    assert(t.push(e).drop_last() =~= t);
    assert(t.push(e).last() == e);
}

proof fn lemma_with_key_push<T: QueueItem>(t: Seq<EventEntry<T>>, e: EventEntry<T>, k: Seq<char>)
    ensures
        e.item.key() == k ==> with_key(t.push(e), k) == with_key(t, k).push(e),
        e.item.key() != k ==> with_key(t.push(e), k) == with_key(t, k),
{
    assert(t.push(e).drop_last() =~= t);
    assert(t.push(e).last() == e);
}

proof fn lemma_with_key_absent<T: QueueItem>(s: Seq<EventEntry<T>>, k: Seq<char>)
    requires
        forall|j: int| 0 <= j < s.len() ==> (#[trigger] s[j]).item.key() != k,
    ensures
        with_key(s, k) == Seq::<EventEntry<T>>::empty(),
    decreases s.len(),
{
    if s.len() > 0 {
        assert forall|j: int| 0 <= j < s.drop_last().len() implies (#[trigger] s.drop_last()[j]).item.key()
            != k by {
            assert(s.drop_last()[j] == s[j]);
        }
        lemma_with_key_absent(s.drop_last(), k);
    }
}

/// Law: re-pushing a key replaces its pending entry.  After two pushes of
/// items with one key, exactly one entry with that key is pending, and it
/// carries the later push's priority, item and position — the same state one
/// push of the later item would have left.
pub proof fn lemma_replace_on_repush<T: QueueItem>(
    s: Seq<EventEntry<T>>,
    p1: i8,
    x1: T,
    p2: i8,
    x2: T,
)
    requires
        x1.key() == x2.key(),
    ensures
        with_key(pushed(pushed(s, p1, x1), p2, x2), x2.key()) == seq![
            EventEntry { priority: p2, item: x2 },
        ],
        pushed(pushed(s, p1, x1), p2, x2) == pushed(s, p2, x2),
{
    let k = x2.key();
    let e1 = EventEntry { priority: p1, item: x1 };
    let e2 = EventEntry { priority: p2, item: x2 };
    let s1 = pushed(s, p1, x1);
    lemma_drop_key_push(drop_key(s, k), e1, k);
    lemma_drop_key_keys(s, k);
    lemma_drop_key_absent(drop_key(s, k), k);
    assert(drop_key(s1, k) == drop_key(s, k));
    lemma_with_key_push(drop_key(s, k), e2, k);
    lemma_with_key_absent(drop_key(s, k), k);
    assert(Seq::<EventEntry<T>>::empty().push(e2) =~= seq![e2]);
}

/// Every entry that survives `drop_key` was pending before.
pub proof fn lemma_drop_key_membership<T: QueueItem>(s: Seq<EventEntry<T>>, k: Seq<char>, i: int)
    requires
        0 <= i < drop_key(s, k).len(),
    ensures
        exists|j: int| 0 <= j < s.len() && #[trigger] s[j] == drop_key(s, k)[i],
    decreases s.len(),
{
    let dk = drop_key(s, k);
    let rest = drop_key(s.drop_last(), k);
    if s.last().item.key() != k && i == rest.len() {
        assert(s[s.len() - 1] == dk[i]);
    } else {
        assert(dk[i] == rest[i]);
        lemma_drop_key_membership(s.drop_last(), k, i);
        let j = choose|j: int| 0 <= j < s.drop_last().len() && #[trigger] s.drop_last()[j]
            == rest[i];
        assert(s[j] == dk[i]);
    }
}

/// An entry with another key survives `drop_key` unchanged.
pub proof fn lemma_drop_key_keeps<T: QueueItem>(s: Seq<EventEntry<T>>, k: Seq<char>, i: int)
    requires
        0 <= i < s.len(),
        s[i].item.key() != k,
    ensures
        exists|m: int| 0 <= m < drop_key(s, k).len() && #[trigger] drop_key(s, k)[m] == s[i],
    decreases s.len(),
{
    let dk = drop_key(s, k);
    let rest = drop_key(s.drop_last(), k);
    if i == s.len() - 1 {
        assert(dk[dk.len() - 1] == s[i]);
    } else {
        assert(s.drop_last()[i] == s[i]);
        lemma_drop_key_keeps(s.drop_last(), k, i);
        let m = choose|m: int| 0 <= m < rest.len() && #[trigger] rest[m] == s[i];
        assert(dk[m] == s[i]);
    }
}

/// Dropping a key keeps the remaining keys unique.
pub proof fn lemma_drop_key_unique<T: QueueItem>(s: Seq<EventEntry<T>>, k: Seq<char>)
    requires
        unique_keys(s),
    ensures
        unique_keys(drop_key(s, k)),
    decreases s.len(),
{
    if s.len() > 0 {
        let dk = drop_key(s, k);
        let rest = drop_key(s.drop_last(), k);
        assert forall|a: int, b: int| 0 <= a < b < s.drop_last().len() implies (
        #[trigger] s.drop_last()[a]).item.key() != (#[trigger] s.drop_last()[b]).item.key() by {
            assert(s.drop_last()[a] == s[a]);
            assert(s.drop_last()[b] == s[b]);
        }
        lemma_drop_key_unique(s.drop_last(), k);
        if s.last().item.key() != k {
            assert forall|a: int, b: int| 0 <= a < b < dk.len() implies (#[trigger] dk[a]).item.key()
                != (#[trigger] dk[b]).item.key() by {
                if b < dk.len() - 1 {
                    assert(dk[a] == rest[a]);
                    assert(dk[b] == rest[b]);
                } else {
                    assert(dk[a] == rest[a]);
                    assert(dk[b] == s.last());
                    lemma_drop_key_membership(s.drop_last(), k, a);
                    let j = choose|j: int| 0 <= j < s.drop_last().len() && #[trigger] s.drop_last()[j]
                        == rest[a];
                    assert(s[j] == rest[a]);
                    assert(s[j].item.key() != s[s.len() - 1].item.key());
                }
            }
        }
    }
}

/// Everything pending is eventually yielded: the drain loses nothing.
pub proof fn lemma_drained_complete<T: QueueItem>(s: Seq<EventEntry<T>>, m: int)
    requires
        0 <= m < s.len(),
    ensures
        exists|j: int| 0 <= j < drained(s).len() && #[trigger] drained(s)[j] == s[m],
    decreases s.len(),
{
    let i = pop_index(s);
    lemma_pop_index(s);
    let rest = s.remove(i);
    if m == i {
        assert(drained(s)[0] == s[m]);
    } else {
        let m0: int = if m < i {
            m
        } else {
            m - 1
        };
        assert(rest[m0] == s[m]);
        lemma_drained_complete(rest, m0);
        let j = choose|j: int| 0 <= j < drained(rest).len() && #[trigger] drained(rest)[j]
            == rest[m0];
        assert(drained(s)[j + 1] == s[m]);
    }
}

/// Law: with unique pending keys, no key is yielded twice — each pending
/// entry pops at most once.
pub proof fn lemma_drained_unique_keys<T: QueueItem>(s: Seq<EventEntry<T>>, a: int, b: int)
    requires
        unique_keys(s),
        0 <= a < b < drained(s).len(),
    ensures
        drained(s)[a].item.key() != drained(s)[b].item.key(),
    decreases s.len(),
{
    let i = pop_index(s);
    lemma_pop_index(s);
    let rest = s.remove(i);
    if a == 0 {
        let e = drained(rest)[b - 1];
        assert(drained(rest).contains(e));
        lemma_drained_membership(rest, e);
        let m = choose|m: int| 0 <= m < rest.len() && rest[m] == e;
        let m0: int = if m < i {
            m
        } else {
            m + 1
        };
        assert(s[m0] == e);
        if m0 < i {
            assert(s[m0].item.key() != s[i].item.key());
        } else {
            assert(s[i].item.key() != s[m0].item.key());
        }
    } else {
        lemma_unique_remove(s, i);
        lemma_drained_unique_keys(rest, a - 1, b - 1);
    }
}

/// A push leaves the pending keys unique.
pub proof fn lemma_pushed_unique<T: QueueItem>(s: Seq<EventEntry<T>>, priority: i8, item: T)
    requires
        unique_keys(s),
    ensures
        unique_keys(pushed(s, priority, item)),
{
    let k = item.key();
    let dk = drop_key(s, k);
    lemma_drop_key_unique(s, k);
    lemma_drop_key_keys(s, k);
    let out = pushed(s, priority, item);
    assert forall|a: int, b: int| 0 <= a < b < out.len() implies (#[trigger] out[a]).item.key() != (
    #[trigger] out[b]).item.key() by {
        if b < out.len() - 1 {
            assert(out[a] == dk[a]);
            assert(out[b] == dk[b]);
        } else {
            assert(out[a] == dk[a]);
            assert(out[b].item.key() == k);
        }
    }
}

} // verus!
