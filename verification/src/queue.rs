//! A priority queue of standing orders.
//!
//! The queue keeps its entries in ascending priority, so the entry that
//! leaves next is the last one. Among entries of equal priority the one that
//! arrived first leaves first.

use vstd::prelude::*;

verus! {

/// Something that has a place in a priority queue.
pub trait Prioritized: Sized {
    /// The entry with the largest value leaves the queue first.
    spec fn priority(&self) -> int;

    /// Whether this entry leaves the queue before the other.
    fn outranks(&self, other: &Self) -> (yes: bool)
        ensures
            yes == (self.priority() > other.priority()),
    ;
}

/// Whether no entry is followed by one of lower priority.
pub open spec fn ascending<T: Prioritized>(s: Seq<T>) -> bool {
    forall|i: int, j: int| 0 <= i < j < s.len() ==> s[i].priority() <= s[j].priority()
}

/// How many entries at the front of `s` have a priority below that of `item`.
pub open spec fn slot_for<T: Prioritized>(s: Seq<T>, item: T) -> int
    decreases s.len(),
{
    if s.len() == 0 || s.first().priority() >= item.priority() {
        0
    } else {
        1 + slot_for(s.drop_first(), item)
    }
}

/// The queue after `item` has joined it: behind every entry of the same or a
/// higher priority, ahead of every entry of a lower one.
pub open spec fn enqueue<T: Prioritized>(s: Seq<T>, item: T) -> Seq<T> {
    s.insert(slot_for(s, item), item)
}

/// The slot is the one index that parts the lower priorities from the rest.
pub proof fn lemma_slot_is<T: Prioritized>(s: Seq<T>, item: T, at: int)
    requires
        0 <= at <= s.len(),
        forall|j: int| 0 <= j < at ==> s[j].priority() < item.priority(),
        at == s.len() || s[at].priority() >= item.priority(),
    ensures
        slot_for(s, item) == at,
    decreases at,
{
    if at > 0 {
        let rest = s.drop_first();
        assert forall|j: int| 0 <= j < at - 1 implies rest[j].priority() < item.priority() by {
            assert(rest[j] == s[j + 1]);
        }
        if at - 1 < rest.len() {
            assert(rest[at - 1] == s[at]);
        }
        lemma_slot_is(rest, item, at - 1);
    }
}

/// What the slot parts: lower priorities before it, no lower one at it.
pub proof fn lemma_slot_parts<T: Prioritized>(s: Seq<T>, item: T)
    ensures
        0 <= slot_for(s, item) <= s.len(),
        forall|j: int| 0 <= j < slot_for(s, item) ==> s[j].priority() < item.priority(),
        slot_for(s, item) < s.len() ==> s[slot_for(s, item)].priority() >= item.priority(),
    decreases s.len(),
{
    if s.len() > 0 && s.first().priority() < item.priority() {
        let rest = s.drop_first();
        lemma_slot_parts(rest, item);
        let at = slot_for(rest, item);
        assert forall|j: int| 0 <= j < at + 1 implies s[j].priority() < item.priority() by {
            if j > 0 {
                assert(rest[j - 1] == s[j]);
            }
        }
        if at + 1 < s.len() {
            assert(rest[at] == s[at + 1]);
        }
    }
}

/// Joining an ascending queue leaves it ascending.
pub proof fn lemma_enqueue_ascending<T: Prioritized>(s: Seq<T>, item: T)
    requires
        ascending(s),
    ensures
        ascending(enqueue(s, item)),
        enqueue(s, item).len() == s.len() + 1,
{
    lemma_slot_parts(s, item);
    let at = slot_for(s, item);
    let joined = enqueue(s, item);
    assert forall|i: int, j: int| 0 <= i < j < joined.len() implies joined[i].priority()
        <= joined[j].priority() by {
        if j == at {
            assert(joined[i] == s[i]);
        } else if i == at {
            assert(joined[j] == s[j - 1]);
            assert(s[at].priority() <= s[j - 1].priority());
        } else if i < at && j > at {
            assert(joined[i] == s[i]);
            assert(joined[j] == s[j - 1]);
        } else if i < at {
            assert(joined[i] == s[i]);
            assert(joined[j] == s[j]);
        } else {
            assert(joined[i] == s[i - 1]);
            assert(joined[j] == s[j - 1]);
        }
    }
}

/// Joining a queue adds the one entry and keeps the others.
pub proof fn lemma_enqueue_entries<T: Prioritized>(s: Seq<T>, item: T)
    ensures
        forall|i: int|
            0 <= i < enqueue(s, item).len() ==> #[trigger] enqueue(s, item)[i] == item
                || s.contains(enqueue(s, item)[i]),
        enqueue(s, item).contains(item),
        forall|i: int| 0 <= i < s.len() ==> enqueue(s, item).contains(#[trigger] s[i]),
{
    lemma_slot_parts(s, item);
    let at = slot_for(s, item);
    let joined = enqueue(s, item);
    assert forall|i: int| 0 <= i < joined.len() implies #[trigger] joined[i] == item || s.contains(
        joined[i],
    ) by {
        if i < at {
            assert(joined[i] == s[i]);
        } else if i > at {
            assert(joined[i] == s[i - 1]);
        }
    }
    assert(joined[at] == item);
    assert forall|i: int| 0 <= i < s.len() implies joined.contains(#[trigger] s[i]) by {
        if i < at {
            assert(joined[i] == s[i]);
        } else {
            assert(joined[i + 1] == s[i]);
        }
    }
}

/// The head after an entry has joined: the new entry where it outranks the
/// old head or the queue was empty, the old head where not.
pub proof fn lemma_enqueue_head<T: Prioritized>(s: Seq<T>, item: T)
    requires
        ascending(s),
    ensures
        enqueue(s, item).last() == if s.len() == 0 || item.priority() > s.last().priority() {
            item
        } else {
            s.last()
        },
{
    lemma_slot_parts(s, item);
    if s.len() > 0 && item.priority() > s.last().priority() {
        lemma_slot_is(s, item, s.len() as int);
    }
}

/// A priority queue. Its view lists the entries in ascending priority; the
/// last entry is the head.
#[derive(Debug)]
pub struct OrderQueue<T> {
    items: Vec<T>,
}

impl<T: Prioritized> View for OrderQueue<T> {
    type V = Seq<T>;

    closed spec fn view(&self) -> Seq<T> {
        self.items@
    }
}

impl<T: Prioritized> OrderQueue<T> {
    /// Whether the entries stand in ascending priority.
    pub open spec fn wf(&self) -> bool {
        ascending(self@)
    }

    /// An empty queue.
    pub fn new() -> (queue: Self)
        ensures
            queue@ == Seq::<T>::empty(),
            queue.wf(),
    {
        OrderQueue { items: Vec::new() }
    }

    /// The number of entries.
    pub fn len(&self) -> (n: usize)
        ensures
            n == self@.len(),
    {
        self.items.len()
    }

    /// The head of the queue, which stays in it.
    pub fn peek(&self) -> (head: Option<&T>)
        ensures
            self@.len() == 0 ==> head is None,
            self@.len() > 0 ==> head == Some(&self@.last()),
    {
        let n = self.items.len();
        if n == 0 {
            None
        } else {
            Some(&self.items[n - 1])
        }
    }

    /// Takes the head out of the queue.
    pub fn pop(&mut self) -> (head: Option<T>)
        ensures
            old(self)@.len() == 0 ==> head is None && final(self)@ == old(self)@,
            old(self)@.len() > 0 ==> head == Some(old(self)@.last()) && final(self)@ == old(
                self,
            )@.drop_last(),
            old(self).wf() ==> final(self).wf(),
    {
        self.items.pop()
    }

    /// Puts `item` into the queue.
    pub fn push(&mut self, item: T)
        requires
            old(self).wf(),
        ensures
            final(self)@ == enqueue(old(self)@, item),
            final(self).wf(),
    {
        let mut at: usize = 0;
        while at < self.items.len() && item.outranks(&self.items[at])
            invariant
                at <= self.items@.len(),
                self.items@ == old(self).items@,
                forall|j: int| 0 <= j < at ==> self.items@[j].priority() < item.priority(),
            decreases self.items@.len() - at,
        {
            at += 1;
        }
        proof {
            lemma_slot_is(self.items@, item, at as int);
            lemma_enqueue_ascending(self.items@, item);
        }
        self.items.insert(at, item);
    }
}

impl<T: Prioritized + Copy> OrderQueue<T> {
    /// A queue of `count` entries, each of them `item`.
    pub fn filled(item: T, count: usize) -> (queue: Self)
        ensures
            queue@ == Seq::new(count as nat, |i: int| item),
            queue.wf(),
    {
        let mut items: Vec<T> = Vec::new();
        let mut done: usize = 0;
        while done < count
            invariant
                done <= count,
                items@ == Seq::new(done as nat, |i: int| item),
            decreases count - done,
        {
            items.push(item);
            done += 1;
            assert(items@ =~= Seq::new(done as nat, |i: int| item));
        }
        OrderQueue { items }
    }
}

} // verus!
