//! The wait queue: a bounded min-heap of admitted tasks, keyed by absolute
//! deadline, holding tasks that cannot take the fast dispatch path.
//!
//! The storage is a `heapless` binary min-heap of plain integer tuples
//! `(absolute deadline, dispatcher index, run-queue index)`, which order
//! lexicographically: ties between equal absolute deadlines are broken
//! deterministically by the (unique) dispatcher index. The heap itself is
//! trusted; everything proved about the queue goes through the abstract
//! contents of the heap and a ghost sequence kept sorted by that same order.

use vstd::multiset::Multiset;
use vstd::prelude::*;

use crate::critical_section::DroppableCriticalSection;
use crate::seq_facts::lemma_to_multiset_cons;
use crate::task::ScheduledTask;

verus! {

/// Fixed storage bound of the underlying heap. The *logical* capacity of a
/// wait queue (`task count - distinct deadline count`, chosen at build time)
/// is a separate, per-queue value no larger than this.
pub const WAIT_QUEUE_STORAGE: usize = 128;

/// Lexicographic order on `(absolute deadline, dispatcher index, run-queue
/// index)`; the order of the underlying min-heap.
pub open spec fn tuple_le(a: (u32, u16, u16), b: (u32, u16, u16)) -> bool {
    a.0 < b.0 || (a.0 == b.0 && (a.1 < b.1 || (a.1 == b.1 && a.2 <= b.2)))
}

/// The key a task is held under in the heap.
pub open spec fn entry_tuple(t: ScheduledTask) -> (u32, u16, u16) {
    (t.abs_deadline(), t.dispatcher_index(), t.rq_index())
}

/// Queue order on admitted tasks: by absolute deadline, ties broken by
/// dispatcher index.
pub open spec fn entry_le(a: ScheduledTask, b: ScheduledTask) -> bool {
    tuple_le(entry_tuple(a), entry_tuple(b))
}

/// The sequence is ascending in queue order.
pub open spec fn entries_sorted(s: Seq<ScheduledTask>) -> bool {
    forall|i: int, j: int| 0 <= i < j < s.len() ==> #[trigger] entry_le(s[i], s[j])
}

/// Where a new task lands in a sorted sequence: before the first entry it is
/// less-or-equal to.
pub open spec fn sorted_insert(s: Seq<ScheduledTask>, t: ScheduledTask) -> Seq<ScheduledTask>
    decreases s.len(),
{
    if s.len() == 0 {
        seq![t]
    } else if entry_le(t, s.first()) {
        seq![t] + s
    } else {
        seq![s.first()] + sorted_insert(s.drop_first(), t)
    }
}

/// The tuples a heap holds, as a multiset (a heap exposes no order among its
/// items beyond the top one).
pub uninterp spec fn heap_contents(h: HeapStorage) -> Multiset<(u32, u16, u16)>;

/// Owns the `heapless` min-heap. Opaque to the verifier: everything known
/// about it is stated by the trusted functions below in terms of
/// [`heap_contents`].
#[verifier::external_body]
pub struct HeapStorage {
    heap: heapless::binary_heap::BinaryHeap<
        (u32, u16, u16),
        heapless::binary_heap::Min,
        WAIT_QUEUE_STORAGE,
    >,
}

/// Relies on `heapless::binary_heap::BinaryHeap::new`: creates an empty heap.
#[verifier::external_body]
fn heap_new() -> (h: HeapStorage)
    ensures
        heap_contents(h) == Multiset::<(u32, u16, u16)>::empty(),
{
    HeapStorage { heap: heapless::binary_heap::BinaryHeap::new() }
}

/// Relies on `heapless::binary_heap::BinaryHeap::len`: the number of items
/// held by the heap.
#[verifier::external_body]
fn heap_len(h: &HeapStorage) -> (n: usize)
    ensures
        n == heap_contents(*h).len(),
{
    h.heap.len()
}

/// Relies on `heapless::binary_heap::BinaryHeap::push`: adds the item, or
/// hands it back exactly when the heap already holds `N` (here
/// `WAIT_QUEUE_STORAGE`) items.
#[verifier::external_body]
fn heap_push(h: &mut HeapStorage, item: (u32, u16, u16)) -> (ok: bool)
    ensures
        ok == (heap_contents(*old(h)).len() < WAIT_QUEUE_STORAGE),
        ok ==> heap_contents(*final (h)) == heap_contents(*old(h)).insert(item),
        !ok ==> heap_contents(*final (h)) == heap_contents(*old(h)),
{
    h.heap.push(item).is_ok()
}

/// Relies on `heapless::binary_heap::BinaryHeap::peek` on a min-heap: the top
/// item is the smallest, where tuples of integers order lexicographically;
/// `None` exactly when the heap is empty.
#[verifier::external_body]
fn heap_peek(h: &HeapStorage) -> (r: Option<(u32, u16, u16)>)
    ensures
        (r is None) <==> heap_contents(*h).len() == 0,
        r matches Some(m) ==> heap_contents(*h).count(m) > 0,
        r matches Some(m) ==> forall|e: (u32, u16, u16)|
            heap_contents(*h).count(e) > 0 ==> tuple_le(m, e),
{
    h.heap.peek().copied()
}

/// Relies on `heapless::binary_heap::BinaryHeap::pop` on a min-heap: removes
/// and returns the smallest item (tuples of integers order lexicographically),
/// or returns `None` exactly when the heap is empty.
#[verifier::external_body]
fn heap_pop(h: &mut HeapStorage) -> (r: Option<(u32, u16, u16)>)
    ensures
        (r is None) <==> heap_contents(*old(h)).len() == 0,
        r is None ==> heap_contents(*final (h)) == heap_contents(*old(h)),
        r matches Some(m) ==> heap_contents(*old(h)).count(m) > 0,
        r matches Some(m) ==> forall|e: (u32, u16, u16)|
            heap_contents(*old(h)).count(e) > 0 ==> tuple_le(m, e),
        r matches Some(m) ==> heap_contents(*final (h)) == heap_contents(*old(h)).remove(m),
{
    h.heap.pop()
}

/// Queue for tasks waiting to get dispatched.
///
/// The abstract state is a sequence of admitted tasks, ascending in queue
/// order; the head is the next task to dispatch. Every access demands a
/// critical-section token.
pub struct WaitQueue {
    heap: HeapStorage,
    capacity: usize,
    entries: Ghost<Seq<ScheduledTask>>,
}

impl WaitQueue {
    /// The waiting tasks, ascending in queue order.
    pub closed spec fn view(&self) -> Seq<ScheduledTask> {
        self.entries@
    }

    /// The proven logical capacity this queue was created with.
    pub closed spec fn spec_capacity(&self) -> usize {
        self.capacity
    }

    /// The ghost sequence is sorted, matches the heap's contents, and respects
    /// the capacity.
    pub closed spec fn wf(&self) -> bool {
        &&& entries_sorted(self.entries@)
        &&& heap_contents(self.heap) == self.entries@.map_values(
            |t: ScheduledTask| entry_tuple(t),
        ).to_multiset()
        &&& self.entries@.len() <= self.capacity
        &&& self.capacity <= WAIT_QUEUE_STORAGE
    }

    /// A well-formed queue's view is ascending in queue order.
    pub proof fn lemma_sorted(&self)
        requires
            self.wf(),
        ensures
            entries_sorted(self@),
    {
    }

    /// Create an empty wait queue with the given logical capacity (for a
    /// static task set: task count minus distinct deadline count).
    pub fn new(capacity: usize) -> (q: Self)
        requires
            capacity <= WAIT_QUEUE_STORAGE,
        ensures
            q.wf(),
            q@ =~= Seq::<ScheduledTask>::empty(),
            q.spec_capacity() == capacity,
    {
        let heap = heap_new();
        let q = Self { heap, capacity, entries: Ghost(Seq::empty()) };
        proof {
            let mapped = q.entries@.map_values(|t: ScheduledTask| entry_tuple(t));
            assert(mapped.len() == 0);
            broadcast use vstd::seq_lib::group_to_multiset_ensures;

            assert(mapped.to_multiset() =~= Multiset::<(u32, u16, u16)>::empty()) by {
                assert(forall|e: (u32, u16, u16)| !mapped.contains(e));
            }
        }
        q
    }

    /// The number of tasks currently waiting.
    pub fn len<CS: DroppableCriticalSection>(&self, _cs: &CS) -> (n: usize)
        requires
            self.wf(),
        ensures
            n == self@.len(),
    {
        proof {
            broadcast use vstd::seq_lib::group_to_multiset_ensures;

        }
        heap_len(&self.heap)
    }

    /// Insert a new task into the wait queue.
    ///
    /// Growing the queue beyond its proven capacity is a fatal defect, not a
    /// recoverable error (the capacity invariant is supposed to make it
    /// impossible), so it is excluded here.
    pub fn push<CS: DroppableCriticalSection>(&mut self, _cs: &CS, task: ScheduledTask)
        requires
            old(self).wf(),
            old(self)@.len() < old(self).spec_capacity(),
        ensures
            final (self).wf(),
            final (self)@ == sorted_insert(old(self)@, task),
            final (self).spec_capacity() == old(self).spec_capacity(),
    {
        proof {
            broadcast use vstd::seq_lib::group_to_multiset_ensures;

        }
        let ok = heap_push(&mut self.heap, (task.abs_deadline(), task.dispatcher_index(), task.rq_index()));
        proof {
            let s = self.entries@;
            lemma_sorted_insert_multiset(s, task);
            lemma_sorted_insert_sorted(s, task);
            lemma_sorted_insert_len(s, task);
            self.entries@ = sorted_insert(s, task);
        }
    }

    /// The task with the minimum deadline in the queue, if any.
    pub fn next_task<CS: DroppableCriticalSection>(&self, _cs: &CS) -> (r: Option<ScheduledTask>)
        requires
            self.wf(),
        ensures
            self@.len() == 0 ==> r is None,
            self@.len() > 0 ==> r == Some(self@[0]),
    {
        proof {
            broadcast use vstd::seq_lib::group_to_multiset_ensures;

        }
        match heap_peek(&self.heap) {
            None => None,
            Some(m) => {
                proof {
                    lemma_min_tuple_is_head(self.entries@, m);
                }
                let task = ScheduledTask::from_parts(m.0, m.1, m.2);
                proof {
                    ScheduledTask::lemma_parts_determine(task, self.entries@[0]);
                }
                Some(task)
            },
        }
    }

    /// Pops the task with the minimum deadline from the queue. The queue must
    /// not be empty: a dispatch was decided on the peeked head.
    pub fn pop_unchecked<CS: DroppableCriticalSection>(&mut self, _cs: &CS) -> (r: ScheduledTask)
        requires
            old(self).wf(),
            old(self)@.len() > 0,
        ensures
            final (self).wf(),
            r == old(self)@[0],
            final (self)@ == old(self)@.drop_first(),
            final (self).spec_capacity() == old(self).spec_capacity(),
    {
        proof {
            broadcast use vstd::seq_lib::group_to_multiset_ensures;

        }
        let popped = heap_pop(&mut self.heap);
        match popped {
            None => {
                proof {
                    assert(false);
                }
                ScheduledTask::from_parts(0, 0, 0)
            },
            Some(m) => {
                proof {
                    let s = self.entries@;
                    lemma_min_tuple_is_head(s, m);
                    let mapped = s.map_values(|t: ScheduledTask| entry_tuple(t));
                    assert(s.remove(0) =~= s.drop_first());
                    assert(mapped.remove(0) =~= s.drop_first().map_values(
                        |t: ScheduledTask| entry_tuple(t),
                    ));
                    assert(mapped.remove(0).to_multiset() == mapped.to_multiset().remove(
                        mapped[0],
                    ));
                    self.entries@ = s.drop_first();
                }
                let task = ScheduledTask::from_parts(m.0, m.1, m.2);
                proof {
                    ScheduledTask::lemma_parts_determine(task, old(self).entries@[0]);
                }
                task
            },
        }
    }
}

/// In a sorted sequence, the head is the (unique) minimal tuple of the
/// sequence's multiset of keys.
proof fn lemma_min_tuple_is_head(s: Seq<ScheduledTask>, m: (u32, u16, u16))
    requires
        entries_sorted(s),
        s.len() > 0,
        s.map_values(|t: ScheduledTask| entry_tuple(t)).to_multiset().count(m) > 0,
        forall|e: (u32, u16, u16)|
            s.map_values(|t: ScheduledTask| entry_tuple(t)).to_multiset().count(e) > 0
                ==> tuple_le(m, e),
    ensures
        m == entry_tuple(s[0]),
{
    broadcast use vstd::seq_lib::group_to_multiset_ensures;

    let mapped = s.map_values(|t: ScheduledTask| entry_tuple(t));
    assert(mapped.contains(m));
    let i = choose|i: int| 0 <= i < mapped.len() && mapped[i] == m;
    assert(entry_le(s[0], s[i])) by {
        if i != 0 {
            assert(entries_sorted(s));
        }
    }
    assert(mapped[0] == entry_tuple(s[0]));
    assert(mapped.contains(mapped[0]));
    assert(mapped.to_multiset().count(mapped[0]) > 0);
    assert(tuple_le(m, entry_tuple(s[0])));
    assert(tuple_le(entry_tuple(s[0]), m));
}

/// Inserting into the sorted sequence inserts the task's key into the
/// multiset of keys.
proof fn lemma_sorted_insert_multiset(s: Seq<ScheduledTask>, t: ScheduledTask)
    ensures
        sorted_insert(s, t).map_values(|u: ScheduledTask| entry_tuple(u)).to_multiset()
            == s.map_values(|u: ScheduledTask| entry_tuple(u)).to_multiset().insert(
            entry_tuple(t),
        ),
    decreases s.len(),
{
    broadcast use vstd::seq_lib::group_to_multiset_ensures;

    let f = |u: ScheduledTask| entry_tuple(u);
    if s.len() == 0 {
        assert(sorted_insert(s, t) =~= seq![t] + s);
        assert(sorted_insert(s, t).map_values(f) =~= seq![entry_tuple(t)] + s.map_values(f));
        lemma_to_multiset_cons(s.map_values(f), entry_tuple(t));
    } else if entry_le(t, s.first()) {
        assert(sorted_insert(s, t).map_values(f) =~= seq![entry_tuple(t)] + s.map_values(f));
        lemma_to_multiset_cons(s.map_values(f), entry_tuple(t));
    } else {
        let rest = sorted_insert(s.drop_first(), t);
        lemma_sorted_insert_multiset(s.drop_first(), t);
        assert(sorted_insert(s, t).map_values(f) =~= seq![entry_tuple(s.first())]
            + rest.map_values(f));
        lemma_to_multiset_cons(rest.map_values(f), entry_tuple(s.first()));
        assert(s.map_values(f) =~= seq![entry_tuple(s.first())] + s.drop_first().map_values(f));
        lemma_to_multiset_cons(s.drop_first().map_values(f), entry_tuple(s.first()));
        assert(rest.map_values(f).to_multiset().insert(entry_tuple(s.first()))
            =~= s.map_values(f).to_multiset().insert(entry_tuple(t)));
    }
}

/// Inserting into the sorted sequence inserts the task itself into the
/// multiset of tasks.
pub proof fn lemma_sorted_insert_task_multiset(s: Seq<ScheduledTask>, t: ScheduledTask)
    ensures
        sorted_insert(s, t).to_multiset() == s.to_multiset().insert(t),
    decreases s.len(),
{
    if s.len() == 0 {
        assert(sorted_insert(s, t) =~= seq![t] + s);
        lemma_to_multiset_cons(s, t);
    } else if entry_le(t, s.first()) {
        lemma_to_multiset_cons(s, t);
    } else {
        let rest = sorted_insert(s.drop_first(), t);
        lemma_sorted_insert_task_multiset(s.drop_first(), t);
        lemma_to_multiset_cons(rest, s.first());
        lemma_to_multiset_cons(s.drop_first(), s.first());
        assert(s =~= seq![s.first()] + s.drop_first());
        assert(rest.to_multiset().insert(s.first()) =~= s.to_multiset().insert(t));
    }
}

/// Everything in the inserted sequence is the new task or was already there.
pub proof fn lemma_sorted_insert_contains(s: Seq<ScheduledTask>, t: ScheduledTask)
    ensures
        forall|x: ScheduledTask|
            #[trigger] sorted_insert(s, t).contains(x) <==> (x == t || s.contains(x)),
{
    broadcast use vstd::seq_lib::group_to_multiset_ensures;

    lemma_sorted_insert_task_multiset(s, t);
    assert forall|x: ScheduledTask| #[trigger] sorted_insert(s, t).contains(x) <==> (x == t
        || s.contains(x)) by {
        assert(sorted_insert(s, t).contains(x) <==> sorted_insert(s, t).to_multiset().count(x)
            > 0);
        assert(s.contains(x) <==> s.to_multiset().count(x) > 0);
        assert(s.to_multiset().insert(x).count(x) == s.to_multiset().count(x) + 1);
        if x != t {
            assert(s.to_multiset().insert(t).count(x) == s.to_multiset().count(x));
        }
    }
}

/// Inserting keeps the sequence sorted.
proof fn lemma_sorted_insert_sorted(s: Seq<ScheduledTask>, t: ScheduledTask)
    requires
        entries_sorted(s),
    ensures
        entries_sorted(sorted_insert(s, t)),
    decreases s.len(),
{
    if s.len() == 0 {
    } else if entry_le(t, s.first()) {
        let r = seq![t] + s;
        assert forall|i: int, j: int| 0 <= i < j < r.len() implies #[trigger] entry_le(
            r[i],
            r[j],
        ) by {
            if i == 0 {
                assert(entry_le(t, s.first()));
                if j > 1 {
                    assert(entry_le(s[0], s[j - 1]));
                }
            } else {
                assert(entry_le(s[i - 1], s[j - 1]));
            }
        }
    } else {
        assert(entries_sorted(s.drop_first())) by {
            assert forall|i: int, j: int|
                0 <= i < j < s.drop_first().len() implies #[trigger] entry_le(
                s.drop_first()[i],
                s.drop_first()[j],
            ) by {
                assert(entry_le(s[i + 1], s[j + 1]));
            }
        }
        lemma_sorted_insert_sorted(s.drop_first(), t);
        lemma_sorted_insert_contains(s.drop_first(), t);
        let inner = sorted_insert(s.drop_first(), t);
        let r = sorted_insert(s, t);
        assert(r =~= seq![s.first()] + inner);
        assert forall|i: int, j: int| 0 <= i < j < r.len() implies #[trigger] entry_le(
            r[i],
            r[j],
        ) by {
            if i == 0 {
                assert(inner.contains(inner[j - 1]));
                if inner[j - 1] == t {
                    assert(entry_le(s.first(), t));
                } else {
                    assert(s.drop_first().contains(inner[j - 1]));
                    let k = choose|k: int|
                        0 <= k < s.drop_first().len() && s.drop_first()[k] == inner[j - 1];
                    assert(s.drop_first()[k] == s[k + 1]);
                    assert(entry_le(s[0], s[k + 1]));
                }
            } else {
                assert(entry_le(inner[i - 1], inner[j - 1]));
            }
        }
    }
}

/// Inserting grows the sequence by one.
proof fn lemma_sorted_insert_len(s: Seq<ScheduledTask>, t: ScheduledTask)
    ensures
        sorted_insert(s, t).len() == s.len() + 1,
    decreases s.len(),
{
    if s.len() == 0 {
    } else if entry_le(t, s.first()) {
    } else {
        lemma_sorted_insert_len(s.drop_first(), t);
    }
}

} // verus!
