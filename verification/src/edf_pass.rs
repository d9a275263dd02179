//! Build-time priority assignment: deadline-monotonic binning of the static
//! task set onto hardware priority levels.
//!
//! The task set is sorted by relative deadline descending (longest deadlines
//! first); scanning that order, the running priority-group counter goes up
//! every time the deadline differs from the previous task's, so all tasks
//! sharing a deadline value land in the same group. Each task's dispatcher
//! index is its position in the descending order (unique per task), and its
//! run-queue index is the group number minus one (shared by same-deadline
//! tasks). The tasks with the shortest deadline thus get the numerically
//! highest group, which maps to the most urgent hardware priority below the
//! level reserved for the arrival-signalling interrupts.

use vstd::prelude::*;

use crate::seq_facts::{lemma_same_multiset_same_set, lemma_to_multiset_insert};
use crate::task::Task;
use crate::types::Deadline;
use crate::wait_queue::WAIT_QUEUE_STORAGE;

verus! {

/// A configuration defect detected at build time, before any runtime state
/// exists.
#[derive(Clone, Copy, Debug, PartialEq, Eq, Structural)]
pub enum ConfigError {
    /// The scheduler needs at least as many dispatchers as there are tasks.
    TooFewDispatchers { tasks: usize, dispatchers: usize },
    /// The highest assigned priority level would not stay strictly below the
    /// priority reserved for the arrival-signalling interrupts; the field
    /// names the offending platform's priority-level limit.
    PriorityLimitExceeded { max_priority: u16 },
}

/// Number of distinct deadline values in a declaration list.
pub open spec fn distinct_deadline_count(s: Seq<Deadline>) -> int {
    s.to_set().len() as int
}

/// The deadlines are non-increasing.
pub open spec fn sorted_descending(s: Seq<Deadline>) -> bool {
    forall|i: int, j: int| 0 <= i < j < s.len() ==> #[trigger] s[i] >= #[trigger] s[j]
}

/// The static table the priority assignment produces: one task per dispatcher,
/// in descending order of relative deadline, grouped into run-queue indices.
#[derive(Debug)]
pub struct TaskSet {
    tasks: Vec<Task>,
}

impl TaskSet {
    /// The tasks in assignment order; a task's dispatcher index is its
    /// position here.
    pub closed spec fn view(&self) -> Seq<Task> {
        self.tasks@
    }

    /// What the assignment algorithm guarantees of its output:
    /// dispatcher indices are the positions in the table, deadlines descend,
    /// and run-queue indices start at zero and go up by one exactly where the
    /// deadline changes.
    pub open spec fn wf(&self) -> bool {
        &&& self@.len() <= WAIT_QUEUE_STORAGE
        &&& forall|i: int|
            0 <= i < self@.len() ==> #[trigger] self@[i].dispatcher_index() as int == i
        &&& sorted_descending(self@.map_values(|t: Task| t.rel_deadline()))
        &&& self@.len() > 0 ==> self@[0].rq_index() == 0
        &&& forall|i: int|
            1 <= i < self@.len() ==> #[trigger] self@[i].rq_index() as int == self@[i
                - 1].rq_index() + (if self@[i].rel_deadline() == self@[i - 1].rel_deadline() {
                0int
            } else {
                1int
            })
    }

    /// The number of priority groups: one per distinct relative deadline.
    /// This is the number of run-queue slots the task set needs.
    pub open spec fn group_count(&self) -> int {
        if self@.len() == 0 {
            0
        } else {
            self@[self@.len() - 1].rq_index() + 1
        }
    }

    /// The number of tasks.
    pub fn num_tasks(&self) -> (n: usize)
        ensures
            n == self@.len(),
    {
        self.tasks.len()
    }

    /// The number of priority groups (distinct relative deadlines).
    pub fn num_groups(&self) -> (g: usize)
        requires
            self.wf(),
        ensures
            g == self.group_count(),
    {
        if self.tasks.len() == 0 {
            0
        } else {
            proof {
                self.lemma_rq_le_index();
            }
            self.tasks[self.tasks.len() - 1].rq_index() as usize + 1
        }
    }

    /// The task at position (= dispatcher index) `i`.
    pub fn task(&self, i: usize) -> (t: Task)
        requires
            i < self@.len(),
        ensures
            t == self@[i as int],
    {
        self.tasks[i]
    }

    /// The distinct hardware priority levels the task set uses: the group
    /// numbers `1..=group_count`, ascending. A higher group number means a
    /// more urgent level; the level above the highest is reserved for the
    /// arrival-signalling interrupts.
    pub fn dispatcher_priorities(&self) -> (r: Vec<u16>)
        requires
            self.wf(),
        ensures
            r@.len() == self.group_count(),
            forall|i: int| 0 <= i < r@.len() ==> #[trigger] r@[i] as int == i + 1,
    {
        proof {
            self.lemma_rq_le_index();
        }
        let groups = self.num_groups();
        let mut r: Vec<u16> = Vec::new();
        let mut p: usize = 1;
        while p <= groups
            invariant
                groups <= WAIT_QUEUE_STORAGE,
                1 <= p <= groups + 1,
                r@.len() == p - 1,
                forall|i: int| 0 <= i < r@.len() ==> #[trigger] r@[i] as int == i + 1,
            decreases groups + 1 - p,
        {
            r.push(p as u16);
            p += 1;
        }
        r
    }

    /// The length the wait queue needs: the number of tasks minus the number
    /// of distinct deadlines, because each priority level can bypass the
    /// queue exactly once before subsequent same-priority arrivals must
    /// queue.
    pub fn wait_queue_len(&self) -> (n: usize)
        requires
            self.wf(),
        ensures
            n == self@.len() - self.group_count(),
    {
        proof {
            self.lemma_rq_le_index();
        }
        let tasks = self.tasks.len();
        let groups = self.num_groups();
        tasks - groups
    }

    /// A run-queue index never exceeds the task's position.
    pub proof fn lemma_rq_le_index(&self)
        requires
            self.wf(),
        ensures
            forall|i: int| 0 <= i < self@.len() ==> #[trigger] self@[i].rq_index() as int <= i,
    {
        assert forall|i: int| 0 <= i < self@.len() implies #[trigger] self@[i].rq_index() as int
            <= i by {
            self.lemma_rq_le_index_one(i);
        }
    }

    proof fn lemma_rq_le_index_one(&self, i: int)
        requires
            self.wf(),
            0 <= i < self@.len(),
        ensures
            self@[i].rq_index() as int <= i,
        decreases i,
    {
        if i > 0 {
            self.lemma_rq_le_index_one(i - 1);
        }
    }

    /// Run-queue indices never go down along the table.
    pub proof fn lemma_rq_monotone(&self, i: int, j: int)
        requires
            self.wf(),
            0 <= i <= j < self@.len(),
        ensures
            self@[i].rq_index() <= self@[j].rq_index(),
        decreases j - i,
    {
        if i < j {
            self.lemma_rq_monotone(i, j - 1);
        }
    }

    /// Every run-queue index is a valid group: below the group count.
    pub proof fn lemma_rq_bounded(&self)
        requires
            self.wf(),
        ensures
            forall|i: int|
                0 <= i < self@.len() ==> #[trigger] self@[i].rq_index() < self.group_count(),
    {
        assert forall|i: int| 0 <= i < self@.len() implies #[trigger] self@[i].rq_index()
            < self.group_count() by {
            self.lemma_rq_monotone(i, self@.len() - 1);
        }
    }

    /// Every group below the group count is inhabited by some task.
    pub proof fn lemma_group_inhabited(&self, g: int)
        requires
            self.wf(),
            0 <= g < self.group_count(),
        ensures
            exists|i: int| 0 <= i < self@.len() && #[trigger] self@[i].rq_index() == g,
    {
        self.lemma_group_inhabited_below(self@.len() - 1, g)
    }

    proof fn lemma_group_inhabited_below(&self, j: int, g: int)
        requires
            self.wf(),
            0 <= j < self@.len(),
            0 <= g <= self@[j].rq_index(),
        ensures
            exists|i: int| 0 <= i < self@.len() && #[trigger] self@[i].rq_index() == g,
        decreases j,
    {
        if self@[j].rq_index() == g {
            assert(self@[j].rq_index() == g);
        } else {
            self.lemma_group_inhabited_below(j - 1, g);
        }
    }

    /// Two tasks share a run-queue index exactly when they were declared with
    /// the same relative deadline: a priority group is one distinct deadline.
    pub proof fn lemma_same_group_iff_same_deadline(&self, i: int, j: int)
        requires
            self.wf(),
            0 <= i <= j < self@.len(),
        ensures
            self@[i].rq_index() == self@[j].rq_index() <==> self@[i].rel_deadline()
                == self@[j].rel_deadline(),
        decreases j - i,
    {
        let rels = self@.map_values(|t: Task| t.rel_deadline());
        if i < j {
            self.lemma_same_group_iff_same_deadline(i, j - 1);
            self.lemma_rq_monotone(i, j - 1);
            self.lemma_rq_monotone(j - 1, j);
            assert(rels[i] == self@[i].rel_deadline());
            assert(rels[j - 1] == self@[j - 1].rel_deadline());
            assert(rels[j] == self@[j].rel_deadline());
            assert(self@[i].rel_deadline() >= self@[j - 1].rel_deadline());
            assert(self@[j - 1].rel_deadline() >= self@[j].rel_deadline());
        }
    }

    /// The group count is exactly the number of distinct relative deadlines
    /// in the table.
    pub proof fn lemma_group_count_is_distinct(&self)
        requires
            self.wf(),
        ensures
            self.group_count() == distinct_deadline_count(
                self@.map_values(|t: Task| t.rel_deadline()),
            ),
    {
        self.lemma_group_count_is_distinct_prefix(self@.len() as int);
        let rels = self@.map_values(|t: Task| t.rel_deadline());
        assert(rels.take(self@.len() as int) =~= rels);
    }

    proof fn lemma_group_count_is_distinct_prefix(&self, n: int)
        requires
            self.wf(),
            0 <= n <= self@.len(),
        ensures
            (if n == 0 {
                0int
            } else {
                self@[n - 1].rq_index() + 1
            }) == self@.map_values(|t: Task| t.rel_deadline()).take(n).to_set().len() as int,
        decreases n,
    {
        broadcast use vstd::seq_lib::seq_to_set_is_finite;

        let rels = self@.map_values(|t: Task| t.rel_deadline());
        if n == 0 {
            assert(rels.take(0) =~= Seq::<Deadline>::empty());
            assert(rels.take(0).to_set() =~= Set::<Deadline>::empty()) by {
                assert(forall|v: Deadline| !rels.take(0).contains(v));
            }
        } else {
            self.lemma_group_count_is_distinct_prefix(n - 1);
            let prev = rels.take(n - 1);
            let cur = rels.take(n);
            assert(cur =~= prev.push(rels[n - 1]));
            assert(cur.to_set() =~= prev.to_set().insert(rels[n - 1])) by {
                assert(forall|v: Deadline|
                    #[trigger] cur.contains(v) <==> (prev.contains(v) || v == rels[n - 1])) by {
                    assert(forall|k: int| 0 <= k < n - 1 ==> cur[k] == prev[k]);
                    assert(cur[n - 1] == rels[n - 1]);
                }
            }
            if n == 1 {
                assert(!prev.contains(rels[0]));
                assert(prev.to_set().insert(rels[0]).len() == prev.to_set().len() + 1);
                assert(self@[0].rq_index() == 0);
            } else if rels[n - 1] == rels[n - 2] {
                assert(prev.contains(rels[n - 1])) by {
                    assert(prev[n - 2] == rels[n - 2]);
                }
                assert(prev.to_set().contains(rels[n - 1]));
                assert(prev.to_set().insert(rels[n - 1]) =~= prev.to_set());
                assert(self@[n - 1].rq_index() == self@[n - 2].rq_index());
            } else {
                assert(!prev.contains(rels[n - 1])) by {
                    assert forall|k: int| 0 <= k < n - 1 implies prev[k] != rels[n - 1] by {
                        assert(prev[k] == rels[k]);
                        assert(rels[k] >= rels[n - 2]);
                        assert(rels[n - 2] >= rels[n - 1]);
                        assert(rels[n - 2] != rels[n - 1]);
                    }
                }
                assert(!prev.to_set().contains(rels[n - 1]));
                assert(prev.to_set().insert(rels[n - 1]).len() == prev.to_set().len() + 1);
                assert(self@[n - 1].rq_index() as int == self@[n - 2].rq_index() + 1);
            }
        }
    }
}

/// Configuration of the build-time deadline-to-priority conversion: the range
/// of hardware priority levels available on the platform. The highest level
/// is reserved for the arrival-signalling interrupts, so assigned levels must
/// stay strictly below it.
pub struct EdfPass {
    min_priority: u16,
    max_priority: u16,
}

impl EdfPass {
    /// The lowest hardware priority level available to dispatchers.
    pub closed spec fn spec_min_priority(&self) -> u16 {
        self.min_priority
    }

    /// The platform's priority-level limit; also the level reserved for the
    /// arrival-signalling interrupts.
    pub closed spec fn spec_max_priority(&self) -> u16 {
        self.max_priority
    }

    pub fn new(min_priority: u16, max_priority: u16) -> (p: Self)
        ensures
            p.spec_min_priority() == min_priority,
            p.spec_max_priority() == max_priority,
    {
        Self { min_priority, max_priority }
    }

    /// Sort the declared deadlines descending, then assign each task its
    /// dispatcher index (position) and run-queue index (priority group).
    ///
    /// Fails, before any runtime code could exist, when there are fewer
    /// dispatcher resources than tasks, or when the highest assigned priority
    /// group would not stay strictly below the reserved signalling priority.
    pub fn assign_dispatchers_and_priorities(
        &self,
        deadlines: &Vec<Deadline>,
        num_dispatchers: usize,
    ) -> (r: Result<TaskSet, ConfigError>)
        requires
            deadlines@.len() <= WAIT_QUEUE_STORAGE,
        ensures
            r is Err <==> (num_dispatchers < deadlines@.len() || distinct_deadline_count(
                deadlines@,
            ) >= self.spec_max_priority()),
            num_dispatchers < deadlines@.len() ==> r == Result::<TaskSet, ConfigError>::Err(
                ConfigError::TooFewDispatchers {
                    tasks: deadlines@.len() as usize,
                    dispatchers: num_dispatchers,
                },
            ),
            (num_dispatchers >= deadlines@.len() && distinct_deadline_count(deadlines@)
                >= self.spec_max_priority()) ==> r == Result::<TaskSet, ConfigError>::Err(
                ConfigError::PriorityLimitExceeded { max_priority: self.spec_max_priority() },
            ),
            r matches Ok(ts) ==> {
                &&& ts.wf()
                &&& ts@.len() == deadlines@.len()
                &&& ts@.map_values(|t: Task| t.rel_deadline()).to_multiset()
                    == deadlines@.to_multiset()
                &&& ts.group_count() == distinct_deadline_count(deadlines@)
                &&& ts.group_count() < self.spec_max_priority()
            },
    {
        if num_dispatchers < deadlines.len() {
            return Err(
                ConfigError::TooFewDispatchers {
                    tasks: deadlines.len(),
                    dispatchers: num_dispatchers,
                },
            );
        }
        let sorted = sort_deadlines_descending(deadlines);
        proof {
            lemma_same_multiset_same_set(sorted@, deadlines@);
        }
        let n = sorted.len();
        let mut tasks: Vec<Task> = Vec::new();
        let mut group: u16 = 0;
        let mut i: usize = 0;
        while i < n
        invariant
            n == sorted@.len(),
            n <= WAIT_QUEUE_STORAGE,
            sorted_descending(sorted@),
            i <= n,
            tasks@.len() == i,
            forall|k: int| 0 <= k < i ==> #[trigger] tasks@[k].dispatcher_index() as int == k,
            forall|k: int| 0 <= k < i ==> #[trigger] tasks@[k].rel_deadline() == sorted@[k],
            i > 0 ==> tasks@[0].rq_index() == 0,
            forall|k: int|
                1 <= k < i ==> #[trigger] tasks@[k].rq_index() as int == tasks@[k
                    - 1].rq_index() + (if tasks@[k].rel_deadline() == tasks@[k
                    - 1].rel_deadline() {
                    0int
                } else {
                    1int
                }),
            i > 0 ==> group == tasks@[i - 1].rq_index(),
            group as int <= i,
        decreases n - i,
        {
            if i > 0 && sorted[i] != sorted[i - 1] {
                group = group + 1;
            }
            tasks.push(Task::new(sorted[i], i as u16, group));
            i += 1;
        }
        let ts = TaskSet { tasks };
        proof {
            assert(ts@.map_values(|t: Task| t.rel_deadline()) =~= sorted@);
            assert(ts.wf());
            ts.lemma_group_count_is_distinct();
        }
        let groups = ts.num_groups();
        if groups >= self.max_priority as usize {
            return Err(ConfigError::PriorityLimitExceeded { max_priority: self.max_priority });
        }
        Ok(ts)
    }
}

/// Sort a list of deadlines in descending order by insertion.
fn sort_deadlines_descending(deadlines: &Vec<Deadline>) -> (r: Vec<Deadline>)
    ensures
        r@.len() == deadlines@.len(),
        sorted_descending(r@),
        r@.to_multiset() == deadlines@.to_multiset(),
{
    broadcast use vstd::seq_lib::group_to_multiset_ensures;

    let mut r: Vec<Deadline> = Vec::new();
    let mut i: usize = 0;
    proof {
        assert(deadlines@.take(0) =~= Seq::<Deadline>::empty());
        assert(r@ =~= Seq::<Deadline>::empty());
    }
    while i < deadlines.len()
        invariant
            i <= deadlines@.len(),
            r@.len() == i,
            sorted_descending(r@),
            r@.to_multiset() == deadlines@.take(i as int).to_multiset(),
        decreases deadlines@.len() - i,
    {
        let x = deadlines[i];
        let mut j: usize = 0;
        while j < r.len() && r[j] >= x
            invariant
                j <= r@.len(),
                forall|k: int| 0 <= k < j ==> #[trigger] r@[k] >= x,
                sorted_descending(r@),
            decreases r@.len() - j,
        {
            j += 1;
        }
        let ghost old_r = r@;
        r.insert(j, x);
        proof {
            assert(sorted_descending(r@)) by {
                assert forall|p: int, q: int| 0 <= p < q < r@.len() implies #[trigger] r@[p]
                    >= #[trigger] r@[q] by {
                    if q < j {
                        assert(r@[p] == old_r[p] && r@[q] == old_r[q]);
                    } else if p < j && q == j {
                        assert(r@[p] == old_r[p]);
                    } else if p < j && q > j {
                        assert(r@[p] == old_r[p] && r@[q] == old_r[q - 1]);
                        if j < old_r.len() {
                            assert(old_r[j as int] < x);
                            assert(old_r[q - 1] <= old_r[p]);
                        }
                    } else if p == j {
                        assert(r@[q] == old_r[q - 1]);
                        assert(old_r[j as int] < x);
                        if q - 1 > j {
                            assert(old_r[q - 1] <= old_r[j as int]);
                        }
                    } else {
                        assert(r@[p] == old_r[p - 1] && r@[q] == old_r[q - 1]);
                    }
                }
            }
            broadcast use vstd::seq_lib::group_to_multiset_ensures;

            lemma_to_multiset_insert(old_r, j as int, x);
            assert(deadlines@.take(i + 1) =~= deadlines@.take(i as int).push(x));
            assert(deadlines@.take(i as int).push(x).to_multiset() == deadlines@.take(
                i as int,
            ).to_multiset().insert(x));
        }
        i += 1;
    }
    proof {
        assert(deadlines@.take(deadlines@.len() as int) =~= deadlines@);
    }
    r
}

} // verus!
