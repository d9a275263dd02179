//! Counting arguments behind the wait-queue capacity bound.
//!
//! The priority assignment puts every task into a priority group (its
//! run-queue index). The scheduler's invariant keeps, for every group, the
//! number of waiting tasks strictly below the group's size; summing over the
//! groups bounds the whole wait queue by `task count - group count`.

use vstd::prelude::*;

use crate::task::{ScheduledTask, Task};
use crate::wait_queue::sorted_insert;

verus! {

/// How many waiting tasks belong to group `g`.
pub open spec fn waiting_count(s: Seq<ScheduledTask>, g: int) -> int
    decreases s.len(),
{
    if s.len() == 0 {
        0
    } else {
        (if s.first().rq_index() == g {
            1int
        } else {
            0int
        }) + waiting_count(s.drop_first(), g)
    }
}

/// How many waiting tasks carry dispatcher index `id`. A dispatcher index
/// identifies a task, so this is 0 or 1 whenever arrivals are properly
/// masked.
pub open spec fn id_count(s: Seq<ScheduledTask>, id: int) -> int
    decreases s.len(),
{
    if s.len() == 0 {
        0
    } else {
        (if s.first().dispatcher_index() == id {
            1int
        } else {
            0int
        }) + id_count(s.drop_first(), id)
    }
}

/// The waiting counts of the groups below `k`, summed.
pub open spec fn waiting_total(s: Seq<ScheduledTask>, k: int) -> int
    decreases k,
{
    if k <= 0 {
        0
    } else {
        waiting_total(s, k - 1) + waiting_count(s, k - 1)
    }
}

/// How many declared tasks belong to group `g`.
pub open spec fn group_size(c: Seq<Task>, g: int) -> int
    decreases c.len(),
{
    if c.len() == 0 {
        0
    } else {
        group_size(c.drop_last(), g) + (if c.last().rq_index() == g {
            1int
        } else {
            0int
        })
    }
}

/// The sizes of the groups below `k`, summed.
pub open spec fn size_total(c: Seq<Task>, k: int) -> int
    decreases k,
{
    if k <= 0 {
        0
    } else {
        size_total(c, k - 1) + group_size(c, k - 1)
    }
}

/// Id counts are never negative.
pub proof fn lemma_id_count_nonneg(s: Seq<ScheduledTask>, id: int)
    ensures
        0 <= id_count(s, id),
    decreases s.len(),
{
    if s.len() > 0 {
        lemma_id_count_nonneg(s.drop_first(), id);
    }
}

/// Group sizes are never negative.
pub proof fn lemma_group_size_nonneg(c: Seq<Task>, g: int)
    ensures
        0 <= group_size(c, g),
    decreases c.len(),
{
    if c.len() > 0 {
        lemma_group_size_nonneg(c.drop_last(), g);
    }
}

/// An inhabited group has size at least one.
pub proof fn lemma_group_size_pos(c: Seq<Task>, g: int, i: int)
    requires
        0 <= i < c.len(),
        c[i].rq_index() == g,
    ensures
        group_size(c, g) >= 1,
    decreases c.len(),
{
    lemma_group_size_nonneg(c.drop_last(), g);
    if i < c.len() - 1 {
        lemma_group_size_pos(c.drop_last(), g, i);
    }
}

/// Inserting a task into the sorted queue raises exactly its group's count.
pub proof fn lemma_waiting_count_sorted_insert(s: Seq<ScheduledTask>, t: ScheduledTask, g: int)
    ensures
        waiting_count(sorted_insert(s, t), g) == waiting_count(s, g) + (if t.rq_index() == g {
            1int
        } else {
            0int
        }),
    decreases s.len(),
{
    let r = sorted_insert(s, t);
    if s.len() == 0 {
        assert(r == seq![t]);
        assert(r.drop_first() =~= Seq::<ScheduledTask>::empty());
        assert(waiting_count(r.drop_first(), g) == 0);
        assert(waiting_count(r, g) == (if t.rq_index() == g { 1int } else { 0int }));
    } else if crate::wait_queue::entry_le(t, s.first()) {
        assert(r == seq![t] + s);
        assert(r.len() == s.len() + 1);
        assert(r.first() == t);
        assert(r.drop_first() =~= s);
        assert(waiting_count(r, g) == (if t.rq_index() == g { 1int } else { 0int })
            + waiting_count(s, g));
    } else {
        let inner = sorted_insert(s.drop_first(), t);
        lemma_waiting_count_sorted_insert(s.drop_first(), t, g);
        assert(r == seq![s.first()] + inner);
        assert(r.len() == inner.len() + 1);
        assert(r.first() == s.first());
        assert(r.drop_first() =~= inner);
        assert(waiting_count(r, g) == (if s.first().rq_index() == g { 1int } else { 0int })
            + waiting_count(inner, g));
        assert(waiting_count(s, g) == (if s.first().rq_index() == g { 1int } else { 0int })
            + waiting_count(s.drop_first(), g));
    }
}

/// Inserting a task into the sorted queue raises exactly its id's count.
pub proof fn lemma_id_count_sorted_insert(s: Seq<ScheduledTask>, t: ScheduledTask, id: int)
    ensures
        id_count(sorted_insert(s, t), id) == id_count(s, id) + (if t.dispatcher_index() == id {
            1int
        } else {
            0int
        }),
    decreases s.len(),
{
    let r = sorted_insert(s, t);
    if s.len() == 0 {
        assert(r == seq![t]);
        assert(r.drop_first() =~= Seq::<ScheduledTask>::empty());
        assert(id_count(r.drop_first(), id) == 0);
        assert(id_count(r, id) == (if t.dispatcher_index() == id { 1int } else { 0int }));
    } else if crate::wait_queue::entry_le(t, s.first()) {
        assert(r == seq![t] + s);
        assert(r.len() == s.len() + 1);
        assert(r.first() == t);
        assert(r.drop_first() =~= s);
        assert(id_count(r, id) == (if t.dispatcher_index() == id { 1int } else { 0int })
            + id_count(s, id));
    } else {
        let inner = sorted_insert(s.drop_first(), t);
        lemma_id_count_sorted_insert(s.drop_first(), t, id);
        assert(r == seq![s.first()] + inner);
        assert(r.len() == inner.len() + 1);
        assert(r.first() == s.first());
        assert(r.drop_first() =~= inner);
        assert(id_count(r, id) == (if s.first().dispatcher_index() == id { 1int } else { 0int })
            + id_count(inner, id));
        assert(id_count(s, id) == (if s.first().dispatcher_index() == id { 1int } else { 0int })
            + id_count(s.drop_first(), id));
    }
}

/// Dropping the head lowers the totals by the head's own contribution.
proof fn lemma_waiting_total_cons(s: Seq<ScheduledTask>, k: int)
    requires
        s.len() > 0,
    ensures
        waiting_total(s, k) == waiting_total(s.drop_first(), k) + (if 0 <= s.first().rq_index()
            < k {
            1int
        } else {
            0int
        }),
    decreases k,
{
    if k > 0 {
        lemma_waiting_total_cons(s, k - 1);
    }
}

/// When every waiting task's group lies below `k`, the summed counts cover
/// the whole queue.
pub proof fn lemma_waiting_total_is_len(s: Seq<ScheduledTask>, k: int)
    requires
        forall|i: int| 0 <= i < s.len() ==> 0 <= #[trigger] s[i].rq_index() < k,
    ensures
        waiting_total(s, k) == s.len(),
    decreases s.len(),
{
    if s.len() == 0 {
        lemma_waiting_total_empty(s, k);
    } else {
        lemma_waiting_total_cons(s, k);
        assert(forall|i: int|
            0 <= i < s.drop_first().len() ==> #[trigger] s.drop_first()[i] == s[i + 1]);
        lemma_waiting_total_is_len(s.drop_first(), k);
    }
}

proof fn lemma_waiting_total_empty(s: Seq<ScheduledTask>, k: int)
    requires
        s.len() == 0,
    ensures
        waiting_total(s, k) == 0,
    decreases k,
{
    if k > 0 {
        lemma_waiting_total_empty(s, k - 1);
    }
}

/// Dropping the final task lowers the summed sizes by its own contribution.
proof fn lemma_size_total_snoc(c: Seq<Task>, k: int)
    requires
        c.len() > 0,
    ensures
        size_total(c, k) == size_total(c.drop_last(), k) + (if 0 <= c.last().rq_index() < k {
            1int
        } else {
            0int
        }),
    decreases k,
{
    if k > 0 {
        lemma_size_total_snoc(c, k - 1);
    }
}

/// When every task's group lies below `k`, the summed group sizes cover the
/// whole task set.
pub proof fn lemma_size_total_is_len(c: Seq<Task>, k: int)
    requires
        forall|i: int| 0 <= i < c.len() ==> 0 <= #[trigger] c[i].rq_index() < k,
    ensures
        size_total(c, k) == c.len(),
    decreases c.len(),
{
    if c.len() == 0 {
        lemma_size_total_empty(c, k);
    } else {
        lemma_size_total_snoc(c, k);
        lemma_size_total_is_len(c.drop_last(), k);
    }
}

proof fn lemma_size_total_empty(c: Seq<Task>, k: int)
    requires
        c.len() == 0,
    ensures
        size_total(c, k) == 0,
    decreases k,
{
    if k > 0 {
        lemma_size_total_empty(c, k - 1);
    }
}

/// Summing per-group bounds: when every group keeps one task out of the
/// queue, the queue stays `k` short of the task count.
pub proof fn lemma_sum_per_group_bound(s: Seq<ScheduledTask>, c: Seq<Task>, k: int)
    requires
        forall|g: int| 0 <= g < k ==> #[trigger] waiting_count(s, g) <= group_size(c, g) - 1,
    ensures
        waiting_total(s, k) <= size_total(c, k) - k,
    decreases k,
{
    if k > 0 {
        lemma_sum_per_group_bound(s, c, k - 1);
    }
}

/// As above, but one group is known to keep two tasks out.
pub proof fn lemma_sum_per_group_bound_strict(s: Seq<ScheduledTask>, c: Seq<Task>, k: int, g: int)
    requires
        forall|h: int| 0 <= h < k ==> #[trigger] waiting_count(s, h) <= group_size(c, h) - 1,
        0 <= g < k,
        waiting_count(s, g) <= group_size(c, g) - 2,
    ensures
        waiting_total(s, k) <= size_total(c, k) - k - 1,
    decreases k,
{
    if g == k - 1 {
        lemma_sum_per_group_bound(s, c, k - 1);
    } else {
        lemma_sum_per_group_bound_strict(s, c, k - 1, g);
    }
}

/// Distinct dispatcher indices, all naming tasks of group `g`, can be no more
/// numerous than the group itself.
pub proof fn lemma_distinct_group_ids_le_size(ids: Seq<int>, c: Seq<Task>, g: int)
    requires
        forall|p: int, q: int| 0 <= p < q < ids.len() ==> ids[p] != ids[q],
        forall|p: int|
            0 <= p < ids.len() ==> 0 <= #[trigger] ids[p] < c.len() && c[ids[p]].rq_index() == g,
    ensures
        ids.len() <= group_size(c, g),
    decreases c.len(),
{
    if c.len() == 0 {
        if ids.len() > 0 {
            assert(0 <= ids[0] < c.len());
            assert(false);
        }
    } else {
        let m = c.len() - 1;
        let c2 = c.drop_last();
        assert(forall|id: int| 0 <= id < c2.len() ==> c2[id] == c[id]);
        if exists|p: int| 0 <= p < ids.len() && ids[p] == m {
            let p = choose|p: int| 0 <= p < ids.len() && ids[p] == m;
            assert(c[m].rq_index() == g);
            let ids2 = ids.remove(p);
            assert(forall|q: int| 0 <= q < p ==> ids2[q] == ids[q]);
            assert(forall|q: int| p <= q < ids2.len() ==> ids2[q] == ids[q + 1]);
            assert forall|u: int, v: int| 0 <= u < v < ids2.len() implies ids2[u] != ids2[v] by {
                let iu = if u < p {
                    u
                } else {
                    u + 1
                };
                let iv = if v < p {
                    v
                } else {
                    v + 1
                };
                assert(ids2[u] == ids[iu] && ids2[v] == ids[iv]);
            }
            assert forall|q: int| 0 <= q < ids2.len() implies 0 <= #[trigger] ids2[q] < c2.len()
                && c2[ids2[q]].rq_index() == g by {
                let iq = if q < p {
                    q
                } else {
                    q + 1
                };
                assert(ids2[q] == ids[iq]);
                assert(ids[iq] != m);
            }
            lemma_distinct_group_ids_le_size(ids2, c2, g);
        } else {
            assert forall|q: int| 0 <= q < ids.len() implies 0 <= #[trigger] ids[q] < c2.len()
                && c2[ids[q]].rq_index() == g by {
                assert(ids[q] != m);
            }
            lemma_distinct_group_ids_le_size(ids, c2, g);
        }
    }
}

/// The ids of the waiting tasks of group `g`, in queue order.
pub open spec fn group_ids(s: Seq<ScheduledTask>, g: int) -> Seq<int>
    decreases s.len(),
{
    if s.len() == 0 {
        Seq::empty()
    } else if s.first().rq_index() == g {
        seq![s.first().dispatcher_index() as int] + group_ids(s.drop_first(), g)
    } else {
        group_ids(s.drop_first(), g)
    }
}

/// There are as many group ids as waiting tasks of the group.
pub proof fn lemma_group_ids_len(s: Seq<ScheduledTask>, g: int)
    ensures
        group_ids(s, g).len() == waiting_count(s, g),
    decreases s.len(),
{
    if s.len() > 0 {
        lemma_group_ids_len(s.drop_first(), g);
    }
}

/// A group id is an id of some waiting task of the group, occurring no more
/// often than in the queue itself.
pub proof fn lemma_group_ids_counts(s: Seq<ScheduledTask>, c: Seq<Task>, g: int)
    requires
        forall|i: int|
            0 <= i < s.len() ==> 0 <= #[trigger] s[i].dispatcher_index() < c.len()
                && c[s[i].dispatcher_index() as int].rq_index() == s[i].rq_index(),
    ensures
        forall|q: int|
            0 <= q < group_ids(s, g).len() ==> id_count(s, #[trigger] group_ids(s, g)[q]) >= 1,
        forall|q1: int, q2: int|
            0 <= q1 < q2 < group_ids(s, g).len() && #[trigger] group_ids(s, g)[q1]
                == #[trigger] group_ids(s, g)[q2] ==> id_count(s, group_ids(s, g)[q1]) >= 2,
        forall|q: int|
            0 <= q < group_ids(s, g).len() ==> 0 <= #[trigger] group_ids(s, g)[q] < c.len()
                && c[group_ids(s, g)[q]].rq_index() == g,
    decreases s.len(),
{
    if s.len() > 0 {
        let rest = s.drop_first();
        assert(forall|i: int| 0 <= i < rest.len() ==> #[trigger] rest[i] == s[i + 1]);
        lemma_group_ids_counts(rest, c, g);
        lemma_id_count_nonneg_all(rest);
        let gi = group_ids(s, g);
        let gir = group_ids(rest, g);
        if s.first().rq_index() == g {
            assert(gi =~= seq![s.first().dispatcher_index() as int] + gir);
            assert(gi[0] == s.first().dispatcher_index() as int);
            assert(forall|q: int| 1 <= q < gi.len() ==> #[trigger] gi[q] == gir[q - 1]);
            assert forall|q: int| 0 <= q < gi.len() implies id_count(s, #[trigger] gi[q])
                >= 1 by {
                if q == 0 {
                    assert(id_count(s, gi[0]) == 1 + id_count(rest, gi[0]));
                } else {
                    assert(id_count(rest, gir[q - 1]) >= 1);
                }
            }
            assert forall|q1: int, q2: int|
                0 <= q1 < q2 < gi.len() && #[trigger] gi[q1] == #[trigger] gi[q2] implies
                id_count(s, gi[q1]) >= 2 by {
                if q1 == 0 {
                    assert(id_count(rest, gir[q2 - 1]) >= 1);
                    assert(id_count(s, gi[0]) == 1 + id_count(rest, gi[0]));
                } else {
                    assert(id_count(rest, gir[q1 - 1]) >= 2);
                    assert(id_count(s, gi[q1]) >= id_count(rest, gi[q1]));
                }
            }
            assert forall|q: int| 0 <= q < gi.len() implies 0 <= #[trigger] gi[q] < c.len()
                && c[gi[q]].rq_index() == g by {
                if q == 0 {
                    assert(s[0].dispatcher_index() == gi[0]);
                    assert(c[gi[0]].rq_index() == s[0].rq_index());
                } else {
                    assert(gi[q] == gir[q - 1]);
                }
            }
        } else {
            assert(gi =~= gir);
            assert forall|q: int| 0 <= q < gi.len() implies id_count(s, #[trigger] gi[q])
                >= 1 by {
                assert(id_count(rest, gir[q]) >= 1);
                assert(id_count(s, gi[q]) >= id_count(rest, gi[q]));
            }
            assert forall|q1: int, q2: int|
                0 <= q1 < q2 < gi.len() && #[trigger] gi[q1] == #[trigger] gi[q2] implies
                id_count(s, gi[q1]) >= 2 by {
                assert(id_count(rest, gir[q1]) >= 2);
                assert(id_count(s, gi[q1]) >= id_count(rest, gi[q1]));
            }
        }
    }
}

proof fn lemma_id_count_nonneg_all(s: Seq<ScheduledTask>)
    ensures
        forall|id: int| 0 <= #[trigger] id_count(s, id),
{
    assert forall|id: int| 0 <= #[trigger] id_count(s, id) by {
        lemma_id_count_nonneg(s, id);
    }
}

} // verus!
