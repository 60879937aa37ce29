//! Facts about sequences of task views: lookup by id, the active count,
//! the queue order, and the registry-wide step relation.
use vstd::prelude::*;
use crate::status::{DownloadStatus, active, step_allowed};
use crate::task::{TaskView, task_step, task_wf, no_completion};

verus! {

/// Position of the task with id `id` at or after `k`, or -1.
pub open spec fn index_from(s: Seq<TaskView>, id: Seq<char>, k: int) -> int
    decreases s.len() - k,
{
    if k < 0 || k >= s.len() {
        -1
    } else if s[k].id == id {
        k
    } else {
        index_from(s, id, k + 1)
    }
}

/// Position of the task with id `id`, or -1.
pub open spec fn index_of(s: Seq<TaskView>, id: Seq<char>) -> int {
    index_from(s, id, 0)
}

/// Oldest queued task at or after `k`, or -1.
pub open spec fn queued_from(s: Seq<TaskView>, k: int) -> int
    decreases s.len() - k,
{
    if k < 0 || k >= s.len() {
        -1
    } else if s[k].status == DownloadStatus::Queued {
        k
    } else {
        queued_from(s, k + 1)
    }
}

/// The oldest queued task, or -1.
pub open spec fn first_queued(s: Seq<TaskView>) -> int {
    queued_from(s, 0)
}

/// How many tasks hold a downloader slot.
pub open spec fn count_active(s: Seq<TaskView>) -> nat
    decreases s.len(),
{
    if s.len() == 0 {
        0
    } else {
        count_active(s.drop_last()) + if active(s.last().status) {
            1nat
        } else {
            0nat
        }
    }
}

/// Process ids of the live downloaders, in registry order.
pub open spec fn children(s: Seq<TaskView>) -> Seq<u32>
    decreases s.len(),
{
    if s.len() == 0 {
        seq![]
    } else {
        children(s.drop_last()) + match s.last().child {
            Some(p) => seq![p],
            None => seq![],
        }
    }
}

pub open spec fn ids_unique(s: Seq<TaskView>) -> bool {
    forall|i: int, j: int| 0 <= i < j < s.len() ==> s[i].id != s[j].id
}

pub open spec fn all_wf(s: Seq<TaskView>) -> bool {
    forall|i: int| 0 <= i < s.len() ==> task_wf(#[trigger] s[i])
}

/// Registry invariant: unique ids, every task well formed, and no more
/// active tasks than the limit.
pub open spec fn registry_wf(s: Seq<TaskView>, max: nat) -> bool {
    ids_unique(s) && all_wf(s) && count_active(s) <= max
}

/// A change of the registry that may be observed: existing tasks keep
/// their place and take a permitted step; new tasks start from Queued.
pub open spec fn registry_step(a: Seq<TaskView>, b: Seq<TaskView>) -> bool {
    &&& a.len() <= b.len()
    &&& forall|i: int| 0 <= i < a.len() ==> task_step(a[i], #[trigger] b[i])
    &&& forall|i: int|
        a.len() <= i < b.len() ==> step_allowed(DownloadStatus::Queued, #[trigger] b[i].status)
}

/// No task already present becomes Completed.
pub open spec fn registry_no_completion(a: Seq<TaskView>, b: Seq<TaskView>) -> bool {
    forall|i: int| 0 <= i < a.len() ==> no_completion(a[i], #[trigger] b[i])
}

pub proof fn lemma_index_from(s: Seq<TaskView>, id: Seq<char>, k: int)
    requires
        0 <= k,
    ensures
        index_from(s, id, k) == -1 || (k <= index_from(s, id, k) < s.len() && s[index_from(
            s,
            id,
            k,
        )].id == id),
        index_from(s, id, k) == -1 ==> forall|j: int| k <= j < s.len() ==> s[j].id != id,
    decreases s.len() - k,
{
    if k < s.len() && s[k].id != id {
        lemma_index_from(s, id, k + 1);
    }
}

pub proof fn lemma_queued_from(s: Seq<TaskView>, k: int)
    requires
        0 <= k,
    ensures
        queued_from(s, k) == -1 || (k <= queued_from(s, k) < s.len() && s[queued_from(
            s,
            k,
        )].status == DownloadStatus::Queued),
        queued_from(s, k) == -1 ==> forall|j: int|
            k <= j < s.len() ==> s[j].status != DownloadStatus::Queued,
        forall|j: int| k <= j < queued_from(s, k) ==> s[j].status != DownloadStatus::Queued,
    decreases s.len() - k,
{
    if k < s.len() && s[k].status != DownloadStatus::Queued {
        lemma_queued_from(s, k + 1);
    }
}

pub proof fn lemma_count_update(s: Seq<TaskView>, i: int, t: TaskView)
    requires
        0 <= i < s.len(),
    ensures
        count_active(s.update(i, t)) as int == count_active(s) as int - (if active(s[i].status) {
            1int
        } else {
            0int
        }) + (if active(t.status) {
            1int
        } else {
            0int
        }),
    decreases s.len(),
{
    if i == s.len() - 1 {
        assert(s.update(i, t).drop_last() =~= s.drop_last());
    } else {
        lemma_count_update(s.drop_last(), i, t);
        assert(s.update(i, t).drop_last() =~= s.drop_last().update(i, t));
    }
}

pub proof fn lemma_count_push(s: Seq<TaskView>, t: TaskView)
    ensures
        count_active(s.push(t)) == count_active(s) + if active(t.status) {
            1nat
        } else {
            0nat
        },
{
    assert(s.push(t).drop_last() =~= s);
}

pub proof fn lemma_count_prefix(s: Seq<TaskView>, i: int)
    requires
        0 <= i < s.len(),
    ensures
        count_active(s.subrange(0, i + 1)) == count_active(s.subrange(0, i)) + if active(
            s[i].status,
        ) {
            1nat
        } else {
            0nat
        },
{
    assert(s.subrange(0, i + 1).drop_last() =~= s.subrange(0, i));
}

pub proof fn lemma_children_prefix(s: Seq<TaskView>, i: int)
    requires
        0 <= i < s.len(),
    ensures
        children(s.subrange(0, i + 1)) == children(s.subrange(0, i)) + match s[i].child {
            Some(p) => seq![p],
            None => seq![],
        },
{
    assert(s.subrange(0, i + 1).drop_last() =~= s.subrange(0, i));
}

/// Replacing one task by a well-formed successor that takes a permitted
/// step and claims no new slot keeps the registry invariant.
pub proof fn lemma_replace(s: Seq<TaskView>, i: int, t: TaskView, max: nat)
    requires
        0 <= i < s.len(),
        registry_wf(s, max),
        task_wf(t),
        task_step(s[i], t),
        active(t.status) ==> active(s[i].status),
    ensures
        registry_wf(s.update(i, t), max),
        registry_step(s, s.update(i, t)),
        no_completion(s[i], t) ==> registry_no_completion(s, s.update(i, t)),
{
    lemma_count_update(s, i, t);
    let u = s.update(i, t);
    assert forall|a: int, b: int| 0 <= a < b < u.len() implies u[a].id != u[b].id by {
        assert(s[a].id != s[b].id);
    }
    assert forall|j: int| 0 <= j < u.len() implies task_wf(#[trigger] u[j]) by {
        if j != i {
            assert(task_wf(s[j]));
        }
    }
    assert forall|j: int| 0 <= j < s.len() implies task_step(s[j], #[trigger] u[j]) by {
        if j != i {
            assert(step_allowed(s[j].status, s[j].status));
        }
    }
}

/// No match lies before the first match.
pub proof fn lemma_index_order(s: Seq<TaskView>, id: Seq<char>, k: int, j: int)
    requires
        0 <= k <= j < s.len(),
        s[j].id == id,
    ensures
        k <= index_from(s, id, k) <= j,
    decreases j - k,
{
    if s[k].id != id {
        lemma_index_order(s, id, k + 1, j);
    }
}

} // verus!
