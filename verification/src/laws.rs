//! The store's laws, each proved once and for all over the same spec
//! functions the operations' contracts use.

use vstd::prelude::*;
use crate::types::{TaskView, TaskStatus, Timestamp};
use crate::store::{
    StoreView, patched_task, apply_mask_fields, apply_field, put_task_view, is_overdue,
    lemma_put_task,
};
use crate::alist::{al_contains, al_get};

verus! {

/// Masked patch isolation: patching with the mask naming only the status
/// field changes exactly the status and the update timestamp; every other
/// field of the stored task is untouched.
pub proof fn lemma_masked_patch_isolation(t: TaskView, p: TaskView, now: Timestamp)
    ensures
        patched_task(t, p, seq!["status"@], now) == (TaskView {
            status: p.status,
            updated_at: Some(now),
            ..t
        }),
{
    reveal_strlit("status");
    reveal_strlit("title");
    reveal_strlit("description");
    let m = seq!["status"@];
    assert(m.drop_last() =~= Seq::<Seq<char>>::empty());
    assert(apply_mask_fields(t, p, Seq::empty()) == t);
    assert(m.last() == "status"@);
    assert("status"@ != "title"@);
    assert("status"@ != "description"@);
    assert(apply_field(t, p, "status"@) =~= (TaskView { status: p.status, ..t }));
    assert(patched_task(t, p, m, now) =~= (TaskView {
        status: p.status,
        updated_at: Some(now),
        ..t
    }));
}

/// Overdue transition: a task due strictly before the current time and not
/// done counts as overdue; after a masked patch of only its status to done,
/// it does not.
pub proof fn lemma_overdue_transition(t: TaskView, p: TaskView, stamp: Timestamp, now_seconds: i64)
    requires
        t.due_date matches Some(d) && d.seconds < now_seconds,
        t.status != TaskStatus::Done,
        p.status == TaskStatus::Done,
    ensures
        is_overdue(t, now_seconds),
        !is_overdue(patched_task(t, p, seq!["status"@], stamp), now_seconds),
{
    lemma_masked_patch_isolation(t, p, stamp);
}

/// Every create lands: storing a task under an identifier the store does not
/// hold grows the task map by exactly one, binds the identifier to the task,
/// and leaves every other task untouched — so a run of creates under
/// pairwise-distinct fresh identifiers preserves all writes.
pub proof fn lemma_create_preserves_all_writes(v: StoreView, t: TaskView)
    requires
        v.wf(),
        !al_contains(v.tasks, t.id),
    ensures
        put_task_view(v, t).wf(),
        put_task_view(v, t).tasks.len() == v.tasks.len() + 1,
        al_get(put_task_view(v, t).tasks, t.id) == Some(t),
        forall|k: Seq<char>| k != t.id ==> al_get(put_task_view(v, t).tasks, k) == al_get(
            v.tasks,
            k,
        ),
{
    lemma_put_task(v, t);
}

} // verus!
