//! Folding an edited task list back into the stored collection.
//!
//! Each task of the edited list is matched, by identifier, with the record the
//! store holds for it. A matched record takes every editable field from the
//! edited task and keeps its identifier, its creation date and the fields the
//! text cannot express. An unmatched task enters as it is. Records whose
//! identifier the edited list no longer names are dropped. The result is in the
//! order of the edited list and ranked 1, 2, 3, ... in that order.

use crate::date::{valid_ymd, Date};
use crate::task_model::{
    forest_view, lemma_forest_view, lemma_forest_view_push, Task, TaskView, Ymd,
};
use crate::text::{push_text, string_of};
use std::collections::HashMap;
use vstd::prelude::*;

verus! {

broadcast use vstd::std_specs::hash::group_hash_axioms;

/// The record the store holds for `id`: the last of `stored` with that
/// identifier, if there is one.
pub open spec fn stored_record(stored: Seq<TaskView>, id: int) -> Option<TaskView>
    decreases stored.len(),
{
    if stored.len() == 0 {
        None
    } else if stored.last().id == id {
        Some(stored.last())
    } else {
        stored_record(stored.drop_last(), id)
    }
}

/// Whether one of the first `k` tasks of `edited` has the identifier `id`.
pub open spec fn named_before(edited: Seq<TaskView>, k: int, id: int) -> bool {
    exists|j: int| 0 <= j < k && j < edited.len() && (#[trigger] edited[j]).id == id
}

/// The stored record that the `k`-th edited task is merged into: the record
/// with its identifier, unless an earlier edited task has already taken it.
pub open spec fn matched_record(stored: Seq<TaskView>, edited: Seq<TaskView>, k: int) -> Option<
    TaskView,
> {
    if named_before(edited, k, edited[k].id) {
        None
    } else {
        stored_record(stored, edited[k].id)
    }
}

/// A stored record after the edit: identifier, creation date, extension
/// fields and recurrence stay; everything else is as the edited task has it,
/// stamped with today's date and ranked `order`.
pub open spec fn revised(old: TaskView, edited: TaskView, today: Ymd, order: int) -> TaskView {
    TaskView {
        id: old.id,
        created: old.created,
        extra: old.extra,
        repeat: old.repeat,
        updated: Some(today),
        display_order: order,
        ..edited
    }
}

/// An edited task that enters the store as a new record.
pub open spec fn adopted(edited: TaskView, today: Ymd, order: int) -> TaskView {
    TaskView { updated: Some(today), display_order: order, ..edited }
}

/// The record that the `k`-th edited task leaves in the merged collection.
pub open spec fn merged_record(
    stored: Seq<TaskView>,
    edited: Seq<TaskView>,
    today: Ymd,
    k: int,
) -> TaskView {
    match matched_record(stored, edited, k) {
        Some(old) => revised(old, edited[k], today, k + 1),
        None => adopted(edited[k], today, k + 1),
    }
}

/// The merged collection: one record for each edited task, in their order.
pub open spec fn merged(stored: Seq<TaskView>, edited: Seq<TaskView>, today: Ymd) -> Seq<TaskView> {
    Seq::new(edited.len(), |k: int| merged_record(stored, edited, today, k))
}

/// A record found under an identifier has that identifier and is one of the
/// stored records.
pub proof fn lemma_stored_record(stored: Seq<TaskView>, id: int)
    ensures
        stored_record(stored, id) matches Some(t) ==> t.id == id && stored.contains(t),
        stored_record(stored, id) is None ==> forall|j: int|
            0 <= j < stored.len() ==> (#[trigger] stored[j]).id != id,
    decreases stored.len(),
{
    if stored.len() > 0 && stored.last().id != id {
        lemma_stored_record(stored.drop_last(), id);
        let rest = stored.drop_last();
        if stored_record(rest, id) is Some {
            let t = stored_record(rest, id)->0;
            let j = choose|j: int| 0 <= j < rest.len() && rest[j] == t;
        } else {
            assert forall|j: int| 0 <= j < stored.len() implies (#[trigger] stored[j]).id != id by {
                if j < rest.len() {
                    assert(rest[j].id != id);
                }
            }
        }
    }
}

/// Identifier stability: a record that the edit matches keeps its identifier,
/// its creation date and its extension fields.
pub proof fn law_identifier_stability(
    stored: Seq<TaskView>,
    edited: Seq<TaskView>,
    today: Ymd,
    k: int,
)
    requires
        0 <= k < edited.len(),
        matched_record(stored, edited, k) is Some,
    ensures
        ({
            let old = matched_record(stored, edited, k)->0;
            let new = merged(stored, edited, today)[k];
            &&& old.id == edited[k].id
            &&& new.id == old.id
            &&& new.created == old.created
            &&& new.extra == old.extra
        }),
{
    lemma_stored_record(stored, edited[k].id);
}

/// The record found under an identifier is the last one that has it.
pub proof fn lemma_stored_record_is_last(stored: Seq<TaskView>, id: int, k: int)
    requires
        0 <= k < stored.len(),
        stored[k].id == id,
        forall|j: int| k < j < stored.len() ==> (#[trigger] stored[j]).id != id,
    ensures
        stored_record(stored, id) == Some(stored[k]),
    decreases stored.len(),
{
    if k < stored.len() - 1 {
        let front = stored.drop_last();
        lemma_stored_record_is_last(front, id, k);
    }
}

/// Identifier stability across passes: a record keeps its creation date and
/// its extension fields through two merges in a row, where each of the two
/// edited lists names its identifier, the first of them once.
pub proof fn law_stability_across_passes(
    stored: Seq<TaskView>,
    first: Seq<TaskView>,
    first_day: Ymd,
    second: Seq<TaskView>,
    second_day: Ymd,
    id: int,
    k1: int,
    k2: int,
)
    requires
        stored_record(stored, id) is Some,
        0 <= k1 < first.len(),
        first[k1].id == id,
        forall|j: int| 0 <= j < first.len() && j != k1 ==> (#[trigger] first[j]).id != id,
        0 <= k2 < second.len(),
        second[k2].id == id,
        !named_before(second, k2, id),
    ensures
        ({
            let old = stored_record(stored, id)->0;
            let new = merged(merged(stored, first, first_day), second, second_day)[k2];
            &&& new.id == old.id
            &&& new.created == old.created
            &&& new.extra == old.extra
        }),
{
    let once = merged(stored, first, first_day);
    law_identifiers_follow_edit(stored, first, first_day);
    lemma_stored_record_is_last(once, id, k1);
}

/// Every merged record carries the identifier of the edited task it came from.
pub proof fn law_identifiers_follow_edit(stored: Seq<TaskView>, edited: Seq<TaskView>, today: Ymd)
    ensures
        merged(stored, edited, today).len() == edited.len(),
        forall|k: int|
            0 <= k < edited.len() ==> (#[trigger] merged(stored, edited, today)[k]).id
                == edited[k].id,
{
    assert forall|k: int| 0 <= k < edited.len() implies (#[trigger] merged(
        stored,
        edited,
        today,
    )[k]).id == edited[k].id by {
        lemma_stored_record(stored, edited[k].id);
    }
}

/// Deletion completeness: an identifier that the store holds and the edited
/// list does not name is absent from the merged collection, which has one
/// record for each edited task.
pub proof fn law_deletion_completeness(
    stored: Seq<TaskView>,
    edited: Seq<TaskView>,
    today: Ymd,
    id: int,
)
    requires
        forall|k: int| 0 <= k < edited.len() ==> (#[trigger] edited[k]).id != id,
    ensures
        merged(stored, edited, today).len() == edited.len(),
        forall|k: int|
            0 <= k < edited.len() ==> (#[trigger] merged(stored, edited, today)[k]).id != id,
{
    law_identifiers_follow_edit(stored, edited, today);
}

/// Dense ordering: the ranks of a merged collection of `n` records are
/// 1, 2, ..., `n`, in that order, so as a set they are exactly the integers
/// from 1 to `n`.
pub proof fn law_dense_ordering(stored: Seq<TaskView>, edited: Seq<TaskView>, today: Ymd)
    ensures
        forall|k: int|
            0 <= k < edited.len() ==> (#[trigger] merged(stored, edited, today)[k]).display_order
                == k + 1,
        merged(stored, edited, today).map_values(|t: TaskView| t.display_order).to_set()
            == Set::new(|r: int| 1 <= r <= edited.len()),
{
    let ranks = merged(stored, edited, today).map_values(|t: TaskView| t.display_order);
    assert forall|r: int| ranks.to_set().contains(r) <==> 1 <= r <= edited.len() by {
        if 1 <= r <= edited.len() {
            assert(ranks[r - 1] == r);
        }
    }
}

/// Editable fields follow the edit: whatever the store held, each merged
/// record has the name, status, priority, due and completion dates, notes,
/// project, contexts, tags and nested tasks of the edited task, absent where
/// the edited task has none, and today's date as its date of last change.
pub proof fn law_edit_wins(stored: Seq<TaskView>, edited: Seq<TaskView>, today: Ymd, k: int)
    requires
        0 <= k < edited.len(),
    ensures
        ({
            let new = merged(stored, edited, today)[k];
            let e = edited[k];
            &&& new.name == e.name
            &&& new.status == e.status
            &&& new.priority == e.priority
            &&& new.due == e.due
            &&& new.completed == e.completed
            &&& new.notes == e.notes
            &&& new.project == e.project
            &&& new.contexts == e.contexts
            &&& new.tags == e.tags
            &&& new.subtasks == e.subtasks
            &&& new.updated == Some(today)
        }),
{
}

/// Whether `new` is what the edited task `e` leaves at rank `rank`: it has the
/// identifier of `e`, that rank, and every field that the text can say as `e`
/// has it, absent where `e` has none.
pub open spec fn follows_edit(new: TaskView, e: TaskView, rank: int) -> bool {
    &&& new.id == e.id
    &&& new.display_order == rank
    &&& new.name == e.name
    &&& new.status == e.status
    &&& new.priority == e.priority
    &&& new.due == e.due
    &&& new.completed == e.completed
    &&& new.notes == e.notes
    &&& new.project == e.project
    &&& new.contexts == e.contexts
    &&& new.tags == e.tags
    &&& new.subtasks == e.subtasks
    &&& new.updated is Some
}

/// Whether `new` keeps what the stored record `old`, if there is one, alone
/// can say: its identifier, its creation date, its extension fields and its
/// recurrence.
pub open spec fn keeps_record(new: TaskView, old: Option<TaskView>) -> bool {
    old matches Some(o) ==> {
        &&& new.id == o.id
        &&& new.created == o.created
        &&& new.extra == o.extra
        &&& new.repeat == o.repeat
    }
}

/// Whether `out` is a merge of `edited` into `stored`: one record for each
/// edited task, in their order and ranked 1, 2, 3, ...; each follows its
/// edited task and keeps what its stored record alone can say. An identifier
/// that `edited` does not name is therefore in no record of `out`.
pub open spec fn is_merge_of(stored: Seq<TaskView>, edited: Seq<TaskView>, out: Seq<TaskView>) -> bool {
    &&& out.len() == edited.len()
    &&& forall|k: int|
        0 <= k < edited.len() ==> follows_edit(#[trigger] out[k], edited[k], k + 1)
            && keeps_record(out[k], matched_record(stored, edited, k))
}

/// The merged collection is a merge, whatever the day.
pub proof fn law_merged_is_merge(stored: Seq<TaskView>, edited: Seq<TaskView>, today: Ymd)
    ensures
        is_merge_of(stored, edited, merged(stored, edited, today)),
{
    assert forall|k: int| 0 <= k < edited.len() implies follows_edit(
        #[trigger] merged(stored, edited, today)[k],
        edited[k],
        k + 1,
    ) && keeps_record(merged(stored, edited, today)[k], matched_record(stored, edited, k)) by {
        lemma_stored_record(stored, edited[k].id);
    }
}

/// The heading of a dry run, then the name of each task on a line of its
/// own.
pub open spec fn dry_run_names(tasks: Seq<TaskView>) -> Seq<char>
    decreases tasks.len(),
{
    if tasks.len() == 0 {
        Seq::empty()
    } else {
        dry_run_names(tasks.drop_last()) + tasks.last().name + "\n"@
    }
}

/// What a dry run reports: two lines of heading, then the names of the tasks
/// that the store would hold.
pub open spec fn dry_run_text(tasks: Seq<TaskView>) -> Seq<char> {
    "Dry run summary:\nAdded tasks:\n"@ + dry_run_names(tasks)
}

/// The report of a dry run over the merged tasks.
pub fn dry_run_summary(tasks: &[Task]) -> (r: String)
    ensures
        r@ == dry_run_text(forest_view(tasks@)),
{
    let mut out: Vec<char> = Vec::new();
    push_text(&mut out, "Dry run summary:\nAdded tasks:\n");
    let ghost head = out@;
    let mut i: usize = 0;
    proof {
        assert(tasks@.take(0) =~= Seq::<Task>::empty());
        assert(head + dry_run_names(forest_view(tasks@.take(0))) =~= head);
    }
    while i < tasks.len()
        invariant
            i <= tasks.len(),
            head == "Dry run summary:\nAdded tasks:\n"@,
            out@ == head + dry_run_names(forest_view(tasks@.take(i as int))),
        decreases tasks.len() - i,
    {
        proof {
            assert(tasks@.take(i + 1) == tasks@.take(i as int).push(tasks@[i as int]));
            lemma_forest_view_push(tasks@.take(i as int), tasks@[i as int]);
            assert(forest_view(tasks@.take(i + 1)).drop_last() =~= forest_view(
                tasks@.take(i as int),
            ));
        }
        push_text(&mut out, tasks[i].name.as_str());
        push_text(&mut out, "\n");
        i += 1;
    }
    assert(tasks@.take(tasks.len() as int) == tasks@);
    string_of(&out)
}

/// The stored records by identifier; of two with one identifier the later.
fn index_by_id(existing: Vec<Task>) -> (store: HashMap<i64, Task>)
    ensures
        forall|id: i64| #[trigger]
            store@.contains_key(id) <==> stored_record(forest_view(existing@), id as int) is Some,
        forall|id: i64| #[trigger]
            store@.contains_key(id) ==> store@[id]@ == stored_record(
                forest_view(existing@),
                id as int,
            )->0,
{
    let ghost all = existing@;
    let mut store: HashMap<i64, Task> = HashMap::new();
    for t in it: existing
        invariant
            it.seq() == all,
            forall|id: i64| #[trigger]
                store@.contains_key(id) <==> stored_record(
                    forest_view(all.take(it.index())),
                    id as int,
                ) is Some,
            forall|id: i64| #[trigger]
                store@.contains_key(id) ==> store@[id]@ == stored_record(
                    forest_view(all.take(it.index())),
                    id as int,
                )->0,
    {
        proof {
            let i = it.index();
            assert(all.take(i + 1) == all.take(i).push(t));
            lemma_forest_view_push(all.take(i), t);
            assert(forest_view(all.take(i + 1)).drop_last() == forest_view(all.take(i)));
        }
        store.insert(t.id, t);
    }
    assert(all.take(all.len() as int) == all);
    store
}

/// The error text for an edited list too long to rank.
pub open spec fn too_many_tasks_message() -> Seq<char> {
    "too many tasks to rank"@
}

/// Merges the edited tasks into the stored records, stamping `today` on every
/// record of the result. Fails only where the edited list is longer than the
/// largest rank.
///
/// The records come out in the order of the edited list and are ranked as
/// they come, so the result is sorted by rank and the ranks are dense without
/// a further pass.
pub fn apply_changes_on(existing: Vec<Task>, markdown: Vec<Task>, today: Date) -> (r: Result<
    Vec<Task>,
    String,
>)
    ensures
        r is Ok <==> markdown.len() <= i64::MAX,
        r matches Ok(v) ==> forest_view(v@) == merged(
            forest_view(existing@),
            forest_view(markdown@),
            today@,
        ),
        r matches Ok(v) ==> is_merge_of(
            forest_view(existing@),
            forest_view(markdown@),
            forest_view(v@),
        ),
        r matches Err(e) ==> e@ == too_many_tasks_message(),
{
    if markdown.len() as u64 > i64::MAX as u64 {
        return Err("too many tasks to rank".to_string());
    }
    proof {
        law_merged_is_merge(forest_view(existing@), forest_view(markdown@), today@);
    }
    let ghost stored = forest_view(existing@);
    let ghost edited_tasks = markdown@;
    let ghost edited = forest_view(markdown@);
    let ghost goal = merged(stored, edited, today@);
    let mut store = index_by_id(existing);
    let mut out: Vec<Task> = Vec::new();
    let mut done: i64 = 0;
    proof {
        lemma_forest_view(edited_tasks);
    }
    for md in it: markdown
        invariant
            it.seq() == edited_tasks,
            edited == forest_view(edited_tasks),
            edited.len() == edited_tasks.len() <= i64::MAX,
            forall|k: int| 0 <= k < edited.len() ==> (#[trigger] edited[k]) == edited_tasks[k]@,
            goal == merged(stored, edited, today@),
            done == it.index(),
            forest_view(out@) == goal.take(it.index()),
            forall|id: i64| #[trigger]
                store@.contains_key(id) <==> (stored_record(stored, id as int) is Some
                    && !named_before(edited, it.index(), id as int)),
            forall|id: i64| #[trigger]
                store@.contains_key(id) ==> store@[id]@ == stored_record(stored, id as int)->0,
    {
        let ghost k = it.index();
        proof {
            assert forall|id: i64|
                named_before(edited, k + 1, id as int) <==> (named_before(edited, k, id as int)
                    || id == md.id) by {}
        }
        let id = md.id;
        let order: i64 = done + 1;
        let record = match store.remove(&id) {
            Some(old) => Task {
                name: md.name,
                status: md.status,
                priority: md.priority,
                id: old.id,
                created: old.created,
                display_order: order,
                due: md.due,
                updated: Some(today),
                completed: md.completed,
                project: md.project,
                contexts: md.contexts,
                notes: md.notes,
                tags: md.tags,
                subtasks: md.subtasks,
                extra: old.extra,
                repeat: old.repeat,
            },
            None => Task {
                name: md.name,
                status: md.status,
                priority: md.priority,
                id: md.id,
                created: md.created,
                display_order: order,
                due: md.due,
                updated: Some(today),
                completed: md.completed,
                project: md.project,
                contexts: md.contexts,
                notes: md.notes,
                tags: md.tags,
                subtasks: md.subtasks,
                extra: md.extra,
                repeat: md.repeat,
            },
        };
        proof {
            assert(record@ == merged_record(stored, edited, today@, k));
            lemma_forest_view_push(out@, record);
        }
        out.push(record);
        done = order;
    }
    Ok(out)
}

/// Merges the edited tasks into the stored records under today's date by the
/// local clock: the result is `merged` for whichever day the clock gave.
/// (`_default_created_date` has no part in the merge.)
pub fn apply_changes(existing_tasks_vec: Vec<Task>, markdown_tasks_vec: Vec<Task>, _default_created_date: Date)
    -> (r: Result<Vec<Task>, String>)
    ensures
        r is Ok <==> markdown_tasks_vec.len() <= i64::MAX,
        r matches Ok(v) ==> exists|today: Ymd|
            valid_ymd(today.0, today.1, today.2) && #[trigger] merged(
                forest_view(existing_tasks_vec@),
                forest_view(markdown_tasks_vec@),
                today,
            ) == forest_view(v@),
        r matches Ok(v) ==> is_merge_of(
            forest_view(existing_tasks_vec@),
            forest_view(markdown_tasks_vec@),
            forest_view(v@),
        ),
        r matches Err(e) ==> e@ == too_many_tasks_message(),
{
    let today = Date::today();
    apply_changes_on(existing_tasks_vec, markdown_tasks_vec, today)
}

} // verus!
