//! The task registry: the manifests of the tasks that the server offers,
//! at most one for each pair of identifier and name, in the order in which
//! they were first recorded.

use crate::result::AppError;
use crate::result::AppErrorView;
use crate::task::Task;
use crate::task::TaskView;
use crate::task::manifests_view;
use vstd::prelude::*;

verus! {

/// Whether `record` is the manifest of the task `uuid`, `name`.
pub open spec fn identifies(record: TaskView, uuid: Seq<char>, name: Seq<char>) -> bool {
    record.uuid == uuid && record.name == name
}

/// Whether the task `uuid`, `name` is recorded.
pub open spec fn has_record(records: Seq<TaskView>, uuid: Seq<char>, name: Seq<char>) -> bool {
    exists|i: int| 0 <= i < records.len() && identifies(#[trigger] records[i], uuid, name)
}

/// The place of a record of the task `uuid`, `name`.
pub open spec fn place_of_record(records: Seq<TaskView>, uuid: Seq<char>, name: Seq<char>) -> int {
    choose|i: int| 0 <= i < records.len() && identifies(#[trigger] records[i], uuid, name)
}

/// Whether no two records are of the same task.
pub open spec fn records_distinct(records: Seq<TaskView>) -> bool {
    forall|i: int, j: int|
        0 <= i < j < records.len() ==> !identifies(
            #[trigger] records[i],
            (#[trigger] records[j]).uuid,
            records[j].name,
        )
}

/// The records after `task` has been recorded: it takes the place of the
/// record of the same task, or follows all records where there is none.
pub open spec fn upserted(records: Seq<TaskView>, task: TaskView) -> Seq<TaskView> {
    if has_record(records, task.uuid, task.name) {
        records.update(place_of_record(records, task.uuid, task.name), task)
    } else {
        records.push(task)
    }
}

/// The records after each of `tasks` has been recorded in turn.
pub open spec fn upserted_all(records: Seq<TaskView>, tasks: Seq<TaskView>) -> Seq<TaskView>
    decreases tasks.len(),
{
    if tasks.len() == 0 {
        records
    } else {
        upserted(upserted_all(records, tasks.drop_last()), tasks.last())
    }
}

/// Those of `records`, in their order, whose task is among `found`.
pub open spec fn retained(records: Seq<TaskView>, found: Seq<TaskView>) -> Seq<TaskView>
    decreases records.len(),
{
    if records.len() == 0 {
        records
    } else {
        let rest = retained(records.drop_last(), found);
        if has_record(found, records.last().uuid, records.last().name) {
            rest.push(records.last())
        } else {
            rest
        }
    }
}

/// The records brought in line with the manifests found on disk: each of
/// those is recorded, and a record whose task is not among them is dropped.
pub open spec fn reconciled(records: Seq<TaskView>, found: Seq<TaskView>) -> Seq<TaskView> {
    retained(upserted_all(records, found), found)
}

/// Whether the task `uuid`, `name` is among `tasks`.
pub fn is_listed(tasks: &Vec<Task>, uuid: &String, name: &String) -> (listed: bool)
    ensures
        listed == has_record(manifests_view(tasks@), uuid@, name@),
{
    let mut i: usize = 0;
    while i < tasks.len()
        invariant
            i <= tasks.len(),
            forall|j: int|
                0 <= j < i ==> !identifies(#[trigger] manifests_view(tasks@)[j], uuid@, name@),
        decreases tasks.len() - i,
    {
        assert(manifests_view(tasks@)[i as int] == tasks@[i as int]@);
        if tasks[i].is_identified_by(uuid, name) {
            return true;
        }
        i = i + 1;
    }
    false
}

/// Recording a task keeps the records distinct, records that task as it
/// was given, and leaves the records of all other tasks as they were.
pub proof fn lemma_upserted(records: Seq<TaskView>, task: TaskView)
    requires
        records_distinct(records),
    ensures
        records_distinct(upserted(records, task)),
        upserted(records, task).contains(task),
        forall|uuid: Seq<char>, name: Seq<char>|
            has_record(records, uuid, name) ==> #[trigger] has_record(
                upserted(records, task),
                uuid,
                name,
            ),
        forall|other: TaskView|
            #[trigger] records.contains(other) && !identifies(other, task.uuid, task.name)
                ==> upserted(records, task).contains(other),
        forall|other: TaskView|
            #[trigger] upserted(records, task).contains(other) ==> other == task
                || records.contains(other),
{
    let after = upserted(records, task);
    if has_record(records, task.uuid, task.name) {
        let place = place_of_record(records, task.uuid, task.name);
        assert(after[place] == task);
        assert forall|a: int, b: int| 0 <= a < b < after.len() implies !identifies(
            #[trigger] after[a],
            (#[trigger] after[b]).uuid,
            after[b].name,
        ) by {
            assert(!identifies(records[a], records[b].uuid, records[b].name));
        }
        assert forall|uuid: Seq<char>, name: Seq<char>|
            has_record(records, uuid, name) implies #[trigger] has_record(after, uuid, name) by {
            let i = place_of_record(records, uuid, name);
            assert(identifies(after[i], uuid, name));
        }
        assert forall|other: TaskView|
            #[trigger] records.contains(other) && !identifies(
                other,
                task.uuid,
                task.name,
            ) implies after.contains(other) by {
            let i = choose|i: int| 0 <= i < records.len() && records[i] == other;
            assert(after[i] == other);
        }
        assert forall|other: TaskView| #[trigger] after.contains(other) implies other == task
            || records.contains(other) by {
            let i = choose|i: int| 0 <= i < after.len() && after[i] == other;
            if i != place {
                assert(records[i] == other);
            }
        }
    } else {
        assert(after[records.len() as int] == task);
        assert forall|a: int, b: int| 0 <= a < b < after.len() implies !identifies(
            #[trigger] after[a],
            (#[trigger] after[b]).uuid,
            after[b].name,
        ) by {
            if b < records.len() {
                assert(!identifies(records[a], records[b].uuid, records[b].name));
            } else {
                assert(identifies(records[a], task.uuid, task.name) ==> has_record(
                    records,
                    task.uuid,
                    task.name,
                ));
            }
        }
        assert forall|uuid: Seq<char>, name: Seq<char>|
            has_record(records, uuid, name) implies #[trigger] has_record(after, uuid, name) by {
            let i = place_of_record(records, uuid, name);
            assert(identifies(after[i], uuid, name));
        }
        assert forall|other: TaskView|
            #[trigger] records.contains(other) && !identifies(
                other,
                task.uuid,
                task.name,
            ) implies after.contains(other) by {
            let i = choose|i: int| 0 <= i < records.len() && records[i] == other;
            assert(after[i] == other);
        }
        assert forall|other: TaskView| #[trigger] after.contains(other) implies other == task
            || records.contains(other) by {
            let i = choose|i: int| 0 <= i < after.len() && after[i] == other;
            if i < records.len() {
                assert(records[i] == other);
            }
        }
    }
}

/// Recording tasks in turn keeps the records distinct and records each of
/// them; where the tasks are distinct, each is recorded as it was given.
pub proof fn lemma_upserted_all(records: Seq<TaskView>, tasks: Seq<TaskView>)
    requires
        records_distinct(records),
    ensures
        records_distinct(upserted_all(records, tasks)),
        forall|j: int|
            0 <= j < tasks.len() ==> has_record(
                upserted_all(records, tasks),
                (#[trigger] tasks[j]).uuid,
                tasks[j].name,
            ),
        records_distinct(tasks) ==> forall|j: int|
            0 <= j < tasks.len() ==> upserted_all(records, tasks).contains(#[trigger] tasks[j]),
    decreases tasks.len(),
{
    if tasks.len() > 0 {
        let first = tasks.drop_last();
        let last = tasks.last();
        lemma_upserted_all(records, first);
        let middle = upserted_all(records, first);
        lemma_upserted(middle, last);
        let after = upserted_all(records, tasks);
        assert forall|j: int| 0 <= j < tasks.len() implies has_record(
            after,
            (#[trigger] tasks[j]).uuid,
            tasks[j].name,
        ) by {
            if j < first.len() {
                assert(tasks[j] == first[j]);
                assert(has_record(middle, first[j].uuid, first[j].name));
            } else {
                let i = choose|i: int| 0 <= i < after.len() && after[i] == last;
                assert(identifies(after[i], last.uuid, last.name));
            }
        }
        if records_distinct(tasks) {
            assert(records_distinct(first)) by {
                assert forall|a: int, b: int| 0 <= a < b < first.len() implies !identifies(
                    #[trigger] first[a],
                    (#[trigger] first[b]).uuid,
                    first[b].name,
                ) by {
                    assert(!identifies(tasks[a], tasks[b].uuid, tasks[b].name));
                }
            }
            assert forall|j: int| 0 <= j < tasks.len() implies after.contains(
                #[trigger] tasks[j],
            ) by {
                if j < first.len() {
                    assert(tasks[j] == first[j]);
                    assert(middle.contains(first[j]));
                    assert(!identifies(tasks[j], tasks[tasks.len() - 1].uuid, tasks[tasks.len() - 1].name));
                }
            }
        }
    }
}

/// What is retained are the records whose task is among `found`, no other
/// and no fewer, and they stay distinct.
pub proof fn lemma_retained(records: Seq<TaskView>, found: Seq<TaskView>)
    requires
        records_distinct(records),
    ensures
        records_distinct(retained(records, found)),
        forall|record: TaskView|
            #[trigger] retained(records, found).contains(record) <==> records.contains(record)
                && has_record(found, record.uuid, record.name),
    decreases records.len(),
{
    let kept = retained(records, found);
    if records.len() > 0 {
        let first = records.drop_last();
        let last = records.last();
        assert(records_distinct(first)) by {
            assert forall|a: int, b: int| 0 <= a < b < first.len() implies !identifies(
                #[trigger] first[a],
                (#[trigger] first[b]).uuid,
                first[b].name,
            ) by {
                assert(!identifies(records[a], records[b].uuid, records[b].name));
            }
        }
        lemma_retained(first, found);
        let rest = retained(first, found);
        assert forall|record: TaskView| #[trigger] kept.contains(record) <==> records.contains(
            record,
        ) && has_record(found, record.uuid, record.name) by {
            if kept.contains(record) {
                let i = choose|i: int| 0 <= i < kept.len() && kept[i] == record;
                if i < rest.len() {
                    assert(rest[i] == record);
                    assert(rest.contains(record));
                    let j = choose|j: int| 0 <= j < first.len() && first[j] == record;
                    assert(records[j] == record);
                } else {
                    assert(records[records.len() - 1] == record);
                }
            }
            if records.contains(record) && has_record(found, record.uuid, record.name) {
                let j = choose|j: int| 0 <= j < records.len() && records[j] == record;
                if j < first.len() {
                    assert(first[j] == record);
                    assert(first.contains(record));
                    assert(rest.contains(record));
                    let i = choose|i: int| 0 <= i < rest.len() && rest[i] == record;
                    assert(kept[i] == record);
                } else {
                    assert(kept[rest.len() as int] == record);
                }
            }
        }
        assert forall|a: int, b: int| 0 <= a < b < kept.len() implies !identifies(
            #[trigger] kept[a],
            (#[trigger] kept[b]).uuid,
            kept[b].name,
        ) by {
            if b < rest.len() {
                assert(kept[a] == rest[a] && kept[b] == rest[b]);
            } else {
                assert(kept[a] == rest[a]);
                assert(rest.contains(rest[a]));
                let j = choose|j: int| 0 <= j < first.len() && first[j] == rest[a];
                assert(!identifies(records[j], records[records.len() - 1].uuid, records[records.len() - 1].name));
            }
        }
    }
}

/// After the registry has been brought in line with the manifests found on
/// disk, it holds a record for each of them and for no other task; where
/// the manifests are of distinct tasks, each is recorded as it was found.
pub proof fn lemma_reconciled_matches(records: Seq<TaskView>, found: Seq<TaskView>)
    requires
        records_distinct(records),
    ensures
        records_distinct(reconciled(records, found)),
        forall|i: int|
            0 <= i < reconciled(records, found).len() ==> has_record(
                found,
                (#[trigger] reconciled(records, found)[i]).uuid,
                reconciled(records, found)[i].name,
            ),
        forall|j: int|
            0 <= j < found.len() ==> has_record(
                reconciled(records, found),
                (#[trigger] found[j]).uuid,
                found[j].name,
            ),
        records_distinct(found) ==> forall|j: int|
            0 <= j < found.len() ==> reconciled(records, found).contains(#[trigger] found[j]),
{
    let all = upserted_all(records, found);
    let kept = reconciled(records, found);
    lemma_upserted_all(records, found);
    lemma_retained(all, found);
    assert forall|i: int| 0 <= i < kept.len() implies has_record(
        found,
        (#[trigger] kept[i]).uuid,
        kept[i].name,
    ) by {
        assert(kept.contains(kept[i]));
    }
    assert forall|j: int| 0 <= j < found.len() implies has_record(
        kept,
        (#[trigger] found[j]).uuid,
        found[j].name,
    ) by {
        let i = place_of_record(all, found[j].uuid, found[j].name);
        assert(identifies(all[i], found[j].uuid, found[j].name));
        assert(all.contains(all[i]));
        assert(identifies(found[j], all[i].uuid, all[i].name));
        assert(has_record(found, all[i].uuid, all[i].name));
        assert(kept.contains(all[i]));
        let k = choose|k: int| 0 <= k < kept.len() && kept[k] == all[i];
        assert(identifies(kept[k], found[j].uuid, found[j].name));
    }
    if records_distinct(found) {
        assert forall|j: int| 0 <= j < found.len() implies kept.contains(#[trigger] found[j]) by {
            assert(all.contains(found[j]));
            assert(identifies(found[j], found[j].uuid, found[j].name));
        }
    }
}

/// One change of the registry, to be written through to wherever the
/// registry is kept.
#[derive(Clone, Debug, PartialEq, Eq)]
pub enum Change {
    /// The task had no record and has one now.
    Inserted(Task),
    /// The task had a record, which now holds this manifest.
    Updated(Task),
    /// The record of the task has been dropped.
    Deleted { uuid: String, name: String },
}

/// A change of the registry over sequences.
pub enum ChangeView {
    Inserted(TaskView),
    Updated(TaskView),
    Deleted { uuid: Seq<char>, name: Seq<char> },
}

impl View for Change {
    type V = ChangeView;

    open spec fn view(&self) -> ChangeView {
        match self {
            Change::Inserted(task) => ChangeView::Inserted(task@),
            Change::Updated(task) => ChangeView::Updated(task@),
            Change::Deleted { uuid, name } => ChangeView::Deleted { uuid: uuid@, name: name@ },
        }
    }
}

/// The views of a list of changes.
pub open spec fn changes_view(changes: Seq<Change>) -> Seq<ChangeView> {
    changes.map_values(|c: Change| c@)
}

/// The change that recording `task` makes.
pub open spec fn upsert_change(records: Seq<TaskView>, task: TaskView) -> ChangeView {
    if has_record(records, task.uuid, task.name) {
        ChangeView::Updated(task)
    } else {
        ChangeView::Inserted(task)
    }
}

/// The changes that recording each of `tasks` in turn makes.
pub open spec fn upsert_changes(records: Seq<TaskView>, tasks: Seq<TaskView>) -> Seq<ChangeView>
    decreases tasks.len(),
{
    if tasks.len() == 0 {
        Seq::<ChangeView>::empty()
    } else {
        upsert_changes(records, tasks.drop_last()).push(
            upsert_change(upserted_all(records, tasks.drop_last()), tasks.last()),
        )
    }
}

/// The changes that dropping every record whose task is not among `found`
/// makes, in the order of the records.
pub open spec fn drop_changes(records: Seq<TaskView>, found: Seq<TaskView>) -> Seq<ChangeView>
    decreases records.len(),
{
    if records.len() == 0 {
        Seq::<ChangeView>::empty()
    } else {
        let rest = drop_changes(records.drop_last(), found);
        if has_record(found, records.last().uuid, records.last().name) {
            rest
        } else {
            rest.push(ChangeView::Deleted { uuid: records.last().uuid, name: records.last().name })
        }
    }
}

/// The changes that bringing the registry in line with the manifests found
/// on disk makes: first each manifest is recorded, then the records of
/// tasks that are not on disk are dropped.
pub open spec fn reconcile_changes(records: Seq<TaskView>, found: Seq<TaskView>) -> Seq<
    ChangeView,
> {
    upsert_changes(records, found) + drop_changes(upserted_all(records, found), found)
}

/// The records without the record of the task `uuid`, `name`.
pub open spec fn without(records: Seq<TaskView>, uuid: Seq<char>, name: Seq<char>) -> Seq<
    TaskView,
> {
    if has_record(records, uuid, name) {
        records.remove(place_of_record(records, uuid, name))
    } else {
        records
    }
}

/// What one change makes of the records of a store that takes changes one
/// by one: an insertion adds a record after all others, an update replaces
/// the record of the same task, a deletion drops it.
pub open spec fn applied_one(records: Seq<TaskView>, change: ChangeView) -> Seq<TaskView> {
    match change {
        ChangeView::Inserted(task) => records.push(task),
        ChangeView::Updated(task) => if has_record(records, task.uuid, task.name) {
            records.update(place_of_record(records, task.uuid, task.name), task)
        } else {
            records
        },
        ChangeView::Deleted { uuid, name } => without(records, uuid, name),
    }
}

/// What changes, taken in turn, make of the records of a store.
pub open spec fn applied(records: Seq<TaskView>, changes: Seq<ChangeView>) -> Seq<TaskView>
    decreases changes.len(),
{
    if changes.len() == 0 {
        records
    } else {
        applied_one(applied(records, changes.drop_last()), changes.last())
    }
}

/// Changes taken in two runs are changes taken in one.
pub proof fn lemma_applied_in_two_runs(
    records: Seq<TaskView>,
    first: Seq<ChangeView>,
    second: Seq<ChangeView>,
)
    ensures
        applied(records, first + second) == applied(applied(records, first), second),
    decreases second.len(),
{
    if second.len() == 0 {
        assert(first + second =~= first);
    } else {
        lemma_applied_in_two_runs(records, first, second.drop_last());
        assert((first + second).drop_last() =~= first + second.drop_last());
        assert((first + second).last() == second.last());
    }
}

/// A store that takes the changes of recording tasks holds what the
/// registry holds.
pub proof fn lemma_applied_upserts(records: Seq<TaskView>, tasks: Seq<TaskView>)
    ensures
        applied(records, upsert_changes(records, tasks)) == upserted_all(records, tasks),
    decreases tasks.len(),
{
    if tasks.len() > 0 {
        lemma_applied_upserts(records, tasks.drop_last());
        let changes = upsert_changes(records, tasks);
        assert(changes.drop_last() =~= upsert_changes(records, tasks.drop_last()));
    }
}

/// Dropping the record of a task keeps the records distinct, leaves none of
/// that task, and takes away no record of another task.
pub proof fn lemma_without(records: Seq<TaskView>, uuid: Seq<char>, name: Seq<char>)
    requires
        records_distinct(records),
    ensures
        records_distinct(without(records, uuid, name)),
        !has_record(without(records, uuid, name), uuid, name),
        forall|record: TaskView|
            #[trigger] without(records, uuid, name).contains(record) ==> records.contains(record),
{
    let after = without(records, uuid, name);
    if has_record(records, uuid, name) {
        let place = place_of_record(records, uuid, name);
        assert forall|a: int| 0 <= a < after.len() implies #[trigger] after[a] == records[if a
            < place {
            a
        } else {
            a + 1
        }] by {}
        assert forall|a: int, b: int| 0 <= a < b < after.len() implies !identifies(
            #[trigger] after[a],
            (#[trigger] after[b]).uuid,
            after[b].name,
        ) by {
            let a0 = if a < place { a } else { a + 1 };
            let b0 = if b < place { b } else { b + 1 };
            assert(after[a] == records[a0] && after[b] == records[b0]);
            assert(!identifies(records[a0], records[b0].uuid, records[b0].name));
        }
        if has_record(after, uuid, name) {
            let a = place_of_record(after, uuid, name);
            let a0 = if a < place { a } else { a + 1 };
            assert(after[a] == records[a0]);
            assert(identifies(records[a0], records[place].uuid, records[place].name));
            assert(identifies(records[place], records[a0].uuid, records[a0].name));
            if a0 < place {
                assert(!identifies(records[a0], records[place].uuid, records[place].name));
            } else {
                assert(!identifies(records[place], records[a0].uuid, records[a0].name));
            }
        }
        assert forall|record: TaskView| #[trigger] after.contains(record) implies records.contains(
            record,
        ) by {
            let a = choose|a: int| 0 <= a < after.len() && after[a] == record;
            let a0 = if a < place { a } else { a + 1 };
            assert(records[a0] == record);
        }
    }
}

/// Whether each of `changes` drops the record of a task other than `kept`.
pub open spec fn drops_others(changes: Seq<ChangeView>, kept: TaskView) -> bool {
    forall|i: int|
        0 <= i < changes.len() ==> (#[trigger] changes[i]) is Deleted && !identifies(
            kept,
            changes[i]->uuid,
            changes[i]->name,
        )
}

/// Deletions of other tasks leave the last record where it is.
pub proof fn lemma_applied_keeps_last(
    records: Seq<TaskView>,
    last: TaskView,
    changes: Seq<ChangeView>,
)
    requires
        records_distinct(records.push(last)),
        drops_others(changes, last),
    ensures
        records_distinct(applied(records, changes)),
        forall|record: TaskView|
            #[trigger] applied(records, changes).contains(record) ==> records.contains(record),
        applied(records.push(last), changes) == applied(records, changes).push(last),
    decreases changes.len(),
{
    let whole = records.push(last);
    assert(records_distinct(records)) by {
        assert forall|a: int, b: int| 0 <= a < b < records.len() implies !identifies(
            #[trigger] records[a],
            (#[trigger] records[b]).uuid,
            records[b].name,
        ) by {
            assert(!identifies(whole[a], whole[b].uuid, whole[b].name));
        }
    }
    if changes.len() > 0 {
        let first = changes.drop_last();
        let change = changes.last();
        assert(drops_others(first, last)) by {
            assert forall|i: int| 0 <= i < first.len() implies (#[trigger] first[i]) is Deleted
                && !identifies(last, first[i]->uuid, first[i]->name) by {
                assert(first[i] == changes[i]);
            }
        }
        lemma_applied_keeps_last(records, last, first);
        let middle = applied(records, first);
        let uuid = change->uuid;
        let name = change->name;
        lemma_without(middle, uuid, name);
        let grown = middle.push(last);
        assert(!identifies(last, uuid, name));
        if has_record(middle, uuid, name) {
            let place = place_of_record(middle, uuid, name);
            assert(identifies(grown[place], uuid, name));
            let other = place_of_record(grown, uuid, name);
            assert(identifies(grown[other], uuid, name));
            assert(other < middle.len());
            assert(identifies(middle[other], uuid, name));
            assert(other == place) by {
                assert(identifies(middle[other], middle[place].uuid, middle[place].name));
                assert(identifies(middle[place], middle[other].uuid, middle[other].name));
            }
            assert(grown.remove(place) =~= middle.remove(place).push(last));
        } else {
            if has_record(grown, uuid, name) {
                let other = place_of_record(grown, uuid, name);
                assert(identifies(grown[other], uuid, name));
                if other < middle.len() {
                    assert(identifies(middle[other], uuid, name));
                }
            }
        }
        assert forall|record: TaskView| #[trigger] applied(records, changes).contains(
            record,
        ) implies records.contains(record) by {
            assert(middle.contains(record));
        }
    }
}

/// Every one of the changes that drop the records of tasks not on disk is
/// a deletion of the task of one of the records.
pub proof fn lemma_drop_changes(records: Seq<TaskView>, found: Seq<TaskView>)
    ensures
        forall|i: int|
            0 <= i < drop_changes(records, found).len() ==> (#[trigger] drop_changes(
                records,
                found,
            )[i]) is Deleted && has_record(
                records,
                drop_changes(records, found)[i]->uuid,
                drop_changes(records, found)[i]->name,
            ),
    decreases records.len(),
{
    if records.len() > 0 {
        let first = records.drop_last();
        lemma_drop_changes(first, found);
        let rest = drop_changes(first, found);
        let all = drop_changes(records, found);
        assert forall|i: int| 0 <= i < all.len() implies (#[trigger] all[i]) is Deleted
            && has_record(records, all[i]->uuid, all[i]->name) by {
            if i < rest.len() {
                assert(all[i] == rest[i]);
                let place = place_of_record(first, rest[i]->uuid, rest[i]->name);
                assert(identifies(records[place], rest[i]->uuid, rest[i]->name));
            } else {
                assert(identifies(records[records.len() - 1], all[i]->uuid, all[i]->name));
            }
        }
    }
}

/// A store that takes the deletions of the records of tasks not on disk
/// holds the records that are retained.
pub proof fn lemma_applied_drops(records: Seq<TaskView>, found: Seq<TaskView>)
    requires
        records_distinct(records),
    ensures
        applied(records, drop_changes(records, found)) == retained(records, found),
    decreases records.len(),
{
    if records.len() > 0 {
        let first = records.drop_last();
        let last = records.last();
        assert(first.push(last) =~= records);
        let rest = drop_changes(first, found);
        lemma_drop_changes(first, found);
        assert(drops_others(rest, last)) by {
            assert forall|i: int| 0 <= i < rest.len() implies (#[trigger] rest[i]) is Deleted
                && !identifies(last, rest[i]->uuid, rest[i]->name) by {
                let place = place_of_record(first, rest[i]->uuid, rest[i]->name);
                assert(identifies(first[place], rest[i]->uuid, rest[i]->name));
                assert(first[place] == records[place]);
                assert(!identifies(records[place], last.uuid, last.name));
            }
        }
        lemma_applied_keeps_last(first, last, rest);
        lemma_applied_drops(first, found);
        let kept = retained(first, found);
        if !has_record(found, last.uuid, last.name) {
            let grown = kept.push(last);
            let changes = drop_changes(records, found);
            assert(changes.drop_last() =~= rest);
            assert(applied(records, rest) == grown);
            assert(identifies(grown[kept.len() as int], last.uuid, last.name));
            let place = place_of_record(grown, last.uuid, last.name);
            assert(identifies(grown[place], last.uuid, last.name));
            if place < kept.len() {
                assert(kept.contains(kept[place]));
                let other = choose|j: int| 0 <= j < first.len() && first[j] == kept[place];
                assert(!identifies(records[other], last.uuid, last.name));
            }
            assert(grown.remove(place) =~= kept);
        }
    } else {
        assert(drop_changes(records, found) =~= Seq::<ChangeView>::empty());
    }
}

/// The changes that an update of the registry returns are all a store needs
/// to follow it: a store that held the records before and takes the
/// changes in turn holds the records after.
pub proof fn lemma_changes_mirror_update(records: Seq<TaskView>, found: Seq<TaskView>)
    requires
        records_distinct(records),
    ensures
        applied(records, reconcile_changes(records, found)) == reconciled(records, found),
{
    let all = upserted_all(records, found);
    lemma_applied_in_two_runs(records, upsert_changes(records, found), drop_changes(all, found));
    lemma_applied_upserts(records, found);
    lemma_upserted_all(records, found);
    lemma_applied_drops(all, found);
}

/// The message of the failure to find a task.
pub open spec fn not_found() -> AppErrorView {
    AppErrorView::AnyHow("Task not found"@)
}

/// The registry of tasks.
pub struct TaskDatabase {
    tasks: Vec<Task>,
}

impl View for TaskDatabase {
    type V = Seq<TaskView>;

    closed spec fn view(&self) -> Seq<TaskView> {
        manifests_view(self.tasks@)
    }
}

impl TaskDatabase {
    /// The invariant of a registry: each task has at most one record.
    pub open spec fn well_formed(&self) -> bool {
        records_distinct(self@)
    }

    /// An empty registry.
    pub fn new() -> (db: TaskDatabase)
        ensures
            db.well_formed(),
            db@ == Seq::<TaskView>::empty(),
    {
        let db = TaskDatabase { tasks: Vec::new() };
        assert(db@ =~= Seq::<TaskView>::empty());
        db
    }

    /// The place of the record of the task `uuid`, `name`, if it has one.
    fn position(&self, uuid: &String, name: &String) -> (found: Option<usize>)
        requires
            self.well_formed(),
        ensures
            match found {
                Some(i) => has_record(self@, uuid@, name@) && i == place_of_record(
                    self@,
                    uuid@,
                    name@,
                ) && i < self@.len(),
                None => !has_record(self@, uuid@, name@),
            },
    {
        let mut i: usize = 0;
        while i < self.tasks.len()
            invariant
                self.well_formed(),
                i <= self.tasks.len(),
                self@.len() == self.tasks@.len(),
                forall|j: int| 0 <= j < i ==> !identifies(#[trigger] self@[j], uuid@, name@),
            decreases self.tasks.len() - i,
        {
            if self.tasks[i].is_identified_by(uuid, name) {
                proof {
                    assert(self@[i as int] == self.tasks@[i as int]@);
                    assert(identifies(self@[i as int], uuid@, name@));
                    let place = place_of_record(self@, uuid@, name@);
                    assert(identifies(self@[place], uuid@, name@));
                    assert(place == i);
                }
                return Some(i);
            }
            assert(self@[i as int] == self.tasks@[i as int]@);
            i = i + 1;
        }
        None
    }

    /// Records `task`: the record of the same task is replaced, so that its
    /// description is the new one; a task without a record gets one, after
    /// all others. The change made is returned.
    pub fn add_task(&mut self, task: &Task) -> (change: Change)
        requires
            old(self).well_formed(),
        ensures
            final(self).well_formed(),
            final(self)@ == upserted(old(self)@, task@),
            change@ == upsert_change(old(self)@, task@),
    {
        let ghost before = self@;
        match self.position(&task.uuid, &task.name) {
            Some(i) => {
                self.tasks.set(i, task.clone());
                assert(self@ =~= before.update(i as int, task@));
                assert(records_distinct(self@)) by {
                    assert forall|a: int, b: int| 0 <= a < b < self@.len() implies !identifies(
                        #[trigger] self@[a],
                        (#[trigger] self@[b]).uuid,
                        self@[b].name,
                    ) by {
                        assert(identifies(before[i as int], task@.uuid, task@.name));
                        assert(!identifies(before[a], before[b].uuid, before[b].name));
                    }
                }
                Change::Updated(task.clone())
            },
            None => {
                self.tasks.push(task.clone());
                assert(self@ =~= before.push(task@));
                assert(records_distinct(self@)) by {
                    assert forall|a: int, b: int| 0 <= a < b < self@.len() implies !identifies(
                        #[trigger] self@[a],
                        (#[trigger] self@[b]).uuid,
                        self@[b].name,
                    ) by {
                        if b < before.len() {
                            assert(!identifies(before[a], before[b].uuid, before[b].name));
                        } else {
                            assert(!identifies(before[a], task@.uuid, task@.name));
                        }
                    }
                }
                Change::Inserted(task.clone())
            },
        }
    }

    /// The manifest of the task `uuid`, `name`, or the failure "Task not
    /// found" where it has no record.
    pub fn get_task(&self, uuid: &String, name: &String) -> (r: Result<Task, AppError>)
        requires
            self.well_formed(),
        ensures
            match r {
                Ok(task) => has_record(self@, uuid@, name@) && task@ == self@[place_of_record(
                    self@,
                    uuid@,
                    name@,
                )],
                Err(e) => !has_record(self@, uuid@, name@) && e@ == not_found(),
            },
    {
        match self.position(uuid, name) {
            Some(i) => {
                assert(self@[i as int] == self.tasks@[i as int]@);
                Ok(self.tasks[i].clone())
            },
            None => Err(AppError::anyhow("Task not found")),
        }
    }

    /// All manifests, in the order in which they were first recorded.
    pub fn get_all_tasks(&self) -> (tasks: Vec<Task>)
        ensures
            manifests_view(tasks@) == self@,
    {
        let mut tasks: Vec<Task> = Vec::new();
        let mut i: usize = 0;
        while i < self.tasks.len()
            invariant
                i <= self.tasks.len(),
                self@.len() == self.tasks@.len(),
                manifests_view(tasks@) == self@.take(i as int),
            decreases self.tasks.len() - i,
        {
            let ghost done = tasks@;
            let copy = self.tasks[i].clone();
            tasks.push(copy);
            assert(self@[i as int] == self.tasks@[i as int]@);
            assert(manifests_view(tasks@) =~= manifests_view(done).push(copy@));
            i = i + 1;
            assert(manifests_view(tasks@) =~= self@.take(i as int));
        }
        assert(self@.take(i as int) =~= self@);
        tasks
    }

    /// Drops the record of the task `uuid`, `name`, or fails with "Task not
    /// found" where it has none. All other records stay, in their order.
    pub fn delete_tasks(&mut self, uuid: &String, name: &String) -> (r: Result<(), AppError>)
        requires
            old(self).well_formed(),
        ensures
            final(self).well_formed(),
            match r {
                Ok(()) => has_record(old(self)@, uuid@, name@) && final(self)@ == old(self)@.remove(
                    place_of_record(old(self)@, uuid@, name@),
                ) && !has_record(final(self)@, uuid@, name@),
                Err(e) => !has_record(old(self)@, uuid@, name@) && final(self)@ == old(self)@ && e@
                    == not_found(),
            },
    {
        let ghost before = self@;
        match self.position(uuid, name) {
            Some(i) => {
                self.tasks.remove(i);
                assert(self@ =~= before.remove(i as int));
                assert(records_distinct(self@)) by {
                    assert forall|a: int, b: int| 0 <= a < b < self@.len() implies !identifies(
                        #[trigger] self@[a],
                        (#[trigger] self@[b]).uuid,
                        self@[b].name,
                    ) by {
                        let a0 = if a < i { a } else { a + 1 };
                        let b0 = if b < i { b } else { b + 1 };
                        assert(self@[a] == before[a0]);
                        assert(self@[b] == before[b0]);
                        assert(!identifies(before[a0], before[b0].uuid, before[b0].name));
                    }
                }
                assert(!has_record(self@, uuid@, name@)) by {
                    if has_record(self@, uuid@, name@) {
                        let a = place_of_record(self@, uuid@, name@);
                        let a0 = if a < i { a } else { a + 1 };
                        assert(self@[a] == before[a0]);
                        assert(identifies(before[i as int], uuid@, name@));
                        assert(identifies(before[a0], before[i as int].uuid, before[i as int].name));
                        if a0 < i {
                            assert(!identifies(
                                before[a0],
                                before[i as int].uuid,
                                before[i as int].name,
                            ));
                        } else {
                            assert(!identifies(
                                before[i as int],
                                before[a0].uuid,
                                before[a0].name,
                            ));
                        }
                    }
                }
                Ok(())
            },
            None => Err(AppError::anyhow("Task not found")),
        }
    }

    /// Brings the registry in line with the manifests found on disk: each
    /// of them is recorded, in the order given, and every record whose task
    /// is not among them is dropped.
    pub fn update(&mut self, found: &Vec<Task>) -> (changes: Vec<Change>)
        requires
            old(self).well_formed(),
        ensures
            final(self).well_formed(),
            final(self)@ == reconciled(old(self)@, manifests_view(found@)),
            changes_view(changes@) == reconcile_changes(old(self)@, manifests_view(found@)),
    {
        let ghost before = self@;
        let ghost listed = manifests_view(found@);
        let mut changes: Vec<Change> = Vec::new();
        let mut i: usize = 0;
        assert(listed.take(0) =~= Seq::<TaskView>::empty());
        assert(changes_view(changes@) =~= Seq::<ChangeView>::empty());
        while i < found.len()
            invariant
                i <= found.len(),
                listed == manifests_view(found@),
                self.well_formed(),
                self@ == upserted_all(before, listed.take(i as int)),
                changes_view(changes@) == upsert_changes(before, listed.take(i as int)),
            decreases found.len() - i,
        {
            let ghost made = changes_view(changes@);
            assert(listed.take(i + 1).drop_last() =~= listed.take(i as int));
            assert(listed.take(i + 1).last() == found@[i as int]@);
            let change = self.add_task(&found[i]);
            changes.push(change);
            assert(changes_view(changes@) =~= made.push(change@));
            i = i + 1;
        }
        assert(listed.take(i as int) =~= listed);
        let ghost all = self@;
        let ghost recorded = changes_view(changes@);
        assert(recorded + Seq::<ChangeView>::empty() =~= recorded);
        let mut kept: Vec<Task> = Vec::new();
        let mut k: usize = 0;
        assert(all.take(0) =~= Seq::<TaskView>::empty());
        assert(manifests_view(kept@) =~= Seq::<TaskView>::empty());
        while k < self.tasks.len()
            invariant
                k <= self.tasks.len(),
                listed == manifests_view(found@),
                all == self@,
                all.len() == self.tasks@.len(),
                records_distinct(all),
                manifests_view(kept@) == retained(all.take(k as int), listed),
                changes_view(changes@) == recorded + drop_changes(all.take(k as int), listed),
                forall|a: int|
                    0 <= a < kept@.len() ==> exists|j: int|
                        0 <= j < k && all[j] == #[trigger] manifests_view(kept@)[a],
                records_distinct(manifests_view(kept@)),
            decreases self.tasks.len() - k,
        {
            let ghost done = manifests_view(kept@);
            assert(all.take(k + 1).drop_last() =~= all.take(k as int));
            assert(all.take(k + 1).last() == all[k as int]);
            assert(all[k as int] == self.tasks@[k as int]@);
            if is_listed(found, &self.tasks[k].uuid, &self.tasks[k].name) {
                let copy = self.tasks[k].clone();
                kept.push(copy);
                assert(manifests_view(kept@) =~= done.push(all[k as int]));
                assert forall|a: int| 0 <= a < kept@.len() implies exists|j: int|
                    0 <= j < k + 1 && all[j] == #[trigger] manifests_view(kept@)[a] by {
                    if a < done.len() {
                        assert(manifests_view(kept@)[a] == done[a]);
                        let j = choose|j: int| 0 <= j < k && all[j] == done[a];
                        assert(all[j] == manifests_view(kept@)[a]);
                    } else {
                        assert(all[k as int] == manifests_view(kept@)[a]);
                    }
                }
                assert(records_distinct(manifests_view(kept@))) by {
                    let now = manifests_view(kept@);
                    assert forall|a: int, b: int| 0 <= a < b < now.len() implies !identifies(
                        #[trigger] now[a],
                        (#[trigger] now[b]).uuid,
                        now[b].name,
                    ) by {
                        if b < done.len() {
                            assert(now[a] == done[a] && now[b] == done[b]);
                        } else {
                            assert(now[a] == done[a]);
                            let j = choose|j: int| 0 <= j < k && all[j] == done[a];
                            assert(!identifies(all[j], all[k as int].uuid, all[k as int].name));
                        }
                    }
                }
            } else {
                assert forall|a: int| 0 <= a < kept@.len() implies exists|j: int|
                    0 <= j < k + 1 && all[j] == #[trigger] manifests_view(kept@)[a] by {
                    let j = choose|j: int| 0 <= j < k && all[j] == done[a];
                    assert(all[j] == manifests_view(kept@)[a]);
                }
                let ghost made = changes_view(changes@);
                let change = Change::Deleted {
                    uuid: self.tasks[k].uuid.clone(),
                    name: self.tasks[k].name.clone(),
                };
                changes.push(change);
                assert(changes_view(changes@) =~= made.push(change@));
                assert(changes_view(changes@) =~= recorded + drop_changes(
                    all.take(k + 1),
                    listed,
                ));
            }
            k = k + 1;
        }
        assert(all.take(k as int) =~= all);
        self.tasks = kept;
        changes
    }
}

} // verus!
