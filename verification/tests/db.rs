use deploycli::db::{is_listed, Change};
use deploycli::task::Task;
use deploycli::TaskDatabase;

fn task(uuid: &str, name: &str, description: &str) -> Task {
    Task {
        uuid: String::from(uuid),
        name: String::from(name),
        description: String::from(description),
    }
}

fn get(db: &TaskDatabase, uuid: &str, name: &str) -> Option<Task> {
    db.get_task(&String::from(uuid), &String::from(name)).ok()
}

#[test]
fn new_registry_is_empty() {
    let db = TaskDatabase::new();
    assert_eq!(db.get_all_tasks(), Vec::new());
    assert_eq!(
        db.get_task(&String::from("u"), &String::from("n")).unwrap_err().to_text(),
        "error:`Task not found`"
    );
}

#[test]
fn adding_records_in_order() {
    let mut db = TaskDatabase::new();
    db.add_task(&task("1", "a", "first"));
    db.add_task(&task("2", "b", "second"));
    assert_eq!(db.get_all_tasks(), vec![task("1", "a", "first"), task("2", "b", "second")]);
    assert_eq!(get(&db, "2", "b"), Some(task("2", "b", "second")));
}

#[test]
fn adding_again_updates_the_description_in_place() {
    let mut db = TaskDatabase::new();
    db.add_task(&task("1", "a", "first"));
    db.add_task(&task("2", "b", "second"));
    db.add_task(&task("1", "a", "changed"));
    assert_eq!(db.get_all_tasks(), vec![task("1", "a", "changed"), task("2", "b", "second")]);
}

#[test]
fn same_name_other_identifier_is_another_record() {
    let mut db = TaskDatabase::new();
    db.add_task(&task("1", "a", "one"));
    db.add_task(&task("2", "a", "two"));
    db.add_task(&task("1", "b", "three"));
    assert_eq!(db.get_all_tasks().len(), 3);
    assert_eq!(get(&db, "2", "a"), Some(task("2", "a", "two")));
    assert_eq!(get(&db, "2", "b"), None);
}

#[test]
fn deleting() {
    let mut db = TaskDatabase::new();
    db.add_task(&task("1", "a", "one"));
    db.add_task(&task("2", "b", "two"));
    db.add_task(&task("3", "c", "three"));
    assert_eq!(db.delete_tasks(&String::from("2"), &String::from("b")), Ok(()));
    assert_eq!(db.get_all_tasks(), vec![task("1", "a", "one"), task("3", "c", "three")]);
    let e = db.delete_tasks(&String::from("2"), &String::from("b")).unwrap_err();
    assert_eq!(e.to_text(), "error:`Task not found`");
    assert_eq!(db.get_all_tasks().len(), 2);
}

#[test]
fn update_matches_what_is_on_disk() {
    let mut db = TaskDatabase::new();
    db.add_task(&task("1", "a", "old"));
    db.add_task(&task("2", "b", "stale"));
    db.add_task(&task("3", "c", "kept"));
    let found = vec![task("3", "c", "kept"), task("1", "a", "new"), task("4", "d", "added")];
    db.update(&found);
    assert_eq!(
        db.get_all_tasks(),
        vec![task("1", "a", "new"), task("3", "c", "kept"), task("4", "d", "added")]
    );
}

#[test]
fn update_drops_a_record_that_shares_only_a_name() {
    let mut db = TaskDatabase::new();
    db.add_task(&task("1", "a", "gone from disk"));
    db.update(&vec![task("2", "a", "on disk")]);
    assert_eq!(db.get_all_tasks(), vec![task("2", "a", "on disk")]);
}

#[test]
fn update_with_nothing_on_disk_empties_the_registry() {
    let mut db = TaskDatabase::new();
    db.add_task(&task("1", "a", ""));
    db.update(&Vec::new());
    assert_eq!(db.get_all_tasks(), Vec::new());
}

#[test]
fn update_with_a_task_found_twice_keeps_the_last() {
    let mut db = TaskDatabase::new();
    db.update(&vec![task("1", "a", "first"), task("1", "a", "second")]);
    assert_eq!(db.get_all_tasks(), vec![task("1", "a", "second")]);
}

#[test]
fn listing() {
    let tasks = vec![task("1", "a", ""), task("2", "b", "")];
    assert!(is_listed(&tasks, &String::from("2"), &String::from("b")));
    assert!(!is_listed(&tasks, &String::from("2"), &String::from("a")));
    assert!(!is_listed(&Vec::new(), &String::from("2"), &String::from("a")));
}

#[test]
fn adding_says_what_changed() {
    let mut db = TaskDatabase::new();
    assert_eq!(db.add_task(&task("1", "a", "first")), Change::Inserted(task("1", "a", "first")));
    assert_eq!(db.add_task(&task("1", "a", "again")), Change::Updated(task("1", "a", "again")));
    assert_eq!(db.add_task(&task("2", "a", "other")), Change::Inserted(task("2", "a", "other")));
}

#[test]
fn update_says_what_changed() {
    let mut db = TaskDatabase::new();
    db.add_task(&task("1", "a", "old"));
    db.add_task(&task("2", "b", "stale"));
    db.add_task(&task("3", "c", "kept"));
    let found = vec![task("3", "c", "kept"), task("1", "a", "new"), task("4", "d", "added")];
    assert_eq!(
        db.update(&found),
        vec![
            Change::Updated(task("3", "c", "kept")),
            Change::Updated(task("1", "a", "new")),
            Change::Inserted(task("4", "d", "added")),
            Change::Deleted { uuid: String::from("2"), name: String::from("b") },
        ]
    );
    assert_eq!(db.update(&Vec::new()).len(), 3);
    assert_eq!(db.update(&Vec::new()), Vec::new());
}
