use deploycli::task::{
    render_manifest, select_task, select_tasks, ManifestError, ManifestField, Task, TaskRef,
};

fn task(uuid: &str, name: &str, description: &str) -> Task {
    Task {
        uuid: String::from(uuid),
        name: String::from(name),
        description: String::from(description),
    }
}

#[test]
fn manifest_is_read() {
    let text = "uuid = \"1234\"\nname = \"demo\"\ndescription = \"A demo\"\nextra = 3\n";
    assert_eq!(Task::from_manifest(text), Ok(task("1234", "demo", "A demo")));
}

#[test]
fn manifest_that_is_no_toml_is_malformed() {
    assert!(matches!(Task::from_manifest("uuid = "), Err(ManifestError::Malformed(_))));
    assert!(matches!(Task::from_manifest("uuid = \"a\"\nuuid = \"b\"\n"),
        Err(ManifestError::Malformed(_))));
}

#[test]
fn manifest_fields_are_all_needed() {
    assert_eq!(
        Task::from_manifest("name = \"n\"\ndescription = \"d\"\n"),
        Err(ManifestError::Missing(ManifestField::Uuid))
    );
    assert_eq!(
        Task::from_manifest("uuid = \"u\"\ndescription = \"d\"\n"),
        Err(ManifestError::Missing(ManifestField::Name))
    );
    assert_eq!(
        Task::from_manifest("uuid = \"u\"\nname = \"n\"\n"),
        Err(ManifestError::Missing(ManifestField::Description))
    );
    assert_eq!(Task::from_manifest(""), Err(ManifestError::Missing(ManifestField::Uuid)));
}

#[test]
fn manifest_field_of_another_type_counts_as_missing() {
    assert_eq!(
        Task::from_manifest("uuid = 7\nname = \"n\"\ndescription = \"d\"\n"),
        Err(ManifestError::Missing(ManifestField::Uuid))
    );
    assert_eq!(
        Task::from_manifest("uuid = \"u\"\nname = true\ndescription = \"d\"\n"),
        Err(ManifestError::Missing(ManifestField::Name))
    );
}

#[test]
fn manifest_bytes_must_be_text() {
    assert_eq!(Task::from_manifest_bytes(&vec![0xff, 0xfe]), Err(ManifestError::NotText));
    assert_eq!(
        Task::from_manifest_bytes(
            &"uuid = \"u\"\nname = \"n\u{e9}\"\ndescription = \"d\"\n".as_bytes().to_vec()
        ),
        Ok(task("u", "n\u{e9}", "d"))
    );
}

#[test]
fn fields_make_a_manifest() {
    let some = |text: &str| Some(String::from(text));
    assert_eq!(Task::from_fields(some("u"), some("n"), some("d")), Ok(task("u", "n", "d")));
    assert_eq!(
        Task::from_fields(None, None, None),
        Err(ManifestError::Missing(ManifestField::Uuid))
    );
    assert_eq!(
        Task::from_fields(some("u"), None, None),
        Err(ManifestError::Missing(ManifestField::Name))
    );
    assert_eq!(
        Task::from_fields(some("u"), some("n"), None),
        Err(ManifestError::Missing(ManifestField::Description))
    );
}

#[test]
fn new_manifest_text_is_exact() {
    assert_eq!(
        render_manifest("1234", "demo"),
        "uuid = \"1234\"\nname = \"demo\"\ndescription = \"This is an example task\"\n"
    );
}

#[test]
fn rendered_manifest_reads_back() {
    let text = render_manifest("6f1b0c1e-7f0a-4c59-9d0e-2f1d3b5a7c9e", "demo");
    assert_eq!(
        Task::from_manifest(&text),
        Ok(task("6f1b0c1e-7f0a-4c59-9d0e-2f1d3b5a7c9e", "demo", "This is an example task"))
    );
}

#[test]
fn key_is_name_hyphen_identifier() {
    assert_eq!(task("1234", "demo", "").bundle_key(), "demo-1234");
    assert_eq!(task("", "", "").bundle_key(), "-");
    assert_eq!(TaskRef::of(&task("1234", "demo", "")).key(), "demo-1234");
    assert_ne!(task("1", "demo", "").bundle_key(), task("2", "demo", "").bundle_key());
}

#[test]
fn clone_keeps_the_fields() {
    let t = task("u", "n", "d");
    assert_eq!(t.clone(), t);
}

#[test]
fn identification_needs_both_parts() {
    let t = task("u", "n", "d");
    assert!(t.is_identified_by(&String::from("u"), &String::from("n")));
    assert!(!t.is_identified_by(&String::from("u"), &String::from("m")));
    assert!(!t.is_identified_by(&String::from("v"), &String::from("n")));
}

#[test]
fn selecting_by_index() {
    let tasks = vec![task("1", "a", ""), task("2", "b", "")];
    assert_eq!(select_task(&tasks, 1), Ok(task("2", "b", "")));
    assert_eq!(
        select_task(&tasks, 2).unwrap_err().to_text(),
        "error:`Task index out of range`"
    );
    assert_eq!(select_tasks(tasks.clone(), None), Ok(tasks.clone()));
    assert_eq!(select_tasks(tasks.clone(), Some(0)), Ok(vec![task("1", "a", "")]));
    assert_eq!(
        select_tasks(tasks.clone(), Some(5)).unwrap_err().to_text(),
        "error:`Task index out of range`"
    );
    assert_eq!(select_tasks(Vec::new(), None), Ok(Vec::new()));
}

#[test]
fn task_reference_from_form() {
    let some = |text: &str| Some(String::from(text));
    let r = TaskRef::from_form(some("demo"), some("1234")).unwrap();
    assert_eq!(r.name, "demo");
    assert_eq!(r.uuid, "1234");
    assert_eq!(r.bundle_dir(false), Some(String::from("demo-1234")));
    assert_eq!(
        TaskRef::from_form(None, some("1234")).unwrap_err().to_text(),
        "error:`Task name not found`"
    );
    assert_eq!(
        TaskRef::from_form(some("demo"), None).unwrap_err().to_text(),
        "error:`Task UUID not found`"
    );
}

#[test]
fn bundle_directory_cannot_leave_the_registry() {
    let r = TaskRef { uuid: String::from("x"), name: String::from("../..") };
    assert_eq!(r.bundle_dir(false), None);
    let r = TaskRef { uuid: String::from("a/b"), name: String::from("demo") };
    assert_eq!(r.bundle_dir(false), None);
}

#[test]
fn bundle_directory_follows_the_platform() {
    let r = TaskRef { uuid: String::from("u"), name: String::from("n:1") };
    assert_eq!(r.bundle_dir(false), Some(String::from("n:1-u")));
    assert_eq!(r.bundle_dir(true), None);
}
