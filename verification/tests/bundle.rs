use deploycli::archive::{create_zip, ArchiveError, ExtractStep, FileEntry};
use deploycli::bundle::{
    accept_upload, entry_script_name, entry_script_path, find_file, manifest_file_name,
    new_task_files, prepare_upload, read_manifest, script_template_text, task_skeleton,
    unpack_for_run, validate_bundle, BundleError,
};
use deploycli::task::{ManifestError, ManifestField, Task};

fn file(name: &str, content: &str) -> FileEntry {
    FileEntry { name: String::from(name), content: content.as_bytes().to_vec() }
}

fn manifest() -> FileEntry {
    file("config.toml", "uuid = \"1234\"\nname = \"demo\"\ndescription = \"A demo\"\n")
}

fn demo() -> Task {
    Task {
        uuid: String::from("1234"),
        name: String::from("demo"),
        description: String::from("A demo"),
    }
}

#[test]
fn file_names() {
    assert_eq!(manifest_file_name(), "config.toml");
    assert_eq!(entry_script_name(false), "run.sh");
    assert_eq!(entry_script_name(true), "run.bat");
    assert_eq!(entry_script_path("/tmp/demo-1234", false), "/tmp/demo-1234/run.sh");
    assert_eq!(entry_script_path("/tmp/demo-1234", true), "/tmp/demo-1234/run.bat");
}

#[test]
fn first_file_of_a_name_is_found() {
    let files = vec![file("a", "1"), file("b", "2"), file("a", "3")];
    assert_eq!(find_file(&files, &String::from("a")), Some(0));
    assert_eq!(find_file(&files, &String::from("b")), Some(1));
    assert_eq!(find_file(&files, &String::from("c")), None);
    assert_eq!(find_file(&Vec::new(), &String::from("a")), None);
}

#[test]
fn complete_bundle_is_valid() {
    let files = vec![file("run.sh", "echo hi\n"), manifest(), file("data.txt", "x")];
    assert_eq!(validate_bundle(&files, false), Ok(demo()));
    assert_eq!(read_manifest(&files), Ok(demo()));
}

#[test]
fn bundle_without_manifest_is_refused() {
    let files = vec![file("run.sh", "echo hi\n")];
    assert_eq!(validate_bundle(&files, false), Err(BundleError::MissingManifest));
    assert_eq!(prepare_upload(&files, false), Err(BundleError::MissingManifest));
}

#[test]
fn bundle_without_entry_script_is_refused() {
    let files = vec![manifest()];
    assert_eq!(validate_bundle(&files, false), Err(BundleError::MissingEntryScript));
    let files = vec![manifest(), file("run.bat", "@echo off\n")];
    assert_eq!(validate_bundle(&files, false), Err(BundleError::MissingEntryScript));
    assert_eq!(validate_bundle(&files, true), Ok(demo()));
    assert_eq!(prepare_upload(&vec![manifest()], false), Err(BundleError::MissingEntryScript));
}

#[test]
fn bundle_with_a_bad_manifest_is_refused() {
    let files = vec![file("config.toml", "uuid = \"1\"\n"), file("run.sh", "")];
    assert_eq!(
        validate_bundle(&files, false),
        Err(BundleError::Manifest(ManifestError::Missing(ManifestField::Name)))
    );
    let files = vec![file("config.toml", "not toml at all"), file("run.sh", "")];
    assert!(matches!(
        validate_bundle(&files, false),
        Err(BundleError::Manifest(ManifestError::Malformed(_)))
    ));
    let files = vec![
        FileEntry { name: String::from("config.toml"), content: vec![0xc3, 0x28] },
        file("run.sh", ""),
    ];
    assert_eq!(
        validate_bundle(&files, false),
        Err(BundleError::Manifest(ManifestError::NotText))
    );
}

#[test]
fn manifest_is_checked_before_the_script() {
    assert_eq!(validate_bundle(&Vec::new(), false), Err(BundleError::MissingManifest));
}

#[test]
fn upload_is_the_packed_bundle_under_the_task_key() {
    let files = vec![manifest(), file("run.sh", "echo hi\n")];
    let upload = prepare_upload(&files, false).unwrap();
    assert_eq!(upload.filename, "demo-1234");
    assert_eq!(upload.task, demo());
    assert_eq!(upload.archive, create_zip(&files).unwrap());
}

#[test]
fn upload_with_an_overlong_name_is_refused() {
    let files = vec![manifest(), file("run.sh", ""), file(&"x".repeat(65536), "")];
    assert_eq!(
        prepare_upload(&files, false),
        Err(BundleError::Archive(ArchiveError::NameTooLong))
    );
}

#[test]
fn registry_accepts_what_a_client_prepared() {
    let files = vec![manifest(), file("run.sh", "echo hi\n")];
    let upload = prepare_upload(&files, false).unwrap();
    let accepted = accept_upload(&upload.filename, &upload.archive, false).unwrap();
    assert_eq!(accepted.dir_name, "demo-1234");
    assert_eq!(accepted.task, demo());
    assert_eq!(
        accepted.steps,
        vec![
            ExtractStep::WriteFile {
                path: String::from("config.toml"),
                content: manifest().content
            },
            ExtractStep::WriteFile {
                path: String::from("run.sh"),
                content: b"echo hi\n".to_vec()
            },
        ]
    );
}

#[test]
fn registry_refuses_bad_uploads() {
    let good = create_zip(&vec![manifest(), file("run.sh", "")]).unwrap();
    assert_eq!(accept_upload("../demo", &good, false), Err(BundleError::BadName));
    assert_eq!(accept_upload("a/b", &good, false), Err(BundleError::BadName));
    assert_eq!(accept_upload("", &good, false), Err(BundleError::BadName));
    assert_eq!(accept_upload("..", &good, false), Err(BundleError::BadName));
    assert!(matches!(
        accept_upload("demo-1234", &b"garbage".to_vec(), false),
        Err(BundleError::Archive(ArchiveError::Corrupt(_)))
    ));
    let climbing = create_zip(&vec![manifest(), file("../../etc/passwd", "x")]).unwrap();
    assert_eq!(
        accept_upload("demo-1234", &climbing, false),
        Err(BundleError::Archive(ArchiveError::Traversal(String::from("../../etc/passwd"))))
    );
    let bare = create_zip(&vec![file("run.sh", "")]).unwrap();
    assert_eq!(accept_upload("demo-1234", &bare, false), Err(BundleError::MissingManifest));
}

#[test]
fn fetched_archive_needs_an_entry_script() {
    let with = create_zip(&vec![manifest(), file("run.sh", "echo hi\n")]).unwrap();
    assert_eq!(unpack_for_run(&with, false).unwrap().len(), 2);
    assert_eq!(unpack_for_run(&with, true), Err(BundleError::MissingEntryScript));
    let without = create_zip(&vec![manifest()]).unwrap();
    assert_eq!(unpack_for_run(&without, false), Err(BundleError::MissingEntryScript));
    assert!(matches!(
        unpack_for_run(&vec![1, 2, 3], false),
        Err(BundleError::Archive(ArchiveError::Corrupt(_)))
    ));
    let climbing = create_zip(&vec![file("run.sh", ""), file("../x", "")]).unwrap();
    assert!(matches!(
        unpack_for_run(&climbing, false),
        Err(BundleError::Archive(ArchiveError::Traversal(_)))
    ));
}

#[test]
fn skeleton_of_a_new_task() {
    let files = task_skeleton("1234", "demo", false);
    assert_eq!(files.len(), 2);
    assert_eq!(files[0].name, "config.toml");
    assert_eq!(
        files[0].content,
        b"uuid = \"1234\"\nname = \"demo\"\ndescription = \"This is an example task\"\n".to_vec()
    );
    assert_eq!(files[1].name, "run.sh");
    assert_eq!(files[1].content, script_template_text(false).into_bytes());
    assert!(script_template_text(false).starts_with("#!/bin/sh\necho \"Running task...\"\n"));
    assert_eq!(
        script_template_text(true),
        "@echo off\necho Running task...\nREM Add your task logic here\n"
    );
    assert_eq!(task_skeleton("1234", "demo", true)[1].name, "run.bat");
    assert_eq!(
        validate_bundle(&files, false).unwrap().description,
        "This is an example task"
    );
}

#[test]
fn new_task_gets_a_fresh_identifier() {
    let first = validate_bundle(&new_task_files("demo", false), false).unwrap();
    let second = validate_bundle(&new_task_files("demo", false), false).unwrap();
    assert_eq!(first.name, "demo");
    assert_eq!(first.uuid.chars().count(), 36);
    assert_eq!(second.uuid.chars().count(), 36);
    assert_ne!(first.uuid, second.uuid);
    assert_ne!(first.uuid, "demo");
}

#[test]
fn upload_name_with_a_colon_is_accepted_except_on_windows() {
    let archive = create_zip(&vec![manifest(), file("run.sh", "")]).unwrap();
    let accepted = accept_upload("n:1-u", &archive, false).unwrap();
    assert_eq!(accepted.dir_name, "n:1-u");
    assert_eq!(accepted.task, demo());
    assert_eq!(accept_upload("n:1-u", &archive, true), Err(BundleError::BadName));
    assert_eq!(accept_upload("n\\1-u", &archive, true), Err(BundleError::BadName));
    assert!(accept_upload("n\\1-u", &archive, false).is_ok());
}
