use deploycli::archive::{
    create_zip, plan_extraction, read_archive, unpack_zip, ArchiveError, ExtractStep, FileEntry,
};

fn entry(name: &str, content: &[u8]) -> FileEntry {
    FileEntry { name: String::from(name), content: content.to_vec() }
}

#[test]
fn packing_is_repeatable() {
    let entries = vec![
        entry("config.toml", b"name = \"a\"\n"),
        entry("run.sh", b"#!/bin/sh\necho hi\n"),
    ];
    let first = create_zip(&entries).ok().unwrap();
    let second = create_zip(&entries).ok().unwrap();
    assert!(!first.is_empty());
    assert_eq!(first, second);
}

#[test]
fn archive_is_not_its_input() {
    let entries = vec![entry("run.sh", b"echo hi\n")];
    let packed = create_zip(&entries).ok().unwrap();
    assert_ne!(packed, b"echo hi\n".to_vec());
    assert_eq!(&packed[0..4], &[0x50, 0x4b, 0x03, 0x04]);
}

#[test]
fn round_trip_keeps_names_and_bytes() {
    let entries = vec![
        entry("config.toml", b"uuid = \"u\"\nname = \"n\"\ndescription = \"d\"\n"),
        entry("run.sh", b"#!/bin/sh\necho hi\n"),
        entry("data/nested/blob.bin", &[0u8, 1, 2, 3, 255, 254]),
        entry("empty", b""),
    ];
    let packed = create_zip(&entries).ok().unwrap();
    let read = read_archive(&packed).ok().unwrap();
    assert_eq!(read.len(), entries.len());
    for (got, want) in read.iter().zip(entries.iter()) {
        assert_eq!(got.name, want.name);
        assert_eq!(got.content, want.content);
    }
    let steps = unpack_zip(&packed, false).ok().unwrap();
    assert_eq!(steps.len(), 4);
    match &steps[2] {
        ExtractStep::WriteFile { path, content } => {
            assert_eq!(path, "data/nested/blob.bin");
            assert_eq!(content, &vec![0u8, 1, 2, 3, 255, 254]);
        }
        ExtractStep::CreateDir { .. } => panic!("a file was planned as a directory"),
    }
}

#[test]
fn traversal_entry_is_refused() {
    let entries = vec![entry("run.sh", b"echo hi\n"), entry("../../etc/passwd", b"root::0:0\n")];
    let packed = create_zip(&entries).ok().unwrap();
    match unpack_zip(&packed, false) {
        Err(ArchiveError::Traversal(name)) => assert_eq!(name, "../../etc/passwd"),
        _ => panic!("the climbing entry was not refused"),
    }
}

#[test]
fn absolute_and_nul_names_are_refused() {
    assert!(matches!(
        plan_extraction(&vec![entry("/etc/passwd", b"x")], false),
        Err(ArchiveError::Traversal(_))
    ));
    assert!(matches!(
        plan_extraction(&vec![entry("a\0b", b"x")], false),
        Err(ArchiveError::Traversal(_))
    ));
    assert!(matches!(
        plan_extraction(&vec![entry("a/../../b", b"x")], false),
        Err(ArchiveError::Traversal(_))
    ));
    assert!(matches!(plan_extraction(&vec![entry(".", b"x")], false), Err(ArchiveError::Traversal(_))));
}

#[test]
fn inner_parent_components_are_resolved() {
    let steps = plan_extraction(&vec![entry("a/./b/../c.txt", b"x"), entry("logs/", b"")], false)
        .ok()
        .unwrap();
    match &steps[0] {
        ExtractStep::WriteFile { path, content } => {
            assert_eq!(path, "a/c.txt");
            assert_eq!(content, &b"x".to_vec());
        }
        ExtractStep::CreateDir { .. } => panic!("a file was planned as a directory"),
    }
    match &steps[1] {
        ExtractStep::CreateDir { path } => assert_eq!(path, "logs"),
        ExtractStep::WriteFile { .. } => panic!("a directory was planned as a file"),
    }
}

#[test]
fn damaged_archive_is_corrupt() {
    assert!(matches!(unpack_zip(&b"not an archive".to_vec(), false), Err(ArchiveError::Corrupt(_))));
    let packed = create_zip(&vec![entry("run.sh", b"echo hi\n")]).ok().unwrap();
    let truncated = packed[..packed.len() / 2].to_vec();
    assert!(matches!(unpack_zip(&truncated, false), Err(ArchiveError::Corrupt(_))));
}

#[test]
fn overlong_name_is_refused() {
    let name = "n".repeat(65536);
    assert!(matches!(create_zip(&vec![entry(&name, b"x")]), Err(ArchiveError::NameTooLong)));
}

#[test]
fn duplicate_name_is_a_codec_error() {
    let entries = vec![entry("run.sh", b"a"), entry("run.sh", b"b")];
    assert!(matches!(create_zip(&entries), Err(ArchiveError::Codec(_))));
}

#[test]
fn backslash_entry_is_refused_on_windows() {
    let entries = vec![entry("run.sh", b"echo hi\n"), entry("..\\x", b"x")];
    assert_eq!(
        plan_extraction(&entries, true),
        Err(ArchiveError::Traversal(String::from("..\\x")))
    );
    let packed = create_zip(&entries).ok().unwrap();
    assert_eq!(unpack_zip(&packed, true), Err(ArchiveError::Traversal(String::from("..\\x"))));
}

#[test]
fn names_with_colon_or_backslash_round_trip_elsewhere() {
    let entries = vec![entry("a:b", b""), entry("back\\slash", b"x"), entry("dir/c:d", b"y")];
    let packed = create_zip(&entries).unwrap();
    assert_eq!(read_archive(&packed).unwrap(), entries);
    let steps = unpack_zip(&packed, false).unwrap();
    assert_eq!(
        steps,
        vec![
            ExtractStep::WriteFile { path: String::from("a:b"), content: Vec::new() },
            ExtractStep::WriteFile { path: String::from("back\\slash"), content: b"x".to_vec() },
            ExtractStep::WriteFile { path: String::from("dir/c:d"), content: b"y".to_vec() },
        ]
    );
}

#[test]
fn files_with_distinct_fitting_names_are_packed() {
    let mut entries = Vec::new();
    for i in 0..200 {
        entries.push(entry(&format!("dir/file-{}", i), &vec![(i % 251) as u8; 1000 + i]));
    }
    entries.push(entry(&"n".repeat(65535), b""));
    entries.push(entry("", b"nameless"));
    let packed = create_zip(&entries).unwrap();
    let read = read_archive(&packed).unwrap();
    assert_eq!(read, entries);
}
