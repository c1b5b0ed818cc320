use deploycli::archive::{create_zip, ArchiveError, ExtractStep, FileEntry};
use deploycli::bundle::BundleError;
use deploycli::cache::ContentCache;
use deploycli::digest::archive_digest;
use deploycli::sync::{
    answer_download, choose_reply, classify_status, complete_fetch, serve_download, DownloadReply,
    DownloadRequest, FetchError, FetchOutcome, StatusKind, Transfer,
};
use deploycli::task::Task;

fn task(uuid: &str, name: &str) -> Task {
    Task {
        uuid: String::from(uuid),
        name: String::from(name),
        description: String::from("a task"),
    }
}

fn bundle(script: &str) -> Vec<FileEntry> {
    vec![
        FileEntry {
            name: String::from("config.toml"),
            content: b"uuid = \"U\"\nname = \"N\"\ndescription = \"a task\"\n".to_vec(),
        },
        FileEntry { name: String::from("run.sh"), content: script.as_bytes().to_vec() },
    ]
}

#[test]
fn same_digest_is_not_modified() {
    let archive = create_zip(&bundle("echo one\n")).unwrap();
    let digest = archive_digest(&archive);
    assert_eq!(answer_download(&digest, archive), DownloadReply::NotModified);
}

#[test]
fn other_digest_gets_the_archive_with_the_servers_digest() {
    let archive = create_zip(&bundle("echo one\n")).unwrap();
    let digest = archive_digest(&archive);
    let others = [
        String::new(),
        String::from("d41d8cd98f00b204e9800998ecf8427e"),
        digest.to_uppercase(),
        format!("{} ", digest),
    ];
    for local in others {
        match answer_download(&local, archive.clone()) {
            DownloadReply::Archive(bytes) => {
                assert_eq!(bytes, archive);
                assert_eq!(archive_digest(&bytes), digest);
            }
            DownloadReply::NotModified => panic!("{:?} was taken for the server's digest", local),
        }
    }
}

#[test]
fn empty_digest_always_transfers() {
    let empty = String::new();
    assert_eq!(choose_reply(&empty, &empty, vec![1, 2, 3]), DownloadReply::Archive(vec![1, 2, 3]));
}

#[test]
fn reply_status() {
    assert_eq!(DownloadReply::NotModified.status(), 304);
    assert_eq!(DownloadReply::Archive(vec![1]).status(), 200);
    assert_eq!(
        DownloadReply::NotModified.into_transfer(),
        Transfer::Answered { status: 304, body: Vec::new() }
    );
    assert_eq!(
        DownloadReply::Archive(vec![7]).into_transfer(),
        Transfer::Answered { status: 200, body: vec![7] }
    );
}

#[test]
fn status_classes() {
    assert_eq!(classify_status(304), StatusKind::NotModified);
    assert_eq!(classify_status(200), StatusKind::Success);
    assert_eq!(classify_status(204), StatusKind::Success);
    assert_eq!(classify_status(299), StatusKind::Success);
    assert_eq!(classify_status(300), StatusKind::Failure);
    assert_eq!(classify_status(199), StatusKind::Failure);
    assert_eq!(classify_status(401), StatusKind::Failure);
    assert_eq!(classify_status(500), StatusKind::Failure);
}

#[test]
fn serving_a_bundle_with_an_overlong_name_fails() {
    let files =
        vec![FileEntry { name: "n".repeat(70000), content: Vec::new() }];
    assert_eq!(serve_download(&String::new(), &files), Err(ArchiveError::NameTooLong));
}

#[test]
fn request_form_fields_are_all_needed() {
    let some = |text: &str| Some(String::from(text));
    let request = DownloadRequest::from_form(some("N"), some("U"), some("")).unwrap();
    assert_eq!(request.task.name, "N");
    assert_eq!(request.task.uuid, "U");
    assert_eq!(request.digest, "");
    assert_eq!(
        DownloadRequest::from_form(None, None, None).unwrap_err().to_text(),
        "error:`Task name not found`"
    );
    assert_eq!(
        DownloadRequest::from_form(some("N"), None, None).unwrap_err().to_text(),
        "error:`Task UUID not found`"
    );
    assert_eq!(
        DownloadRequest::from_form(some("N"), some("U"), None).unwrap_err().to_text(),
        "error:`Task digest not found`"
    );
}

#[test]
fn failed_transfer_leaves_the_cache_untouched() {
    let t = task("U", "N");
    let mut cache = ContentCache::new(String::from("/tmp"));
    cache.store(&t, vec![1, 2, 3]);
    let before = cache.lookup_digest(&t);
    assert_eq!(complete_fetch(&mut cache, &t, Transfer::Failed, false), Err(FetchError::Network));
    for status in [404u16, 500, 401, 302, 100] {
        assert_eq!(
            complete_fetch(&mut cache, &t, Transfer::Answered { status, body: vec![9, 9] }, false),
            Err(FetchError::Status(status))
        );
    }
    assert_eq!(cache.lookup_digest(&t), before);
    assert_eq!(cache.cached_archive(&t), Some(&vec![1u8, 2, 3]));
}

#[test]
fn damaged_body_leaves_the_cache_untouched() {
    let t = task("U", "N");
    let good = create_zip(&bundle("echo one\n")).unwrap();
    let mut cache = ContentCache::new(String::from("/tmp"));
    cache.store(&t, good.clone());
    cache.mark_unpacked(&t);
    let newer = create_zip(&bundle("echo two\n")).unwrap();
    let truncated = newer[..newer.len() / 2].to_vec();
    for body in [truncated, b"not an archive".to_vec(), Vec::new()] {
        assert!(matches!(
            complete_fetch(&mut cache, &t, Transfer::Answered { status: 200, body }, false),
            Err(FetchError::Bundle(BundleError::Archive(ArchiveError::Corrupt(_))))
        ));
        assert_eq!(cache.cached_archive(&t), Some(&good));
        assert!(cache.is_unpacked(&t));
    }
}

#[test]
fn body_without_entry_script_is_not_kept() {
    let t = task("U", "N");
    let mut cache = ContentCache::new(String::from("/tmp"));
    let bare = create_zip(&vec![FileEntry {
        name: String::from("config.toml"),
        content: b"uuid = \"U\"\nname = \"N\"\ndescription = \"d\"\n".to_vec(),
    }])
    .unwrap();
    assert_eq!(
        complete_fetch(&mut cache, &t, Transfer::Answered { status: 200, body: bare }, false),
        Err(FetchError::Bundle(BundleError::MissingEntryScript))
    );
    assert_eq!(cache.cached_archive(&t), None);
    let climbing = create_zip(&vec![
        FileEntry { name: String::from("run.sh"), content: Vec::new() },
        FileEntry { name: String::from("../x"), content: Vec::new() },
    ])
    .unwrap();
    assert!(matches!(
        complete_fetch(&mut cache, &t, Transfer::Answered { status: 200, body: climbing }, false),
        Err(FetchError::Bundle(BundleError::Archive(ArchiveError::Traversal(_))))
    ));
    assert_eq!(cache.cached_archive(&t), None);
}

#[test]
fn not_modified_without_a_cached_archive_fails() {
    let t = task("U", "N");
    let mut cache = ContentCache::new(String::from("/tmp"));
    assert_eq!(
        complete_fetch(
            &mut cache,
            &t,
            Transfer::Answered { status: 304, body: Vec::new() },
            false
        ),
        Err(FetchError::NothingCached)
    );
    assert_eq!(cache.cached_archive(&t), None);
}

#[test]
fn not_modified_unpacks_only_what_is_not_unpacked() {
    let t = task("U", "N");
    let archive = create_zip(&bundle("echo one\n")).unwrap();
    let mut cache = ContentCache::new(String::from("/tmp"));
    cache.store(&t, archive.clone());
    match complete_fetch(
        &mut cache,
        &t,
        Transfer::Answered { status: 304, body: Vec::new() },
        false,
    ) {
        Ok(FetchOutcome::Unpack { archive: bytes, steps }) => {
            assert_eq!(bytes, archive);
            assert_eq!(steps.len(), 2);
            assert_eq!(
                steps[1],
                ExtractStep::WriteFile {
                    path: String::from("run.sh"),
                    content: b"echo one\n".to_vec()
                }
            );
        }
        other => panic!("the fetch ended with {:?}", other),
    }
    cache.mark_unpacked(&t);
    assert_eq!(
        complete_fetch(
            &mut cache,
            &t,
            Transfer::Answered { status: 304, body: Vec::new() },
            false
        ),
        Ok(FetchOutcome::Ready)
    );
}

#[test]
fn not_modified_with_a_damaged_cached_archive_fails() {
    let t = task("U", "N");
    let mut cache = ContentCache::new(String::from("/tmp"));
    cache.store(&t, vec![4, 5, 6]);
    assert!(matches!(
        complete_fetch(
            &mut cache,
            &t,
            Transfer::Answered { status: 304, body: Vec::new() },
            false
        ),
        Err(FetchError::Bundle(BundleError::Archive(ArchiveError::Corrupt(_))))
    ));
    assert_eq!(cache.cached_archive(&t), Some(&vec![4u8, 5, 6]));
}

#[test]
fn three_fetches_end_to_end() {
    let t = task("U", "N");
    let mut cache = ContentCache::new(String::from("/tmp"));

    // First fetch: nothing cached, the whole archive comes.
    let server_one = bundle("echo one\n");
    let d1 = archive_digest(&create_zip(&server_one).unwrap());
    let request = DownloadRequest::for_task(&cache, &t);
    assert_eq!(request.digest, "");
    let reply = serve_download(&request.digest, &server_one).unwrap();
    assert_eq!(reply.status(), 200);
    let received = match complete_fetch(&mut cache, &t, reply.into_transfer(), false) {
        Ok(FetchOutcome::Unpack { archive, .. }) => archive,
        other => panic!("first fetch ended with {:?}", other),
    };
    assert_eq!(archive_digest(&received), d1);
    assert_eq!(cache.lookup_digest(&t), d1);
    cache.mark_unpacked(&t);

    // Second fetch: nothing changed on the server.
    let request = DownloadRequest::for_task(&cache, &t);
    assert_eq!(request.digest, d1);
    let reply = serve_download(&request.digest, &server_one).unwrap();
    assert_eq!(reply, DownloadReply::NotModified);
    assert_eq!(
        complete_fetch(&mut cache, &t, reply.into_transfer(), false),
        Ok(FetchOutcome::Ready)
    );
    assert_eq!(cache.lookup_digest(&t), d1);
    assert_eq!(cache.cached_archive(&t), Some(&received));
    assert!(cache.is_unpacked(&t));

    // Third fetch: the bundle changed on the server.
    let server_two = bundle("echo two\n");
    let d2 = archive_digest(&create_zip(&server_two).unwrap());
    assert_ne!(d1, d2);
    let request = DownloadRequest::for_task(&cache, &t);
    assert_eq!(request.digest, d1);
    let reply = serve_download(&request.digest, &server_two).unwrap();
    assert_eq!(reply.status(), 200);
    let replaced = match complete_fetch(&mut cache, &t, reply.into_transfer(), false) {
        Ok(FetchOutcome::Unpack { archive, .. }) => archive,
        other => panic!("third fetch ended with {:?}", other),
    };
    assert_eq!(archive_digest(&replaced), d2);
    assert_eq!(cache.lookup_digest(&t), d2);
    assert!(!cache.is_unpacked(&t));
}
