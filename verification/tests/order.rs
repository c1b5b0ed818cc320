use deploycli::archive::{create_zip, FileEntry};
use deploycli::bundle::prepare_upload;
use deploycli::digest::archive_digest;
use deploycli::order::{bytes_before, canonical_order, entry_before, pack_canonical};
use deploycli::sync::{serve_download, DownloadReply};

fn file(name: &str, content: &str) -> FileEntry {
    FileEntry { name: String::from(name), content: content.as_bytes().to_vec() }
}

fn names(files: &[FileEntry]) -> Vec<&str> {
    files.iter().map(|f| f.name.as_str()).collect()
}

#[test]
fn bytes_are_ordered_lexicographically() {
    assert!(bytes_before(b"", b""));
    assert!(bytes_before(b"", b"a"));
    assert!(!bytes_before(b"a", b""));
    assert!(bytes_before(b"a", b"a"));
    assert!(bytes_before(b"a", b"ab"));
    assert!(!bytes_before(b"ab", b"a"));
    assert!(bytes_before(b"ab", b"b"));
    assert!(!bytes_before(b"b", b"ab"));
    assert!(bytes_before(&[1, 2, 3], &[1, 2, 4]));
    assert!(!bytes_before(&[1, 2, 255], &[1, 2, 4]));
}

#[test]
fn byte_order_agrees_with_std() {
    let samples: [&[u8]; 7] = [b"", b"a", b"ab", b"b", b"run.sh", b"config.toml", &[0xc3, 0xa9]];
    for a in samples {
        for b in samples {
            assert_eq!(bytes_before(a, b), a <= b, "{:?} against {:?}", a, b);
        }
    }
}

#[test]
fn files_of_one_name_are_ordered_by_content() {
    assert!(entry_before(&file("a", "1"), &file("a", "2")));
    assert!(!entry_before(&file("a", "2"), &file("a", "1")));
    assert!(entry_before(&file("a", "2"), &file("b", "1")));
    assert!(entry_before(&file("a", "1"), &file("a", "1")));
}

#[test]
fn canonical_order_is_by_name() {
    let files = vec![
        file("run.sh", "echo\n"),
        file("config.toml", "x"),
        file("data/b", "2"),
        file("Zebra", "z"),
        file("data/a", "1"),
    ];
    let sorted = canonical_order(&files);
    assert_eq!(names(&sorted), vec!["Zebra", "config.toml", "data/a", "data/b", "run.sh"]);
    assert_eq!(sorted[1].content, b"x".to_vec());
    assert_eq!(canonical_order(&Vec::new()), Vec::new());
    assert_eq!(canonical_order(&sorted), sorted);
}

#[test]
fn listing_order_does_not_change_the_archive() {
    let one = vec![file("run.sh", "echo\n"), file("config.toml", "x"), file("notes", "n")];
    let two = vec![file("notes", "n"), file("run.sh", "echo\n"), file("config.toml", "x")];
    let first = pack_canonical(&one).unwrap();
    let second = pack_canonical(&two).unwrap();
    assert_eq!(first, second);
    assert_eq!(archive_digest(&first), archive_digest(&second));
    assert_eq!(first, create_zip(&canonical_order(&one)).unwrap());
    assert_ne!(create_zip(&one).unwrap(), create_zip(&two).unwrap());
}

#[test]
fn server_digest_does_not_depend_on_the_listing() {
    let one = vec![file("run.sh", "echo\n"), file("config.toml", "x")];
    let two = vec![file("config.toml", "x"), file("run.sh", "echo\n")];
    let digest = archive_digest(&pack_canonical(&one).unwrap());
    assert_eq!(serve_download(&digest, &one), Ok(DownloadReply::NotModified));
    assert_eq!(serve_download(&digest, &two), Ok(DownloadReply::NotModified));
}

#[test]
fn upload_does_not_depend_on_the_listing() {
    let manifest = "uuid = \"1\"\nname = \"demo\"\ndescription = \"d\"\n";
    let one = vec![file("run.sh", "echo\n"), file("config.toml", manifest)];
    let two = vec![file("config.toml", manifest), file("run.sh", "echo\n")];
    assert_eq!(prepare_upload(&one, false), prepare_upload(&two, false));
}
