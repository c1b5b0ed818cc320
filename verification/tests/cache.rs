use deploycli::cache::{CleanTarget, ContentCache};
use deploycli::digest::archive_digest;
use deploycli::task::Task;

fn task(uuid: &str, name: &str) -> Task {
    Task { uuid: String::from(uuid), name: String::from(name), description: String::new() }
}

#[test]
fn empty_cache_has_the_empty_digest() {
    let cache = ContentCache::new(String::from("/tmp"));
    assert_eq!(cache.lookup_digest(&task("u", "n")), "");
    assert_eq!(cache.cached_archive(&task("u", "n")), None);
    assert!(!cache.is_unpacked(&task("u", "n")));
}

#[test]
fn store_returns_path_and_digest() {
    let mut cache = ContentCache::new(String::from("/tmp"));
    let (path, digest) = cache.store(&task("1234", "demo"), b"abc".to_vec());
    assert_eq!(path, "/tmp/demo-1234.zip");
    assert_eq!(digest, "900150983cd24fb0d6963f7d28e17f72");
    assert_eq!(cache.lookup_digest(&task("1234", "demo")), digest);
    assert_eq!(digest, archive_digest(&b"abc".to_vec()));
}

#[test]
fn paths_are_made_of_name_and_identifier() {
    let cache = ContentCache::new(String::from("/var/scratch"));
    assert_eq!(cache.archive_path_for(&task("1234", "demo")), "/var/scratch/demo-1234.zip");
    assert_eq!(cache.unpacked_dir_for(&task("1234", "demo")), "/var/scratch/demo-1234");
}

#[test]
fn same_name_other_identifier_is_another_entry() {
    let first = task("id-1", "demo");
    let second = task("id-2", "demo");
    let mut cache = ContentCache::new(String::from("/tmp"));
    assert_ne!(cache.archive_path_for(&first), cache.archive_path_for(&second));
    assert_ne!(cache.unpacked_dir_for(&first), cache.unpacked_dir_for(&second));
    cache.store(&first, vec![1]);
    cache.mark_unpacked(&first);
    cache.store(&second, vec![2]);
    assert_eq!(cache.cached_archive(&first), Some(&vec![1u8]));
    assert!(cache.is_unpacked(&first));
    assert_eq!(cache.cached_archive(&second), Some(&vec![2u8]));
    cache.store(&second, vec![3]);
    assert_eq!(cache.cached_archive(&first), Some(&vec![1u8]));
    assert!(cache.evict(&second));
    assert_eq!(cache.cached_archive(&first), Some(&vec![1u8]));
    assert_eq!(cache.cached_archive(&second), None);
}

#[test]
fn refresh_replaces_the_archive_and_asks_for_unpacking() {
    let t = task("u", "n");
    let mut cache = ContentCache::new(String::from("/tmp"));
    cache.store(&t, vec![1]);
    cache.mark_unpacked(&t);
    assert!(cache.is_unpacked(&t));
    cache.store(&t, vec![2]);
    assert_eq!(cache.cached_archive(&t), Some(&vec![2u8]));
    assert!(!cache.is_unpacked(&t));
}

#[test]
fn marking_an_absent_task_changes_nothing() {
    let mut cache = ContentCache::new(String::from("/tmp"));
    cache.mark_unpacked(&task("u", "n"));
    assert!(!cache.is_unpacked(&task("u", "n")));
    assert_eq!(cache.cached_archive(&task("u", "n")), None);
}

#[test]
fn evicting() {
    let mut cache = ContentCache::new(String::from("/tmp"));
    assert!(!cache.evict(&task("u", "n")));
    cache.store(&task("u", "n"), vec![1]);
    cache.store(&task("v", "m"), vec![2]);
    assert!(cache.evict(&task("u", "n")));
    assert!(!cache.evict(&task("u", "n")));
    assert_eq!(cache.cached_archive(&task("v", "m")), Some(&vec![2u8]));
    cache.evict_all();
    assert_eq!(cache.cached_archive(&task("v", "m")), None);
    assert_eq!(cache.lookup_digest(&task("v", "m")), "");
}

#[test]
fn cleaning_one_task_or_all() {
    let tasks = vec![task("1", "a"), task("2", "b"), task("3", "c")];
    let mut cache = ContentCache::new(String::from("/tmp"));
    for t in &tasks {
        cache.store(t, vec![0]);
    }
    let targets = cache.clean_cache(tasks.clone(), Some(1)).unwrap();
    assert_eq!(
        targets,
        vec![CleanTarget {
            name: String::from("b"),
            dir: String::from("/tmp/b-2"),
            archive: String::from("/tmp/b-2.zip"),
        }]
    );
    assert_eq!(cache.cached_archive(&tasks[1]), None);
    assert_eq!(cache.cached_archive(&tasks[0]), Some(&vec![0u8]));
    let targets = cache.clean_cache(tasks.clone(), None).unwrap();
    assert_eq!(targets.len(), 3);
    assert_eq!(targets[2].dir, "/tmp/c-3");
    assert_eq!(targets[2].archive, "/tmp/c-3.zip");
    assert_eq!(cache.cached_archive(&tasks[0]), None);
    assert_eq!(cache.cached_archive(&tasks[2]), None);
}

#[test]
fn cleaning_beyond_the_list_fails() {
    let tasks = vec![task("1", "a")];
    let mut cache = ContentCache::new(String::from("/tmp"));
    cache.store(&tasks[0], vec![0]);
    let e = cache.clean_cache(tasks.clone(), Some(1)).unwrap_err();
    assert_eq!(e.to_text(), "error:`Task index out of range`");
    assert_eq!(cache.cached_archive(&tasks[0]), Some(&vec![0u8]));
}

#[test]
fn hyphens_in_names_do_not_make_tasks_share_a_location() {
    let p = task("c", "a-b");
    let q = task("b-c", "a");
    let mut cache = ContentCache::new(String::from("/tmp"));
    assert_eq!(cache.unpacked_dir_for(&p), "/tmp/a_db-c");
    assert_eq!(cache.archive_path_for(&p), "/tmp/a_db-c.zip");
    assert_eq!(cache.unpacked_dir_for(&q), "/tmp/a-b_dc");
    assert_eq!(cache.archive_path_for(&q), "/tmp/a-b_dc.zip");
    cache.store(&p, vec![1]);
    cache.store(&q, vec![2]);
    let targets = cache.clean_cache(vec![p.clone(), q.clone()], Some(0)).unwrap();
    assert_eq!(
        targets,
        vec![CleanTarget {
            name: String::from("a-b"),
            dir: String::from("/tmp/a_db-c"),
            archive: String::from("/tmp/a_db-c.zip"),
        }]
    );
    assert_eq!(cache.cached_archive(&p), None);
    assert_eq!(cache.cached_archive(&q), Some(&vec![2u8]));
}

#[test]
fn archive_of_one_task_is_not_the_directory_of_another() {
    let cache = ContentCache::new(String::from("/tmp"));
    assert_ne!(
        cache.archive_path_for(&task("b", "a")),
        cache.unpacked_dir_for(&task("b.zip", "a"))
    );
    assert_eq!(cache.unpacked_dir_for(&task("b.zip", "a")), "/tmp/a-b_pzip");
}

#[test]
fn cache_locations_stay_below_the_root() {
    let cache = ContentCache::new(String::from("/tmp"));
    assert_eq!(cache.unpacked_dir_for(&task("x", "../..")), "/tmp/_p_p_s_p_p-x");
    assert_eq!(cache.unpacked_dir_for(&task("a/b", "n")), "/tmp/n-a_sb");
    assert_eq!(cache.unpacked_dir_for(&task("", "")), "/tmp/-");
}
