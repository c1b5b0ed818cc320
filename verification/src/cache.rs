//! The content cache: the archive last fetched for each task, kept under
//! the task's name and identifier together.

use crate::digest::archive_digest;
use crate::digest::cached_digest;
use crate::digest::digest_of_cached;
use crate::digest::md5_hex;
use crate::location::cache_key;
use crate::location::lemma_cache_key_free;
use crate::location::lemma_cache_key_injective;
use crate::location::make_cache_key;
use crate::result::AppError;
use crate::task::Task;
use crate::task::TaskView;
use crate::task::manifests_view;
use crate::task::out_of_range;
use crate::task::select_tasks;
use crate::task::selection;
use vstd::prelude::*;
use vstd::string::StringExecFns;

verus! {

/// What the cache holds for one task.
struct CacheEntry {
    name: String,
    uuid: String,
    /// The bytes of the archive last fetched.
    archive: Vec<u8>,
    /// Whether that archive has been unpacked into the task's directory.
    unpacked: bool,
}

/// What the cache holds for one task, as plain values.
pub struct Cached {
    pub archive: Seq<u8>,
    pub unpacked: bool,
}

/// The name and identifier under which an entry is kept.
spec fn entry_key(entry: CacheEntry) -> (Seq<char>, Seq<char>) {
    (entry.name@, entry.uuid@)
}

/// What an entry holds.
spec fn entry_value(entry: CacheEntry) -> Cached {
    Cached { archive: entry.archive@, unpacked: entry.unpacked }
}

/// Whether no two entries are kept under the same name and identifier.
spec fn keys_distinct(entries: Seq<CacheEntry>) -> bool {
    forall|i: int, j: int|
        0 <= i < j < entries.len() ==> entry_key(#[trigger] entries[i]) != entry_key(
            #[trigger] entries[j],
        )
}

/// Whether some entry is kept under `key`.
spec fn has_key(entries: Seq<CacheEntry>, key: (Seq<char>, Seq<char>)) -> bool {
    exists|i: int| 0 <= i < entries.len() && entry_key(#[trigger] entries[i]) == key
}

/// The place of an entry kept under `key`.
spec fn place_of(entries: Seq<CacheEntry>, key: (Seq<char>, Seq<char>)) -> int {
    choose|i: int| 0 <= i < entries.len() && entry_key(#[trigger] entries[i]) == key
}

/// The entries as a map from name and identifier to what is held.
spec fn entries_map(entries: Seq<CacheEntry>) -> Map<(Seq<char>, Seq<char>), Cached> {
    Map::new(
        |key: (Seq<char>, Seq<char>)| has_key(entries, key),
        |key: (Seq<char>, Seq<char>)| entry_value(entries[place_of(entries, key)]),
    )
}

/// The path of the cached archive of a task below `root`: its cache key,
/// which tells every pair of name and identifier apart, and `.zip`.
pub open spec fn archive_path_of(root: Seq<char>, name: Seq<char>, uuid: Seq<char>) -> Seq<char> {
    root + seq!['/'] + cache_key(name, uuid) + seq!['.', 'z', 'i', 'p']
}

/// The path of the unpacked directory of a task below `root`: its cache
/// key.
pub open spec fn unpacked_dir_of(root: Seq<char>, name: Seq<char>, uuid: Seq<char>) -> Seq<char> {
    root + seq!['/'] + cache_key(name, uuid)
}

/// Two different tasks never share a cache location: their archives are
/// different files, their directories are different directories, and the
/// archive of the one is not the directory of the other. What is stored or
/// forgotten for the one leaves what is cached for the other as it was.
pub proof fn lemma_cache_isolation(
    root: Seq<char>,
    name: Seq<char>,
    uuid: Seq<char>,
    other_name: Seq<char>,
    other_uuid: Seq<char>,
    cached: Map<(Seq<char>, Seq<char>), Cached>,
    fetched: Cached,
)
    requires
        (name, uuid) != (other_name, other_uuid),
    ensures
        archive_path_of(root, name, uuid) != archive_path_of(root, other_name, other_uuid),
        unpacked_dir_of(root, name, uuid) != unpacked_dir_of(root, other_name, other_uuid),
        archive_path_of(root, name, uuid) != unpacked_dir_of(root, other_name, other_uuid),
        unpacked_dir_of(root, name, uuid) != archive_path_of(root, other_name, other_uuid),
        cached.insert((name, uuid), fetched).contains_key((other_name, other_uuid))
            == cached.contains_key((other_name, other_uuid)),
        cached.insert((name, uuid), fetched)[(other_name, other_uuid)] == cached[(
            other_name,
            other_uuid,
        )],
        cached.remove((name, uuid)).contains_key((other_name, other_uuid)) == cached.contains_key(
            (other_name, other_uuid),
        ),
        cached.remove((name, uuid))[(other_name, other_uuid)] == cached[(other_name, other_uuid)],
{
    let a = cache_key(name, uuid);
    let b = cache_key(other_name, other_uuid);
    if a == b {
        lemma_cache_key_injective(name, uuid, other_name, other_uuid);
    }
    lemma_location_tells_keys_apart(root, a, b);
    lemma_cache_key_free(name, uuid, '.');
    lemma_cache_key_free(other_name, other_uuid, '.');
    lemma_archive_is_no_directory(root, a, b);
    lemma_archive_is_no_directory(root, b, a);
}

/// Below one root, different keys give different paths, with or without a
/// common ending.
proof fn lemma_location_tells_keys_apart(root: Seq<char>, a: Seq<char>, b: Seq<char>)
    requires
        a != b,
    ensures
        root + seq!['/'] + a != root + seq!['/'] + b,
        root + seq!['/'] + a + seq!['.', 'z', 'i', 'p'] != root + seq!['/'] + b + seq![
            '.',
            'z',
            'i',
            'p',
        ],
{
    let head = root + seq!['/'];
    let tail = seq!['.', 'z', 'i', 'p'];
    if head + a == head + b {
        assert(a.len() == b.len()) by {
            assert((head + a).len() == (head + b).len());
        }
        assert forall|i: int| 0 <= i < a.len() implies a[i] == b[i] by {
            assert((head + a)[head.len() + i] == a[i]);
            assert((head + b)[head.len() + i] == b[i]);
        }
        assert(a =~= b);
    }
    if head + a + tail == head + b + tail {
        assert(a.len() == b.len()) by {
            assert((head + a + tail).len() == (head + b + tail).len());
        }
        assert forall|i: int| 0 <= i < a.len() implies a[i] == b[i] by {
            assert((head + a + tail)[head.len() + i] == a[i]);
            assert((head + b + tail)[head.len() + i] == b[i]);
        }
        assert(a =~= b);
    }
}

/// A key without a dot, followed by `.zip`, is no key without a dot.
proof fn lemma_archive_is_no_directory(root: Seq<char>, a: Seq<char>, b: Seq<char>)
    requires
        !b.contains('.'),
    ensures
        root + seq!['/'] + a + seq!['.', 'z', 'i', 'p'] != root + seq!['/'] + b,
{
    let head = root + seq!['/'];
    let tail = seq!['.', 'z', 'i', 'p'];
    if head + a + tail == head + b {
        assert(b.len() == a.len() + 4) by {
            assert((head + a + tail).len() == (head + b).len());
        }
        assert((head + a + tail)[(head.len() + a.len()) as int] == '.');
        assert((head + b)[(head.len() + a.len()) as int] == b[a.len() as int]);
        assert(b.contains(b[a.len() as int]));
    }
}

/// A local store of fetched archives below one scratch directory.
pub struct ContentCache {
    root: String,
    entries: Vec<CacheEntry>,
}

impl View for ContentCache {
    type V = Map<(Seq<char>, Seq<char>), Cached>;

    closed spec fn view(&self) -> Map<(Seq<char>, Seq<char>), Cached> {
        entries_map(self.entries@)
    }
}

impl ContentCache {
    /// The scratch directory of this cache.
    pub closed spec fn root(&self) -> Seq<char> {
        self.root@
    }

    /// The invariant of a cache: each task has at most one entry.
    pub closed spec fn well_formed(&self) -> bool {
        keys_distinct(self.entries@)
    }

    /// An empty cache below `root`.
    pub fn new(root: String) -> (cache: ContentCache)
        ensures
            cache.well_formed(),
            cache.root() == root@,
            cache@ == Map::<(Seq<char>, Seq<char>), Cached>::empty(),
    {
        let cache = ContentCache { root, entries: Vec::new() };
        assert(cache@ =~= Map::<(Seq<char>, Seq<char>), Cached>::empty());
        cache
    }

    /// The place of the entry of the task `name`, `uuid`, if it has one.
    fn position(&self, name: &String, uuid: &String) -> (found: Option<usize>)
        requires
            self.well_formed(),
        ensures
            match found {
                Some(i) => i < self.entries@.len() && entry_key(self.entries@[i as int]) == (
                    name@,
                    uuid@,
                ) && self@.contains_key((name@, uuid@)) && self@[(name@, uuid@)] == entry_value(
                    self.entries@[i as int],
                ),
                None => !self@.contains_key((name@, uuid@)) && !has_key(
                    self.entries@,
                    (name@, uuid@),
                ),
            },
    {
        let mut i: usize = 0;
        while i < self.entries.len()
            invariant
                self.well_formed(),
                i <= self.entries.len(),
                forall|j: int|
                    0 <= j < i ==> entry_key(#[trigger] self.entries@[j]) != (name@, uuid@),
            decreases self.entries.len() - i,
        {
            if self.entries[i].name == *name && self.entries[i].uuid == *uuid {
                proof {
                    let key = (name@, uuid@);
                    assert(entry_key(self.entries@[i as int]) == key);
                    let place = place_of(self.entries@, key);
                    assert(entry_key(self.entries@[place]) == key);
                    assert(place == i);
                }
                return Some(i);
            }
            i = i + 1;
        }
        None
    }

    /// The digest of the archive cached for `task`, or the empty digest
    /// where nothing is cached for it.
    pub fn lookup_digest(&self, task: &Task) -> (digest: String)
        requires
            self.well_formed(),
        ensures
            digest@ == digest_of_cached(
                if self@.contains_key((task.name@, task.uuid@)) {
                    Some(self@[(task.name@, task.uuid@)].archive)
                } else {
                    None
                },
            ),
            digest@.len() > 0 <==> self@.contains_key((task.name@, task.uuid@)),
    {
        match self.position(&task.name, &task.uuid) {
            Some(i) => cached_digest(Some(&self.entries[i].archive)),
            None => cached_digest(None),
        }
    }

    /// The archive cached for `task`, if there is one.
    pub fn cached_archive(&self, task: &Task) -> (archive: Option<&Vec<u8>>)
        requires
            self.well_formed(),
        ensures
            match archive {
                Some(bytes) => self@.contains_key((task.name@, task.uuid@)) && bytes@ == self@[(
                    task.name@,
                    task.uuid@,
                )].archive,
                None => !self@.contains_key((task.name@, task.uuid@)),
            },
    {
        match self.position(&task.name, &task.uuid) {
            Some(i) => Some(&self.entries[i].archive),
            None => None,
        }
    }

    /// Whether the archive cached for `task` has been unpacked.
    pub fn is_unpacked(&self, task: &Task) -> (unpacked: bool)
        requires
            self.well_formed(),
        ensures
            unpacked == (self@.contains_key((task.name@, task.uuid@)) && self@[(
                task.name@,
                task.uuid@,
            )].unpacked),
    {
        match self.position(&task.name, &task.uuid) {
            Some(i) => self.entries[i].unpacked,
            None => false,
        }
    }

    /// Puts `entry` in the place of the task's entry, or adds it.
    fn put(&mut self, entry: CacheEntry)
        requires
            old(self).well_formed(),
        ensures
            final(self).well_formed(),
            final(self).root() == old(self).root(),
            final(self)@ == old(self)@.insert(entry_key(entry), entry_value(entry)),
    {
        let ghost key = entry_key(entry);
        let ghost before = self.entries@;
        match self.position(&entry.name, &entry.uuid) {
            Some(i) => {
                self.entries.set(i, entry);
                let ghost after = self.entries@;
                assert(keys_distinct(after)) by {
                    assert forall|a: int, b: int| 0 <= a < b < after.len() implies entry_key(
                        #[trigger] after[a],
                    ) != entry_key(#[trigger] after[b]) by {
                        assert(entry_key(after[a]) == entry_key(before[a]));
                        assert(entry_key(after[b]) == entry_key(before[b]));
                    }
                }
                assert(entries_map(after) =~= entries_map(before).insert(key, entry_value(entry)))
                    by {
                    assert forall|k: (Seq<char>, Seq<char>)| has_key(after, k) == has_key(
                        before,
                        k,
                    ) by {
                        if has_key(after, k) {
                            let a = place_of(after, k);
                            assert(entry_key(before[a]) == k);
                        }
                        if has_key(before, k) {
                            let b = place_of(before, k);
                            assert(entry_key(after[b]) == k);
                        }
                    }
                    assert forall|k: (Seq<char>, Seq<char>)| has_key(after, k) implies entry_value(
                        after[place_of(after, k)],
                    ) == (if k == key {
                        entry_value(entry)
                    } else {
                        entry_value(before[place_of(before, k)])
                    }) by {
                        let a = place_of(after, k);
                        let b = place_of(before, k);
                        assert(entry_key(before[a]) == k);
                        assert(entry_key(before[b]) == k);
                        assert(a == b);
                    }
                }
            },
            None => {
                self.entries.push(entry);
                let ghost after = self.entries@;
                assert(keys_distinct(after)) by {
                    assert forall|a: int, b: int| 0 <= a < b < after.len() implies entry_key(
                        #[trigger] after[a],
                    ) != entry_key(#[trigger] after[b]) by {
                        assert(after[a] == before[a]);
                        if b < before.len() {
                            assert(after[b] == before[b]);
                        }
                    }
                }
                assert(entries_map(after) =~= entries_map(before).insert(key, entry_value(entry)))
                    by {
                    assert(entry_key(after[before.len() as int]) == key);
                    assert forall|k: (Seq<char>, Seq<char>)| has_key(after, k) == (k == key
                        || has_key(before, k)) by {
                        if has_key(after, k) {
                            let a = place_of(after, k);
                            if a < before.len() {
                                assert(entry_key(before[a]) == k);
                            }
                        }
                        if has_key(before, k) {
                            let b = place_of(before, k);
                            assert(entry_key(after[b]) == k);
                        }
                    }
                    assert forall|k: (Seq<char>, Seq<char>)| has_key(after, k) implies entry_value(
                        after[place_of(after, k)],
                    ) == (if k == key {
                        entry_value(entry)
                    } else {
                        entry_value(before[place_of(before, k)])
                    }) by {
                        let a = place_of(after, k);
                        if k == key {
                            if a < before.len() {
                                assert(entry_key(before[a]) == k);
                            }
                        } else {
                            assert(entry_key(before[a]) == k);
                            let b = place_of(before, k);
                            assert(entry_key(after[b]) == k);
                            assert(a == b);
                        }
                    }
                }
            },
        }
    }

    /// The path of the cached archive of `task`.
    pub fn archive_path_for(&self, task: &Task) -> (path: String)
        ensures
            path@ == archive_path_of(self.root(), task.name@, task.uuid@),
    {
        proof {
            reveal_strlit("/");
            reveal_strlit(".zip");
        }
        let key = make_cache_key(task.name.as_str(), task.uuid.as_str());
        let path = self.root.clone().concat("/").concat(key.as_str()).concat(".zip");
        assert(path@ =~= archive_path_of(self.root(), task.name@, task.uuid@)) by {
            assert("/"@ =~= seq!['/']);
            assert(".zip"@ =~= seq!['.', 'z', 'i', 'p']);
        }
        path
    }

    /// The path of the directory that `task` is unpacked into.
    pub fn unpacked_dir_for(&self, task: &Task) -> (path: String)
        ensures
            path@ == unpacked_dir_of(self.root(), task.name@, task.uuid@),
    {
        proof {
            reveal_strlit("/");
        }
        let key = make_cache_key(task.name.as_str(), task.uuid.as_str());
        let path = self.root.clone().concat("/").concat(key.as_str());
        assert(path@ =~= unpacked_dir_of(self.root(), task.name@, task.uuid@)) by {
            assert("/"@ =~= seq!['/']);
        }
        path
    }

    /// Makes `archive` the cached archive of `task`, not yet unpacked, and
    /// returns its path and its digest. The entries of all other tasks stay
    /// as they are.
    pub fn store(&mut self, task: &Task, archive: Vec<u8>) -> (stored: (String, String))
        requires
            old(self).well_formed(),
        ensures
            final(self).well_formed(),
            final(self).root() == old(self).root(),
            final(self)@ == old(self)@.insert(
                (task.name@, task.uuid@),
                Cached { archive: archive@, unpacked: false },
            ),
            stored.0@ == archive_path_of(old(self).root(), task.name@, task.uuid@),
            stored.1@ == md5_hex(archive@),
    {
        let digest = archive_digest(&archive);
        let path = self.archive_path_for(task);
        self.put(
            CacheEntry {
                name: task.name.clone(),
                uuid: task.uuid.clone(),
                archive,
                unpacked: false,
            },
        );
        (path, digest)
    }

    /// Records that the archive cached for `task` has been unpacked. Where
    /// nothing is cached for it, nothing changes.
    pub fn mark_unpacked(&mut self, task: &Task)
        requires
            old(self).well_formed(),
        ensures
            final(self).well_formed(),
            final(self).root() == old(self).root(),
            final(self)@ == if old(self)@.contains_key((task.name@, task.uuid@)) {
                old(self)@.insert(
                    (task.name@, task.uuid@),
                    Cached {
                        archive: old(self)@[(task.name@, task.uuid@)].archive,
                        unpacked: true,
                    },
                )
            } else {
                old(self)@
            },
    {
        match self.position(&task.name, &task.uuid) {
            Some(i) => {
                let archive = self.entries[i].archive.clone();
                self.put(
                    CacheEntry {
                        name: task.name.clone(),
                        uuid: task.uuid.clone(),
                        archive,
                        unpacked: true,
                    },
                );
            },
            None => {},
        }
    }

    /// Forgets what is cached for `task` and says whether there was
    /// anything. The entries of all other tasks stay as they are.
    pub fn evict(&mut self, task: &Task) -> (evicted: bool)
        requires
            old(self).well_formed(),
        ensures
            final(self).well_formed(),
            final(self).root() == old(self).root(),
            evicted == old(self)@.contains_key((task.name@, task.uuid@)),
            final(self)@ == old(self)@.remove((task.name@, task.uuid@)),
    {
        let ghost key = (task.name@, task.uuid@);
        let ghost before = self.entries@;
        match self.position(&task.name, &task.uuid) {
            Some(i) => {
                self.entries.remove(i);
                let ghost after = self.entries@;
                assert(forall|a: int| 0 <= a < i ==> after[a] == before[a]);
                assert(forall|a: int| i <= a < after.len() ==> after[a] == before[a + 1]);
                assert(keys_distinct(after)) by {
                    assert forall|a: int, b: int| 0 <= a < b < after.len() implies entry_key(
                        #[trigger] after[a],
                    ) != entry_key(#[trigger] after[b]) by {
                        let a0 = if a < i { a } else { a + 1 };
                        let b0 = if b < i { b } else { b + 1 };
                        assert(after[a] == before[a0]);
                        assert(after[b] == before[b0]);
                    }
                }
                assert(entries_map(after) =~= entries_map(before).remove(key)) by {
                    assert forall|k: (Seq<char>, Seq<char>)| has_key(after, k) == (k != key
                        && has_key(before, k)) by {
                        if has_key(after, k) {
                            let a = place_of(after, k);
                            let a0 = if a < i { a } else { a + 1 };
                            assert(after[a] == before[a0]);
                            assert(entry_key(before[a0]) == k);
                            assert(entry_key(before[i as int]) == key);
                        }
                        if k != key && has_key(before, k) {
                            let b = place_of(before, k);
                            let b1 = if b < i { b } else { b - 1 };
                            assert(after[b1] == before[b]);
                            assert(entry_key(after[b1]) == k);
                        }
                    }
                    assert forall|k: (Seq<char>, Seq<char>)| has_key(after, k) implies entry_value(
                        after[place_of(after, k)],
                    ) == entry_value(before[place_of(before, k)]) by {
                        let a = place_of(after, k);
                        let a0 = if a < i { a } else { a + 1 };
                        assert(after[a] == before[a0]);
                        assert(entry_key(before[a0]) == k);
                        let b = place_of(before, k);
                        assert(entry_key(before[b]) == k);
                        assert(a0 == b);
                    }
                }
                true
            },
            None => {
                assert(entries_map(before) =~= entries_map(before).remove(key));
                false
            },
        }
    }

    /// Forgets everything that is cached.
    pub fn evict_all(&mut self)
        ensures
            final(self).well_formed(),
            final(self).root() == old(self).root(),
            final(self)@ == Map::<(Seq<char>, Seq<char>), Cached>::empty(),
    {
        self.entries = Vec::new();
        assert(self@ =~= Map::<(Seq<char>, Seq<char>), Cached>::empty());
    }
}

/// What is to be removed from disk for one task whose cache is cleaned.
#[derive(Clone, Debug, PartialEq, Eq)]
pub struct CleanTarget {
    /// The name of the task, for the report.
    pub name: String,
    /// The directory that the task was unpacked into.
    pub dir: String,
    /// The file of the cached archive.
    pub archive: String,
}

/// The cache after everything cached for each of `tasks` has been
/// forgotten.
pub open spec fn forgotten(
    cached: Map<(Seq<char>, Seq<char>), Cached>,
    tasks: Seq<TaskView>,
) -> Map<(Seq<char>, Seq<char>), Cached>
    decreases tasks.len(),
{
    if tasks.len() == 0 {
        cached
    } else {
        forgotten(cached, tasks.drop_last()).remove((tasks.last().name, tasks.last().uuid))
    }
}

/// Whether `targets` name, for each of `tasks` in order, its directory and
/// its archive below `root`.
pub open spec fn targets_match(targets: Seq<CleanTarget>, root: Seq<char>, tasks: Seq<TaskView>)
    -> bool {
    &&& targets.len() == tasks.len()
    &&& forall|i: int|
        0 <= i < targets.len() ==> {
            &&& (#[trigger] targets[i]).name@ == tasks[i].name
            &&& targets[i].dir@ == unpacked_dir_of(root, tasks[i].name, tasks[i].uuid)
            &&& targets[i].archive@ == archive_path_of(root, tasks[i].name, tasks[i].uuid)
        }
}

impl ContentCache {
    /// Forgets what is cached for each of `tasks` and names, for each, the
    /// directory and the archive to remove from disk.
    pub fn clean(&mut self, tasks: &Vec<Task>) -> (targets: Vec<CleanTarget>)
        requires
            old(self).well_formed(),
        ensures
            final(self).well_formed(),
            final(self).root() == old(self).root(),
            final(self)@ == forgotten(old(self)@, manifests_view(tasks@)),
            targets_match(targets@, old(self).root(), manifests_view(tasks@)),
    {
        let ghost before = self@;
        let ghost root = self.root();
        let ghost listed = manifests_view(tasks@);
        let mut targets: Vec<CleanTarget> = Vec::new();
        let mut i: usize = 0;
        assert(listed.take(0) =~= Seq::<TaskView>::empty());
        while i < tasks.len()
            invariant
                i <= tasks.len(),
                listed == manifests_view(tasks@),
                self.well_formed(),
                self.root() == root,
                self@ == forgotten(before, listed.take(i as int)),
                targets_match(targets@, root, listed.take(i as int)),
            decreases tasks.len() - i,
        {
            let ghost done = targets@;
            assert(listed.take(i + 1).drop_last() =~= listed.take(i as int));
            assert(listed.take(i + 1).last() == tasks@[i as int]@);
            let task = &tasks[i];
            let target = CleanTarget {
                name: task.name.clone(),
                dir: self.unpacked_dir_for(task),
                archive: self.archive_path_for(task),
            };
            self.evict(task);
            targets.push(target);
            assert forall|j: int| 0 <= j < targets@.len() implies {
                &&& (#[trigger] targets@[j]).name@ == listed.take(i + 1)[j].name
                &&& targets@[j].dir@ == unpacked_dir_of(
                    root,
                    listed.take(i + 1)[j].name,
                    listed.take(i + 1)[j].uuid,
                )
                &&& targets@[j].archive@ == archive_path_of(
                    root,
                    listed.take(i + 1)[j].name,
                    listed.take(i + 1)[j].uuid,
                )
            } by {
                if j < done.len() {
                    assert(targets@[j] == done[j]);
                    assert(listed.take(i + 1)[j] == listed.take(i as int)[j]);
                }
            }
            i = i + 1;
        }
        assert(listed.take(i as int) =~= listed);
        targets
    }

    /// Cleans the cache of the task at `index` of `tasks`, or of all of
    /// them where no index is given. An index beyond the list fails with
    /// "Task index out of range", and nothing is forgotten.
    pub fn clean_cache(&mut self, tasks: Vec<Task>, index: Option<usize>) -> (r: Result<
        Vec<CleanTarget>,
        AppError,
    >)
        requires
            old(self).well_formed(),
        ensures
            final(self).well_formed(),
            final(self).root() == old(self).root(),
            match r {
                Ok(targets) => selection(manifests_view(tasks@), index) matches Some(chosen)
                    && final(self)@ == forgotten(old(self)@, chosen) && targets_match(
                    targets@,
                    old(self).root(),
                    chosen,
                ),
                Err(e) => selection(manifests_view(tasks@), index) is None && final(self)@ == old(
                    self,
                )@ && e@ == out_of_range(),
            },
    {
        match select_tasks(tasks, index) {
            Ok(chosen) => Ok(self.clean(&chosen)),
            Err(e) => Err(e),
        }
    }
}

} // verus!
