//! Task bundles: a manifest file and an entry script, checked before they
//! are packed for upload and after an upload has been received.

use crate::archive::ArchiveError;
use crate::archive::ArchiveFault;
use crate::archive::ExtractStep;
use crate::archive::ExtractStepView;
use crate::archive::FileEntry;
use crate::archive::create_zip;
use crate::archive::decoded_entries;
use crate::archive::entries_view;
use crate::archive::lemma_unpack_reproduces;
use crate::archive::names_fit;
use crate::archive::packs;
use crate::archive::plan_extraction;
use crate::archive::read_archive;
use crate::archive::steps_for;
use crate::archive::steps_view;
use crate::archive::written_as_given;
use crate::archive::zip_encoding;
use crate::order::canonical;
use crate::order::canonical_order;
use crate::order::lemma_canonical_packs;
use crate::order::lemma_canonical_same_files;
use crate::path::check_normal;
use crate::path::is_normal;
use crate::path::is_plain_path;
use crate::task::ManifestError;
use crate::task::ManifestFault;
use crate::task::Task;
use crate::task::TaskView;
use crate::task::fresh_uuid;
use crate::task::key_of;
use crate::task::manifest_of_bytes;
use crate::task::new_manifest_text;
use crate::task::render_manifest;
use vstd::prelude::*;
use vstd::string::StrSliceExecFns;
use vstd::string::StringExecFns;

verus! {

/// The name of the manifest file of a bundle.
pub open spec fn manifest_name() -> Seq<char> {
    "config.toml"@
}

/// The name of the entry script of a bundle, on Windows or elsewhere.
pub open spec fn script_name(windows: bool) -> Seq<char> {
    if windows {
        "run.bat"@
    } else {
        "run.sh"@
    }
}

/// The name of the manifest file of a bundle.
pub fn manifest_file_name() -> (name: String)
    ensures
        name@ == manifest_name(),
{
    String::from_str("config.toml")
}

/// The name of the entry script of a bundle.
pub fn entry_script_name(windows: bool) -> (name: String)
    ensures
        name@ == script_name(windows),
{
    if windows {
        String::from_str("run.bat")
    } else {
        String::from_str("run.sh")
    }
}

/// Whether some file of `files` is named `name`.
pub open spec fn holds_file(files: Seq<(Seq<char>, Seq<u8>)>, name: Seq<char>) -> bool {
    exists|i: int| 0 <= i < files.len() && (#[trigger] files[i]).0 == name
}

/// Whether the file at `place` is the first one named `name`.
pub open spec fn is_first_named(files: Seq<(Seq<char>, Seq<u8>)>, name: Seq<char>, place: int)
    -> bool {
    &&& 0 <= place < files.len()
    &&& files[place].0 == name
    &&& forall|j: int| 0 <= j < place ==> (#[trigger] files[j]).0 != name
}

/// The place of the first file named `name`.
pub open spec fn place_of_file(files: Seq<(Seq<char>, Seq<u8>)>, name: Seq<char>) -> int {
    choose|i: int| is_first_named(files, name, i)
}

/// Finds the first file named `name`.
pub fn find_file(files: &Vec<FileEntry>, name: &String) -> (found: Option<usize>)
    ensures
        match found {
            Some(i) => holds_file(entries_view(files@), name@) && i == place_of_file(
                entries_view(files@),
                name@,
            ) && i < files@.len(),
            None => !holds_file(entries_view(files@), name@),
        },
{
    let ghost view = entries_view(files@);
    let mut i: usize = 0;
    while i < files.len()
        invariant
            i <= files.len(),
            view == entries_view(files@),
            forall|j: int| 0 <= j < i ==> (#[trigger] view[j]).0 != name@,
        decreases files.len() - i,
    {
        if files[i].name == *name {
            proof {
                assert(view[i as int].0 == name@);
                assert(is_first_named(view, name@, i as int));
                let place = place_of_file(view, name@);
                assert(is_first_named(view, name@, place));
                assert(place == i);
            }
            return Some(i);
        }
        i = i + 1;
    }
    None
}

/// Why a set of files is no bundle, or an upload was refused.
#[derive(Debug, Clone, PartialEq, Eq)]
pub enum BundleError {
    /// There is no manifest file.
    MissingManifest,
    /// The manifest file cannot be read as a manifest.
    Manifest(ManifestError),
    /// There is no entry script.
    MissingEntryScript,
    /// The name under which a bundle is to be kept is no ordinary file name.
    BadName,
    /// Packing or unpacking failed.
    Archive(ArchiveError),
}

/// Why a set of files is no bundle, without the texts carried along.
pub enum BundleFault {
    MissingManifest,
    Manifest(ManifestFault),
    MissingEntryScript,
    BadName,
    Archive(ArchiveFault),
}

impl View for BundleError {
    type V = BundleFault;

    open spec fn view(&self) -> BundleFault {
        match self {
            BundleError::MissingManifest => BundleFault::MissingManifest,
            BundleError::Manifest(e) => BundleFault::Manifest(e@),
            BundleError::MissingEntryScript => BundleFault::MissingEntryScript,
            BundleError::BadName => BundleFault::BadName,
            BundleError::Archive(e) => BundleFault::Archive(e@),
        }
    }
}

/// The manifest of a set of files: that of the first file named
/// `config.toml`.
pub open spec fn manifest_in(files: Seq<(Seq<char>, Seq<u8>)>) -> Result<TaskView, BundleFault> {
    if !holds_file(files, manifest_name()) {
        Err(BundleFault::MissingManifest)
    } else {
        match manifest_of_bytes(files[place_of_file(files, manifest_name())].1) {
            Ok(task) => Ok(task),
            Err(fault) => Err(BundleFault::Manifest(fault)),
        }
    }
}

/// The manifest of a set of files that is a bundle: it holds a manifest
/// that can be read and an entry script.
pub open spec fn checked_bundle(files: Seq<(Seq<char>, Seq<u8>)>, windows: bool) -> Result<
    TaskView,
    BundleFault,
> {
    match manifest_in(files) {
        Err(fault) => Err(fault),
        Ok(task) => if holds_file(files, script_name(windows)) {
            Ok(task)
        } else {
            Err(BundleFault::MissingEntryScript)
        },
    }
}

/// A result of checking a bundle, over sequences.
pub open spec fn check_view(r: Result<Task, BundleError>) -> Result<TaskView, BundleFault> {
    match r {
        Ok(task) => Ok(task@),
        Err(e) => Err(e@),
    }
}

/// Reads the manifest of a set of files.
pub fn read_manifest(files: &Vec<FileEntry>) -> (r: Result<Task, BundleError>)
    ensures
        check_view(r) == manifest_in(entries_view(files@)),
{
    let name = manifest_file_name();
    match find_file(files, &name) {
        None => Err(BundleError::MissingManifest),
        Some(i) => {
            assert(entries_view(files@)[i as int].1 == files@[i as int].content@);
            match Task::from_manifest_bytes(&files[i].content) {
                Ok(task) => Ok(task),
                Err(e) => Err(BundleError::Manifest(e)),
            }
        },
    }
}

/// Checks that a set of files is a bundle and returns its manifest. The
/// manifest is checked first, the entry script second.
pub fn validate_bundle(files: &Vec<FileEntry>, windows: bool) -> (r: Result<Task, BundleError>)
    ensures
        check_view(r) == checked_bundle(entries_view(files@), windows),
{
    let task = read_manifest(files)?;
    let script = entry_script_name(windows);
    match find_file(files, &script) {
        Some(_) => Ok(task),
        None => Err(BundleError::MissingEntryScript),
    }
}

/// A bundle ready to be sent to the registry.
#[derive(Debug, PartialEq, Eq)]
pub struct Upload {
    /// The name of the file part: the key of the task.
    pub filename: String,
    /// The packed bundle.
    pub archive: Vec<u8>,
    /// The manifest of the bundle.
    pub task: Task,
}

/// Checks the files of a directory and packs them for upload.
///
/// The files are put in canonical order first, so that what is checked and
/// packed does not depend on the order in which the directory was listed.
/// Files that are no bundle are refused before anything is packed. A
/// bundle whose names fit and differ and that weighs no more than one GiB
/// is packed.
pub fn prepare_upload(files: &Vec<FileEntry>, windows: bool) -> (r: Result<Upload, BundleError>)
    ensures
        match r {
            Ok(upload) => {
                &&& checked_bundle(canonical(entries_view(files@)), windows) == Ok::<
                    TaskView,
                    BundleFault,
                >(upload.task@)
                &&& names_fit(entries_view(files@))
                &&& upload.archive@ == zip_encoding(canonical(entries_view(files@)))
                &&& upload.filename@ == key_of(upload.task.name@, upload.task.uuid@)
            },
            Err(e) => match e@ {
                BundleFault::Archive(ArchiveFault::NameTooLong) => checked_bundle(
                    canonical(entries_view(files@)),
                    windows,
                ) is Ok && !names_fit(entries_view(files@)),
                BundleFault::Archive(ArchiveFault::Codec) => checked_bundle(
                    canonical(entries_view(files@)),
                    windows,
                ) is Ok && names_fit(entries_view(files@)),
                BundleFault::Archive(_) => false,
                fault => checked_bundle(canonical(entries_view(files@)), windows) == Err::<
                    TaskView,
                    BundleFault,
                >(fault),
            },
        },
        checked_bundle(canonical(entries_view(files@)), windows) is Ok && packs(
            entries_view(files@),
        ) ==> r is Ok,
{
    proof {
        lemma_canonical_same_files(entries_view(files@));
        if packs(entries_view(files@)) {
            lemma_canonical_packs(entries_view(files@));
        }
    }
    let sorted = canonical_order(files);
    let task = validate_bundle(&sorted, windows)?;
    match create_zip(&sorted) {
        Err(e) => Err(BundleError::Archive(e)),
        Ok(archive) => {
            let filename = task.bundle_key();
            Ok(Upload { filename, archive, task })
        },
    }
}

/// An upload that the registry accepts.
#[derive(Debug, PartialEq, Eq)]
pub struct AcceptedUpload {
    /// The directory, directly below the registry's root, that the bundle
    /// is kept in.
    pub dir_name: String,
    /// The actions that recreate the bundle in that directory.
    pub steps: Vec<ExtractStep>,
    /// The manifest of the bundle, to be recorded.
    pub task: Task,
}

/// What a registry on the platform makes of an upload named `filename`
/// with the bytes `archive`.
pub open spec fn accepted(filename: Seq<char>, archive: Seq<u8>, windows: bool) -> Result<
    (Seq<ExtractStepView>, TaskView),
    BundleFault,
> {
    if !is_normal(filename, windows) {
        Err(BundleFault::BadName)
    } else {
        match decoded_entries(archive) {
            None => Err(BundleFault::Archive(ArchiveFault::Corrupt)),
            Some(entries) => match steps_for(entries, windows) {
                None => Err(BundleFault::Archive(ArchiveFault::Traversal)),
                Some(steps) => match manifest_in(entries) {
                    Err(fault) => Err(fault),
                    Ok(task) => Ok((steps, task)),
                },
            },
        }
    }
}

/// A result of accepting an upload, over sequences.
pub open spec fn accepted_view(r: Result<AcceptedUpload, BundleError>) -> Result<
    (Seq<ExtractStepView>, TaskView),
    BundleFault,
> {
    match r {
        Ok(upload) => Ok((steps_view(upload.steps@), upload.task@)),
        Err(e) => Err(e@),
    }
}

/// Checks an upload for a registry on the platform: its name must be an
/// ordinary file name there, its archive must unpack without leaving its
/// directory, and it must hold a manifest.
pub fn accept_upload(filename: &str, archive: &Vec<u8>, windows: bool) -> (r: Result<
    AcceptedUpload,
    BundleError,
>)
    ensures
        accepted_view(r) == accepted(filename@, archive@, windows),
        r matches Ok(upload) ==> upload.dir_name@ == filename@,
{
    if !check_normal(filename, windows) {
        return Err(BundleError::BadName);
    }
    let entries = match read_archive(archive) {
        Ok(entries) => entries,
        Err(e) => {
            return Err(BundleError::Archive(e));
        },
    };
    let steps = match plan_extraction(&entries, windows) {
        Ok(steps) => steps,
        Err(e) => {
            return Err(BundleError::Archive(e));
        },
    };
    let task = read_manifest(&entries)?;
    Ok(AcceptedUpload { dir_name: String::from_str(filename), steps, task })
}

/// What a client prepares, the registry accepts: where the files that were
/// packed pass the client's checks, have plain relative paths and a key
/// that is an ordinary file name, the registry accepts their archive under
/// that key, records the same manifest and writes every file as it was
/// given.
///
/// That reading the archive of some files yields those files again is the
/// archive format's own promise and is not proved here.
pub proof fn lemma_prepared_upload_is_accepted(
    packed: Seq<(Seq<char>, Seq<u8>)>,
    windows: bool,
    task: TaskView,
)
    requires
        checked_bundle(packed, windows) == Ok::<TaskView, BundleFault>(task),
        forall|i: int|
            0 <= i < packed.len() ==> is_plain_path((#[trigger] packed[i]).0, windows),
        is_normal(key_of(task.name, task.uuid), windows),
        decoded_entries(zip_encoding(packed)) == Some(packed),
    ensures
        accepted(key_of(task.name, task.uuid), zip_encoding(packed), windows) == Ok::<
            (Seq<ExtractStepView>, TaskView),
            BundleFault,
        >((Seq::new(packed.len(), |i: int| written_as_given(packed[i])), task)),
{
    lemma_unpack_reproduces(zip_encoding(packed), packed, windows);
}

/// The entry script that a new task starts with.
pub open spec fn script_template(windows: bool) -> Seq<char> {
    if windows {
        "@echo off\necho Running task...\nREM Add your task logic here\n"@
    } else {
        "#!/bin/sh\necho \"Running task...\"\nSCRIPT_DIR=$(cd \"$(dirname \"$0\")\" && pwd)\n# 切换到脚本所在目录\ncd \"$SCRIPT_DIR\"\n# Add your task logic here\n"@
    }
}

/// The entry script that a new task starts with.
pub fn script_template_text(windows: bool) -> (text: String)
    ensures
        text@ == script_template(windows),
{
    if windows {
        String::from_str("@echo off\necho Running task...\nREM Add your task logic here\n")
    } else {
        String::from_str(
            "#!/bin/sh\necho \"Running task...\"\nSCRIPT_DIR=$(cd \"$(dirname \"$0\")\" && pwd)\n# 切换到脚本所在目录\ncd \"$SCRIPT_DIR\"\n# Add your task logic here\n",
        )
    }
}

/// The files of a new task named `name` with the identifier `uuid`: its
/// manifest and its entry script, each as UTF-8.
pub open spec fn skeleton(uuid: Seq<char>, name: Seq<char>, windows: bool) -> Seq<
    (Seq<char>, Seq<u8>),
> {
    seq![
        (manifest_name(), vstd::utf8::encode_utf8(new_manifest_text(uuid, name))),
        (script_name(windows), vstd::utf8::encode_utf8(script_template(windows))),
    ]
}

/// Makes the files of a new task with a given identifier.
pub fn task_skeleton(uuid: &str, name: &str, windows: bool) -> (files: Vec<FileEntry>)
    ensures
        entries_view(files@) == skeleton(uuid@, name@, windows),
{
    let manifest = render_manifest(uuid, name);
    let script = script_template_text(windows);
    let mut files: Vec<FileEntry> = Vec::new();
    files.push(
        FileEntry { name: manifest_file_name(), content: manifest.as_str().as_bytes_vec() },
    );
    files.push(
        FileEntry { name: entry_script_name(windows), content: script.as_str().as_bytes_vec() },
    );
    assert(entries_view(files@) =~= skeleton(uuid@, name@, windows));
    files
}

/// Makes the files of a new task under a fresh random identifier of 36
/// characters.
pub fn new_task_files(name: &str, windows: bool) -> (files: Vec<FileEntry>)
    ensures
        exists|uuid: Seq<char>|
            uuid.len() == 36 && entries_view(files@) == #[trigger] skeleton(uuid, name@, windows),
{
    let uuid = fresh_uuid();
    task_skeleton(uuid.as_str(), name, windows)
}

/// What unpacking a fetched archive for a run comes to: the actions that
/// recreate the bundle, or the reason why it cannot be run.
pub open spec fn runnable(archive: Seq<u8>, windows: bool) -> Result<
    Seq<ExtractStepView>,
    BundleFault,
> {
    match decoded_entries(archive) {
        None => Err(BundleFault::Archive(ArchiveFault::Corrupt)),
        Some(entries) => match steps_for(entries, windows) {
            None => Err(BundleFault::Archive(ArchiveFault::Traversal)),
            Some(steps) => if holds_file(entries, script_name(windows)) {
                Ok(steps)
            } else {
                Err(BundleFault::MissingEntryScript)
            },
        },
    }
}

/// Unpacks a fetched archive for a run. An archive without an entry script
/// is refused here, before anything is written or run.
pub fn unpack_for_run(archive: &Vec<u8>, windows: bool) -> (r: Result<Vec<ExtractStep>, BundleError>)
    ensures
        match r {
            Ok(steps) => runnable(archive@, windows) == Ok::<Seq<ExtractStepView>, BundleFault>(
                steps_view(steps@),
            ),
            Err(e) => runnable(archive@, windows) == Err::<Seq<ExtractStepView>, BundleFault>(e@),
        },
{
    let entries = match read_archive(archive) {
        Ok(entries) => entries,
        Err(e) => {
            return Err(BundleError::Archive(e));
        },
    };
    let steps = match plan_extraction(&entries, windows) {
        Ok(steps) => steps,
        Err(e) => {
            return Err(BundleError::Archive(e));
        },
    };
    let script = entry_script_name(windows);
    match find_file(&entries, &script) {
        Some(_) => Ok(steps),
        None => Err(BundleError::MissingEntryScript),
    }
}

/// The path of the entry script of a bundle unpacked into `dir`.
pub open spec fn script_path_in(dir: Seq<char>, windows: bool) -> Seq<char> {
    dir + seq!['/'] + script_name(windows)
}

/// The path of the entry script of a bundle unpacked into `dir`.
pub fn entry_script_path(dir: &str, windows: bool) -> (path: String)
    ensures
        path@ == script_path_in(dir@, windows),
{
    proof {
        reveal_strlit("/");
    }
    let name = entry_script_name(windows);
    let path = String::from_str(dir).concat("/").concat(name.as_str());
    assert(path@ =~= script_path_in(dir@, windows)) by {
        assert("/"@ =~= seq!['/']);
    }
    path
}

} // verus!
