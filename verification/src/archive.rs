//! The archive codec: a list of named files to one compressed archive and
//! back, with paths that cannot leave the destination directory.

use crate::digest::md5_hex;
use crate::path::enclosed_parts;
use crate::path::enclosed_path;
use crate::path::is_directory_name;
use crate::path::is_plain_path;
use crate::path::join;
use crate::path::lemma_enclosed_parts_normal;
use crate::path::lemma_join_empty;
use crate::path::lemma_leading_parent_refused;
use crate::path::names_directory;
use std::io::Cursor;
use std::io::Read;
use std::io::Write;
use vstd::prelude::*;
use zip::CompressionMethod;
use zip::DateTime;
use zip::ZipArchive;
use zip::ZipWriter;
use zip::result::ZipError;
use zip::write::SimpleFileOptions;

verus! {

/// One regular file of a bundle: its path relative to the bundle directory
/// and its bytes.
#[derive(Clone, Debug, PartialEq, Eq)]
pub struct FileEntry {
    pub name: String,
    pub content: Vec<u8>,
}

impl View for FileEntry {
    type V = (Seq<char>, Seq<u8>);

    open spec fn view(&self) -> (Seq<char>, Seq<u8>) {
        (self.name@, self.content@)
    }
}

/// The entries of a list, each as its name and bytes.
pub open spec fn entries_view(entries: Seq<FileEntry>) -> Seq<(Seq<char>, Seq<u8>)> {
    entries.map_values(|e: FileEntry| e@)
}

/// Why packing or unpacking was given up.
#[derive(Debug, Clone, PartialEq, Eq)]
pub enum ArchiveError {
    /// An entry name is longer than the archive format can record.
    NameTooLong,
    /// The archive writer refused an entry or could not finish.
    Codec(String),
    /// The bytes are not a readable archive, or an entry in it is damaged.
    Corrupt(String),
    /// An entry name is absolute, holds a NUL (on Windows also a backslash
    /// or a colon), climbs out of the destination directory, or names that
    /// directory itself as a file. The name is carried along.
    Traversal(String),
}

/// Why packing or unpacking was given up, without the texts carried along.
#[derive(Clone, Copy, Debug, PartialEq, Eq, Structural)]
pub enum ArchiveFault {
    NameTooLong,
    Codec,
    Corrupt,
    Traversal,
}

impl View for ArchiveError {
    type V = ArchiveFault;

    open spec fn view(&self) -> ArchiveFault {
        match self {
            ArchiveError::NameTooLong => ArchiveFault::NameTooLong,
            ArchiveError::Codec(_) => ArchiveFault::Codec,
            ArchiveError::Corrupt(_) => ArchiveFault::Corrupt,
            ArchiveError::Traversal(_) => ArchiveFault::Traversal,
        }
    }
}

/// The longest entry name, in bytes, that an archive can record.
pub const MAX_NAME_BYTES: usize = 65535;

/// The permissions that every entry of an archive is recorded with.
pub const ENTRY_MODE: u32 = 0o755;

/// The weight up to which an archive is sure to be written: the bytes of
/// all names and contents and 128 bytes for each entry, one GiB in all.
pub const MAX_ARCHIVE_WEIGHT: usize = 0x4000_0000;

/// An archive under construction in memory: a `zip::ZipWriter` over a
/// byte buffer, held as an opaque value together with the permissions that
/// its entries are recorded with.
#[verifier::external_body]
pub struct ArchiveWriter {
    inner: ZipWriter<Cursor<Vec<u8>>>,
    mode: u32,
}

/// `zip::ZipArchive`, an opened archive, as an opaque value.
#[verifier::external_type_specification]
#[verifier::external_body]
#[verifier::reject_recursive_types(R)]
pub struct ExZipArchive<R>(ZipArchive<R>);

/// `std::io::Cursor`, a reader over bytes in memory, as an opaque value.
#[verifier::external_type_specification]
#[verifier::external_body]
#[verifier::reject_recursive_types(T)]
pub struct ExCursor<T>(Cursor<T>);

/// `zip::result::ZipError`, the failure of an archive call, as an opaque
/// value.
#[verifier::external_type_specification]
#[verifier::external_body]
pub struct ExZipError(ZipError);

/// The files written to an archive writer so far, each as its name and the
/// bytes written to it, in the order they were started.
pub uninterp spec fn written_entries(w: ArchiveWriter) -> Seq<(Seq<char>, Seq<u8>)>;

/// The permissions that an archive writer records its entries with.
pub uninterp spec fn writer_mode(w: ArchiveWriter) -> u32;

/// Whether the file that an archive writer started last is still open for
/// writing.
pub uninterp spec fn writer_open(w: ArchiveWriter) -> bool;

/// The bytes of the archive that holds exactly `entries`, in that order,
/// each compressed with Zstandard, with the permissions `mode` and the
/// timestamp 1980-01-01.
pub uninterp spec fn zip_encoding_with(entries: Seq<(Seq<char>, Seq<u8>)>, mode: u32) -> Seq<u8>;

/// The bytes of the archive of `entries` as this library packs it.
pub open spec fn zip_encoding(entries: Seq<(Seq<char>, Seq<u8>)>) -> Seq<u8> {
    zip_encoding_with(entries, ENTRY_MODE)
}

/// What one entry weighs in an archive: the bytes of its name and of its
/// content, and 128 bytes for its headers.
pub open spec fn entry_weight(entry: (Seq<char>, Seq<u8>)) -> nat {
    vstd::utf8::encode_utf8(entry.0).len() + entry.1.len() + 128
}

/// What `entries` weigh together.
pub open spec fn archive_weight(entries: Seq<(Seq<char>, Seq<u8>)>) -> nat
    decreases entries.len(),
{
    if entries.len() == 0 {
        0
    } else {
        archive_weight(entries.drop_last()) + entry_weight(entries.last())
    }
}

/// `entries` with `data` added to the content of the last one.
pub open spec fn extended(entries: Seq<(Seq<char>, Seq<u8>)>, data: Seq<u8>) -> Seq<
    (Seq<char>, Seq<u8>),
> {
    entries.drop_last().push((entries.last().0, entries.last().1 + data))
}

/// `ZipWriter::new` over an empty in-memory buffer: a writer that holds no
/// file yet.
#[verifier::external_body]
fn writer_new(mode: u32) -> (w: ArchiveWriter)
    ensures
        written_entries(w) == Seq::<(Seq<char>, Seq<u8>)>::empty(),
        writer_mode(w) == mode,
        !writer_open(w),
{
    ArchiveWriter { inner: ZipWriter::new(Cursor::new(Vec::new())), mode }
}

/// `ZipWriter::start_file` with the Zstandard method, the writer's
/// permissions and the timestamp 1980-01-01. On success a new, empty file
/// named `name` follows the files written so far and is open. A name that
/// the writer already holds is refused. Over a buffer in memory that is the
/// only refusal as long as no size or offset reaches 4 GiB, which an
/// archive of at most one GiB of weight cannot do: Zstandard adds less than
/// one part in 256 and 64 bytes to what it is given (`ZSTD_COMPRESSBOUND`).
/// The call panics on a name of more than 65535 bytes, which `requires`
/// leaves out.
#[verifier::external_body]
fn writer_start_file(w: &mut ArchiveWriter, name: &str) -> (r: Result<(), ZipError>)
    requires
        name_fits(name@),
    ensures
        writer_mode(*final(w)) == writer_mode(*old(w)),
        r is Ok ==> written_entries(*final(w)) == written_entries(*old(w)).push(
            (name@, Seq::<u8>::empty()),
        ) && writer_open(*final(w)),
        r is Ok ==> forall|i: int|
            0 <= i < written_entries(*old(w)).len() ==> (#[trigger] written_entries(*old(w))[i]).0
                != name@,
        (forall|i: int|
            0 <= i < written_entries(*old(w)).len() ==> (#[trigger] written_entries(*old(w))[i]).0
                != name@) && archive_weight(
            written_entries(*old(w)).push((name@, Seq::<u8>::empty())),
        ) <= MAX_ARCHIVE_WEIGHT ==> r is Ok,
{
    let options = SimpleFileOptions::default()
        .compression_method(CompressionMethod::Zstd)
        .unix_permissions(w.mode)
        .last_modified_time(DateTime::default());
    w.inner.start_file(name, options)
}

/// `Write::write_all` on the writer: on success, where a file is open, all
/// of `data` is appended to it and it stays open. Where a file is open the
/// call fails only once an entry passes 4 GiB, which an archive of at most
/// one GiB of weight cannot do.
#[verifier::external_body]
fn writer_write_all(w: &mut ArchiveWriter, data: &[u8]) -> (r: Result<(), ZipError>)
    ensures
        writer_mode(*final(w)) == writer_mode(*old(w)),
        r is Ok && writer_open(*old(w)) && written_entries(*old(w)).len() > 0
            ==> written_entries(*final(w)) == extended(written_entries(*old(w)), data@)
            && writer_open(*final(w)),
        writer_open(*old(w)) && written_entries(*old(w)).len() > 0 && archive_weight(
            extended(written_entries(*old(w)), data@),
        ) <= MAX_ARCHIVE_WEIGHT ==> r is Ok,
{
    w.inner.write_all(data).map_err(ZipError::Io)
}

/// `ZipWriter::finish`: on success the bytes of the archive of the files
/// written, which depend on their names, bytes and order and on the
/// permissions alone. Over a buffer in memory it does not fail as long as
/// no size or offset reaches 4 GiB, which an archive of at most one GiB of
/// weight cannot do.
#[verifier::external_body]
fn writer_finish(w: ArchiveWriter) -> (r: Result<Vec<u8>, ZipError>)
    ensures
        r matches Ok(bytes) ==> bytes@ == zip_encoding_with(written_entries(w), writer_mode(w)),
        archive_weight(written_entries(w)) <= MAX_ARCHIVE_WEIGHT ==> r is Ok,
{
    w.inner.finish().map(|cursor| cursor.into_inner())
}

/// The text of a `ZipError`, as its `Display` gives it.
#[verifier::external_body]
fn zip_error_text(e: &ZipError) -> (text: String)
{
    e.to_string()
}

/// The first files of a list weigh no more than all of them, also where
/// the last of them is taken without its content or with all of it.
pub proof fn lemma_weight_of_prefix(entries: Seq<(Seq<char>, Seq<u8>)>, count: int)
    requires
        0 <= count < entries.len(),
    ensures
        archive_weight(entries.take(count)) <= archive_weight(entries),
        archive_weight(entries.take(count).push((entries[count].0, Seq::<u8>::empty())))
            <= archive_weight(entries.take(count + 1)),
        archive_weight(entries.take(count + 1)) <= archive_weight(entries),
    decreases entries.len() - count,
{
    let first = entries.take(count);
    let started = first.push((entries[count].0, Seq::<u8>::empty()));
    let next = entries.take(count + 1);
    assert(started.drop_last() =~= first);
    assert(next.drop_last() =~= first);
    assert(next.last() == entries[count]);
    if count + 1 < entries.len() {
        lemma_weight_of_prefix(entries, count + 1);
    } else {
        assert(next =~= entries);
    }
}

/// Whether no two of `entries` have the same name.
pub open spec fn names_distinct(entries: Seq<(Seq<char>, Seq<u8>)>) -> bool {
    forall|i: int, j: int|
        0 <= i < j < entries.len() ==> (#[trigger] entries[i]).0 != (#[trigger] entries[j]).0
}

/// Whether `entries` are sure to be packed: their names fit and differ, and
/// together they weigh no more than an archive may.
pub open spec fn packs(entries: Seq<(Seq<char>, Seq<u8>)>) -> bool {
    names_fit(entries) && names_distinct(entries) && archive_weight(entries) <= MAX_ARCHIVE_WEIGHT
}

/// Whether `name`, encoded as UTF-8, fits the archive format.
pub open spec fn name_fits(name: Seq<char>) -> bool {
    vstd::utf8::encode_utf8(name).len() <= MAX_NAME_BYTES
}

/// Whether every name of `entries` fits the archive format.
pub open spec fn names_fit(entries: Seq<(Seq<char>, Seq<u8>)>) -> bool {
    forall|i: int| 0 <= i < entries.len() ==> name_fits((#[trigger] entries[i]).0)
}

/// Whether `name` fits the archive format.
pub fn check_name_fits(name: &str) -> (fits: bool)
    ensures
        fits == name_fits(name@),
{
    name.as_bytes().len() <= MAX_NAME_BYTES
}

/// Whether every name of `entries` fits the archive format.
pub fn check_names_fit(entries: &Vec<FileEntry>) -> (fit: bool)
    ensures
        fit == names_fit(entries_view(entries@)),
{
    let mut i: usize = 0;
    while i < entries.len()
        invariant
            i <= entries.len(),
            forall|j: int| 0 <= j < i ==> name_fits((#[trigger] entries_view(entries@)[j]).0),
        decreases entries.len() - i,
    {
        assert(entries_view(entries@)[i as int].0 == entries@[i as int].name@);
        if !check_name_fits(entries[i].name.as_str()) {
            return false;
        }
        i = i + 1;
    }
    true
}

/// Packs `entries`, in the order given, into one archive.
///
/// The archive depends on the names, bytes and order of the entries alone:
/// permissions and timestamps are fixed, so equal entries give equal bytes.
/// A name that does not fit is refused before anything is written; any other
/// refusal comes from the archive writer, which takes no name twice. Files
/// whose names fit and differ and that weigh no more than one GiB together
/// are packed.
pub fn create_zip(entries: &Vec<FileEntry>) -> (r: Result<Vec<u8>, ArchiveError>)
    ensures
        match r {
            Ok(bytes) => names_fit(entries_view(entries@)) && names_distinct(
                entries_view(entries@),
            ) && bytes@ == zip_encoding(entries_view(entries@)),
            Err(ArchiveError::NameTooLong) => !names_fit(entries_view(entries@)),
            Err(ArchiveError::Codec(_)) => names_fit(entries_view(entries@)),
            Err(_) => false,
        },
        packs(entries_view(entries@)) ==> r is Ok,
{
    if !check_names_fit(entries) {
        return Err(ArchiveError::NameTooLong);
    }
    let mut w = writer_new(ENTRY_MODE);
    let mut i: usize = 0;
    while i < entries.len()
        invariant
            i <= entries.len(),
            names_fit(entries_view(entries@)),
            written_entries(w) == entries_view(entries@).take(i as int),
            writer_mode(w) == ENTRY_MODE,
            names_distinct(entries_view(entries@).take(i as int)),
        decreases entries.len() - i,
    {
        let ghost all = entries_view(entries@);
        let ghost done = all.take(i as int);
        let entry = &entries[i];
        assert(all[i as int] == entry@);
        proof {
            lemma_weight_of_prefix(all, i as int);
            if names_distinct(all) {
                assert forall|j: int| 0 <= j < done.len() implies (#[trigger] done[j]).0
                    != entry.name@ by {
                    assert(done[j] == all[j]);
                }
            }
            assert(extended(done.push((entry.name@, Seq::<u8>::empty())), entry.content@)
                =~= all.take(i + 1)) by {
                assert(Seq::<u8>::empty() + entry.content@ =~= entry.content@);
            }
        }
        match writer_start_file(&mut w, entry.name.as_str()) {
            Ok(()) => {},
            Err(e) => {
                return Err(ArchiveError::Codec(zip_error_text(&e)));
            },
        }
        match writer_write_all(&mut w, entry.content.as_slice()) {
            Ok(()) => {},
            Err(e) => {
                return Err(ArchiveError::Codec(zip_error_text(&e)));
            },
        }
        i = i + 1;
        assert(written_entries(w) =~= entries_view(entries@).take(i as int));
        assert(entries_view(entries@).take(i as int) =~= done.push(entry@));
    }
    assert(entries_view(entries@).take(i as int) =~= entries_view(entries@));
    match writer_finish(w) {
        Ok(bytes) => Ok(bytes),
        Err(e) => Err(ArchiveError::Codec(zip_error_text(&e))),
    }
}

/// The bytes that an opened archive was read from.
pub uninterp spec fn archive_source(a: ZipArchive<Cursor<Vec<u8>>>) -> Seq<u8>;

/// The number of entries in the central directory of the archive `bytes`,
/// or `None` where `bytes` cannot be opened as an archive.
pub uninterp spec fn zip_entry_count(bytes: Seq<u8>) -> Option<nat>;

/// The name and the decompressed bytes of entry `index` of the archive
/// `bytes`, or `None` where that entry cannot be read in full.
pub uninterp spec fn zip_entry(bytes: Seq<u8>, index: nat) -> Option<(Seq<char>, Seq<u8>)>;

/// `ZipArchive::new` over the bytes in memory. Whether it opens depends on
/// the bytes alone.
#[verifier::external_body]
fn archive_open(bytes: Vec<u8>) -> (r: Result<ZipArchive<Cursor<Vec<u8>>>, ZipError>)
    ensures
        match r {
            Ok(a) => archive_source(a) == bytes@ && zip_entry_count(bytes@) is Some,
            Err(_) => zip_entry_count(bytes@) is None,
        },
{
    ZipArchive::new(Cursor::new(bytes))
}

/// `ZipArchive::len`: the number of entries of an opened archive.
#[verifier::external_body]
fn archive_len(a: &ZipArchive<Cursor<Vec<u8>>>) -> (n: usize)
    ensures
        zip_entry_count(archive_source(*a)) == Some(n as nat),
{
    a.len()
}

/// `ZipArchive::by_index`, then the entry's `name` and all of its bytes
/// through `Read::read_to_end`. Whether the entry can be read, and what it
/// holds, depends on the archive's bytes and the index alone.
#[verifier::external_body]
fn archive_entry(a: &mut ZipArchive<Cursor<Vec<u8>>>, index: usize) -> (r: Result<
    FileEntry,
    ZipError,
>)
    ensures
        archive_source(*final(a)) == archive_source(*old(a)),
        match r {
            Ok(entry) => zip_entry(archive_source(*old(a)), index as nat) == Some(entry@),
            Err(_) => zip_entry(archive_source(*old(a)), index as nat) is None,
        },
{
    let mut file = a.by_index(index)?;
    let name = file.name().to_string();
    let mut content = Vec::new();
    file.read_to_end(&mut content).map_err(ZipError::Io)?;
    Ok(FileEntry { name, content })
}

/// The entries of the archive `bytes`, in the order of its directory, or
/// `None` where the archive or one of its entries cannot be read.
pub open spec fn decoded_entries(bytes: Seq<u8>) -> Option<Seq<(Seq<char>, Seq<u8>)>> {
    match zip_entry_count(bytes) {
        None => None,
        Some(count) => if forall|i: nat| i < count ==> (#[trigger] zip_entry(bytes, i)) is Some {
            Some(Seq::new(count, |i: int| zip_entry(bytes, i as nat).unwrap()))
        } else {
            None
        },
    }
}

/// Reads every entry of an archive into memory.
pub fn read_archive(archive: &Vec<u8>) -> (r: Result<Vec<FileEntry>, ArchiveError>)
    ensures
        match r {
            Ok(entries) => decoded_entries(archive@) == Some(entries_view(entries@)),
            Err(ArchiveError::Corrupt(_)) => decoded_entries(archive@) is None,
            Err(_) => false,
        },
{
    let mut opened = match archive_open(archive.clone()) {
        Ok(a) => a,
        Err(e) => {
            return Err(ArchiveError::Corrupt(zip_error_text(&e)));
        },
    };
    let count = archive_len(&opened);
    let mut entries: Vec<FileEntry> = Vec::new();
    let mut i: usize = 0;
    while i < count
        invariant
            i <= count,
            archive_source(opened) == archive@,
            zip_entry_count(archive@) == Some(count as nat),
            entries@.len() == i,
            forall|j: int|
                0 <= j < i ==> zip_entry(archive@, j as nat) == Some((#[trigger] entries@[j])@),
        decreases count - i,
    {
        match archive_entry(&mut opened, i) {
            Ok(entry) => {
                entries.push(entry);
            },
            Err(e) => {
                return Err(ArchiveError::Corrupt(zip_error_text(&e)));
            },
        }
        i = i + 1;
    }
    proof {
        assert forall|k: nat| k < count as nat implies (#[trigger] zip_entry(archive@, k)) is Some by {
            assert(zip_entry(archive@, (k as int) as nat) == Some(entries@[k as int]@));
        }
        assert(decoded_entries(archive@).unwrap() =~= entries_view(entries@));
    }
    Ok(entries)
}

/// One action of unpacking, with a path relative to the destination
/// directory and made of ordinary components only.
#[derive(Clone, Debug, PartialEq, Eq)]
pub enum ExtractStep {
    /// Create this directory and the directories above it.
    CreateDir { path: String },
    /// Create the directories above this file and write it with these bytes.
    WriteFile { path: String, content: Vec<u8> },
}

/// An action of unpacking over sequences.
pub enum ExtractStepView {
    CreateDir { path: Seq<char> },
    WriteFile { path: Seq<char>, content: Seq<u8> },
}

impl View for ExtractStep {
    type V = ExtractStepView;

    open spec fn view(&self) -> ExtractStepView {
        match self {
            ExtractStep::CreateDir { path } => ExtractStepView::CreateDir { path: path@ },
            ExtractStep::WriteFile { path, content } => ExtractStepView::WriteFile {
                path: path@,
                content: content@,
            },
        }
    }
}

/// The action that unpacks one entry, or `None` where its name must be
/// refused: it is not enclosed by the destination directory, or it is a
/// file that resolves to the destination directory itself.
pub open spec fn step_for(entry: (Seq<char>, Seq<u8>), windows: bool) -> Option<
    ExtractStepView,
> {
    match enclosed_parts(entry.0, windows) {
        None => None,
        Some(parts) => if names_directory(entry.0) {
            Some(ExtractStepView::CreateDir { path: join(parts) })
        } else if parts.len() == 0 {
            None
        } else {
            Some(ExtractStepView::WriteFile { path: join(parts), content: entry.1 })
        },
    }
}

/// The actions that unpack `entries`, one for each in order, or `None`
/// where some entry must be refused.
pub open spec fn steps_for(entries: Seq<(Seq<char>, Seq<u8>)>, windows: bool) -> Option<
    Seq<ExtractStepView>,
> {
    if forall|i: int|
        0 <= i < entries.len() ==> step_for(#[trigger] entries[i], windows) is Some {
        Some(Seq::new(entries.len(), |i: int| step_for(entries[i], windows).unwrap()))
    } else {
        None
    }
}

/// Whether `name` is the name of one of `entries` that must be refused.
pub open spec fn refused_name(
    entries: Seq<(Seq<char>, Seq<u8>)>,
    name: Seq<char>,
    windows: bool,
) -> bool {
    exists|i: int|
        0 <= i < entries.len() && (#[trigger] entries[i]).0 == name && step_for(
            entries[i],
            windows,
        ) is None
}

/// The views of a list of actions.
pub open spec fn steps_view(steps: Seq<ExtractStep>) -> Seq<ExtractStepView> {
    steps.map_values(|s: ExtractStep| s@)
}

/// Plans the unpacking of one entry.
pub fn plan_entry(entry: &FileEntry, windows: bool) -> (r: Option<ExtractStep>)
    ensures
        match r {
            Some(step) => step_for(entry@, windows) == Some(step@),
            None => step_for(entry@, windows) is None,
        },
{
    match enclosed_path(entry.name.as_str(), windows) {
        None => None,
        Some(path) => {
            proof {
                lemma_enclosed_parts_normal(entry.name@, windows);
                lemma_join_empty(enclosed_parts(entry.name@, windows).unwrap(), windows);
            }
            if is_directory_name(entry.name.as_str()) {
                Some(ExtractStep::CreateDir { path })
            } else if path.as_str().unicode_len() == 0 {
                None
            } else {
                Some(ExtractStep::WriteFile { path, content: entry.content.clone() })
            }
        },
    }
}

/// Plans the unpacking of `entries` into a destination directory on the
/// platform: one action for each entry, in order, every path inside the
/// destination. Nothing is planned if any one entry must be refused.
pub fn plan_extraction(entries: &Vec<FileEntry>, windows: bool) -> (r: Result<
    Vec<ExtractStep>,
    ArchiveError,
>)
    ensures
        match r {
            Ok(steps) => steps_for(entries_view(entries@), windows) == Some(steps_view(steps@)),
            Err(ArchiveError::Traversal(name)) => steps_for(entries_view(entries@), windows)
                is None && refused_name(entries_view(entries@), name@, windows),
            Err(_) => false,
        },
{
    let mut steps: Vec<ExtractStep> = Vec::new();
    let mut i: usize = 0;
    while i < entries.len()
        invariant
            i <= entries.len(),
            steps@.len() == i,
            forall|j: int|
                0 <= j < i ==> step_for(entries@[j]@, windows) == Some((#[trigger] steps@[j])@),
        decreases entries.len() - i,
    {
        match plan_entry(&entries[i], windows) {
            Some(step) => {
                steps.push(step);
            },
            None => {
                assert(entries_view(entries@)[i as int] == entries@[i as int]@);
                return Err(ArchiveError::Traversal(entries[i].name.clone()));
            },
        }
        i = i + 1;
    }
    proof {
        let ev = entries_view(entries@);
        assert forall|k: int| 0 <= k < ev.len() implies step_for(
            #[trigger] ev[k],
            windows,
        ) is Some by {
            assert(step_for(entries@[k]@, windows) == Some(steps@[k]@));
        }
        assert(steps_for(ev, windows).unwrap() =~= steps_view(steps@));
    }
    Ok(steps)
}

/// What unpacking an archive comes to.
pub enum Unpacked {
    /// The actions for its entries, in order.
    Steps(Seq<ExtractStepView>),
    /// The archive or one of its entries cannot be read.
    Corrupt,
    /// The archive can be read, and one of its entries must be refused.
    Traversal,
}

/// What unpacking the archive `bytes` comes to.
pub open spec fn unpacked(bytes: Seq<u8>, windows: bool) -> Unpacked {
    match decoded_entries(bytes) {
        None => Unpacked::Corrupt,
        Some(entries) => match steps_for(entries, windows) {
            None => Unpacked::Traversal,
            Some(steps) => Unpacked::Steps(steps),
        },
    }
}

/// Unpacks an archive into the actions that recreate its files below a
/// destination directory on the platform.
///
/// A damaged archive is refused as `Corrupt`. An archive that can be read
/// but holds an entry whose name would leave the destination directory is
/// refused as `Traversal`, and no action is handed out for any entry.
pub fn unpack_zip(archive: &Vec<u8>, windows: bool) -> (r: Result<
    Vec<ExtractStep>,
    ArchiveError,
>)
    ensures
        match r {
            Ok(steps) => unpacked(archive@, windows) == Unpacked::Steps(steps_view(steps@)),
            Err(ArchiveError::Corrupt(_)) => unpacked(archive@, windows) == Unpacked::Corrupt,
            Err(ArchiveError::Traversal(name)) => unpacked(archive@, windows)
                == Unpacked::Traversal && refused_name(
                decoded_entries(archive@)->0,
                name@,
                windows,
            ),
            Err(_) => false,
        },
{
    let entries = read_archive(archive)?;
    plan_extraction(&entries, windows)
}

/// The action that writes an entry at its own name with its own bytes.
pub open spec fn written_as_given(entry: (Seq<char>, Seq<u8>)) -> ExtractStepView {
    ExtractStepView::WriteFile { path: entry.0, content: entry.1 }
}

/// Unpacking gives back what was packed: where reading an archive yields
/// files under plain relative paths, nested ones included, unpacking it
/// writes each file at its own path with its own bytes, in order. Every
/// name that a file can have in a directory of the platform is such a
/// path; elsewhere than on Windows that includes names that hold a
/// backslash or a colon.
///
/// That reading the archive of some entries yields those entries again is
/// the archive format's own promise and is not proved here.
pub proof fn lemma_unpack_reproduces(
    archive: Seq<u8>,
    entries: Seq<(Seq<char>, Seq<u8>)>,
    windows: bool,
)
    requires
        decoded_entries(archive) == Some(entries),
        forall|i: int|
            0 <= i < entries.len() ==> is_plain_path((#[trigger] entries[i]).0, windows),
    ensures
        unpacked(archive, windows) == Unpacked::Steps(
            Seq::new(entries.len(), |i: int| written_as_given(entries[i])),
        ),
{
    assert forall|i: int| 0 <= i < entries.len() implies step_for(
        #[trigger] entries[i],
        windows,
    ) == Some(written_as_given(entries[i])) by {
        assert(is_plain_path(entries[i].0, windows));
    }
    assert(steps_for(entries, windows).unwrap() =~= Seq::new(
        entries.len(),
        |i: int| written_as_given(entries[i]),
    ));
}

/// Packing depends on the names and bytes of the files alone: two lists of
/// files with the same names and bytes, in the same order, have the same
/// archive and hence the same digest.
pub proof fn lemma_packing_deterministic(first: Seq<FileEntry>, second: Seq<FileEntry>)
    requires
        first.len() == second.len(),
        forall|i: int| 0 <= i < first.len() ==> (#[trigger] first[i])@ == second[i]@,
    ensures
        zip_encoding(entries_view(first)) == zip_encoding(entries_view(second)),
        md5_hex(zip_encoding(entries_view(first))) == md5_hex(zip_encoding(entries_view(second))),
{
    assert(entries_view(first) =~= entries_view(second));
}

/// An archive with an entry whose name starts with `../` is refused as a
/// whole: no action is planned for any of its entries.
pub proof fn lemma_climbing_entry_refused(
    archive: Seq<u8>,
    entries: Seq<(Seq<char>, Seq<u8>)>,
    place: int,
    rest: Seq<char>,
    windows: bool,
)
    requires
        decoded_entries(archive) == Some(entries),
        0 <= place < entries.len(),
        entries[place].0 == seq!['.', '.', '/'] + rest,
    ensures
        steps_for(entries, windows) is None,
        unpacked(archive, windows) == Unpacked::Traversal,
{
    lemma_leading_parent_refused(rest, windows);
    assert(step_for(entries[place], windows) is None);
}

} // verus!
