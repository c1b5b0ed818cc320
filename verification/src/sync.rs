//! The conditional transfer: the server sends an archive only to a client
//! whose cached copy has another digest, and the client commits to its
//! cache only what a successful answer carried.

use crate::archive::steps_view;
use crate::archive::ArchiveError;
use crate::archive::ExtractStep;
use crate::archive::ExtractStepView;
use crate::bundle::runnable;
use crate::bundle::unpack_for_run;
use crate::bundle::BundleError;
use crate::bundle::BundleFault;
use crate::archive::FileEntry;
use crate::archive::entries_view;
use crate::archive::names_fit;
use crate::archive::packs;
use crate::archive::zip_encoding;
use crate::cache::Cached;
use crate::cache::ContentCache;
use crate::digest::archive_digest;
use crate::digest::digest_of_cached;
use crate::digest::digests_match;
use crate::digest::is_fresh;
use crate::digest::md5_hex;
use crate::order::canonical;
use crate::order::pack_canonical;
use crate::result::AppError;
use crate::result::AppErrorView;
use crate::task::Task;
use crate::task::TaskRef;
use crate::task::task_ref_of;
use crate::task::text_view;
use vstd::prelude::*;

verus! {

/// The status that answers a request whose digest is the server's.
pub const STATUS_NOT_MODIFIED: u16 = 304;

/// The status that answers a request with the archive as its body.
pub const STATUS_OK: u16 = 200;

/// A request for the archive of a task, with the digest of what the client
/// holds.
#[derive(Debug, Clone, PartialEq, Eq)]
pub struct DownloadRequest {
    pub task: TaskRef,
    pub digest: String,
}

/// A download request over sequences.
pub struct DownloadRequestView {
    pub name: Seq<char>,
    pub uuid: Seq<char>,
    pub digest: Seq<char>,
}

impl View for DownloadRequest {
    type V = DownloadRequestView;

    open spec fn view(&self) -> DownloadRequestView {
        DownloadRequestView { name: self.task.name@, uuid: self.task.uuid@, digest: self.digest@ }
    }
}

/// What reading a download request from form fields comes to: the name is
/// asked for first, then the identifier, then the digest.
pub open spec fn request_of(
    name: Option<Seq<char>>,
    uuid: Option<Seq<char>>,
    digest: Option<Seq<char>>,
) -> Result<DownloadRequestView, AppErrorView> {
    match task_ref_of(name, uuid) {
        Err(e) => Err(e),
        Ok((n, u)) => match digest {
            None => Err(AppErrorView::AnyHow("Task digest not found"@)),
            Some(d) => Ok(DownloadRequestView { name: n, uuid: u, digest: d }),
        },
    }
}

impl DownloadRequest {
    /// Reads a download request from the fields of a form, each of which
    /// may be missing.
    pub fn from_form(name: Option<String>, uuid: Option<String>, digest: Option<String>) -> (r:
        Result<DownloadRequest, AppError>)
        ensures
            match r {
                Ok(request) => request_of(text_view(name), text_view(uuid), text_view(digest))
                    == Ok::<DownloadRequestView, AppErrorView>(request@),
                Err(e) => request_of(text_view(name), text_view(uuid), text_view(digest)) == Err::<
                    DownloadRequestView,
                    AppErrorView,
                >(e@),
            },
    {
        let task = TaskRef::from_form(name, uuid)?;
        match digest {
            Some(digest) => Ok(DownloadRequest { task, digest }),
            None => Err(AppError::anyhow("Task digest not found")),
        }
    }

    /// The request that a client sends for `task`: it carries the digest of
    /// the archive cached for the task, or the empty digest where nothing
    /// is cached.
    pub fn for_task(cache: &ContentCache, task: &Task) -> (request: DownloadRequest)
        requires
            cache.well_formed(),
        ensures
            request@.name == task.name@,
            request@.uuid == task.uuid@,
            request@.digest == digest_of_cached(
                if cache@.contains_key((task.name@, task.uuid@)) {
                    Some(cache@[(task.name@, task.uuid@)].archive)
                } else {
                    None
                },
            ),
            request@.digest.len() > 0 <==> cache@.contains_key((task.name@, task.uuid@)),
    {
        DownloadRequest { task: TaskRef::of(task), digest: cache.lookup_digest(task) }
    }
}

/// What the server answers to a download request.
#[derive(Clone, Debug, PartialEq, Eq)]
pub enum DownloadReply {
    /// The client's copy is the server's: no body is sent.
    NotModified,
    /// The client's copy differs or is missing: these bytes are sent.
    Archive(Vec<u8>),
}

/// An answer to a download request over sequences.
pub enum DownloadReplyView {
    NotModified,
    Archive(Seq<u8>),
}

impl View for DownloadReply {
    type V = DownloadReplyView;

    open spec fn view(&self) -> DownloadReplyView {
        match self {
            DownloadReply::NotModified => DownloadReplyView::NotModified,
            DownloadReply::Archive(bytes) => DownloadReplyView::Archive(bytes@),
        }
    }
}

impl DownloadReply {
    /// The status that carries this answer.
    pub fn status(&self) -> (status: u16)
        ensures
            status == match self {
                DownloadReply::NotModified => STATUS_NOT_MODIFIED,
                DownloadReply::Archive(_) => STATUS_OK,
            },
    {
        match self {
            DownloadReply::NotModified => STATUS_NOT_MODIFIED,
            DownloadReply::Archive(_) => STATUS_OK,
        }
    }
}

/// The answer owed to a client that holds `local`, by a server whose
/// archive is `archive` with the digest `server`.
pub open spec fn reply_for(local: Seq<char>, server: Seq<char>, archive: Seq<u8>)
    -> DownloadReplyView {
    if is_fresh(local, server) {
        DownloadReplyView::NotModified
    } else {
        DownloadReplyView::Archive(archive)
    }
}

/// Chooses the answer from the two digests.
pub fn choose_reply(local_digest: &String, server_digest: &String, archive: Vec<u8>) -> (reply:
    DownloadReply)
    ensures
        reply@ == reply_for(local_digest@, server_digest@, archive@),
{
    if digests_match(local_digest, server_digest) {
        DownloadReply::NotModified
    } else {
        DownloadReply::Archive(archive)
    }
}

/// Answers a download request for `archive`. The server's digest is
/// computed here, from the very bytes that would be sent.
pub fn answer_download(local_digest: &String, archive: Vec<u8>) -> (reply: DownloadReply)
    ensures
        reply@ == reply_for(local_digest@, md5_hex(archive@), archive@),
        reply is NotModified <==> local_digest@ == md5_hex(archive@),
{
    let server_digest = archive_digest(&archive);
    choose_reply(local_digest, &server_digest, archive)
}

/// Packs the files of a bundle, in canonical order, and answers a download
/// request for it. Files whose names fit and differ and that weigh no more
/// than one GiB together are packed and answered for.
pub fn serve_download(local_digest: &String, bundle: &Vec<FileEntry>) -> (r: Result<
    DownloadReply,
    ArchiveError,
>)
    ensures
        match r {
            Ok(reply) => {
                &&& names_fit(entries_view(bundle@))
                &&& reply@ == reply_for(
                    local_digest@,
                    md5_hex(zip_encoding(canonical(entries_view(bundle@)))),
                    zip_encoding(canonical(entries_view(bundle@))),
                )
                &&& reply is NotModified <==> local_digest@ == md5_hex(
                    zip_encoding(canonical(entries_view(bundle@))),
                )
            },
            Err(ArchiveError::NameTooLong) => !names_fit(entries_view(bundle@)),
            Err(ArchiveError::Codec(_)) => names_fit(entries_view(bundle@)),
            Err(_) => false,
        },
        packs(entries_view(bundle@)) ==> r is Ok,
{
    match pack_canonical(bundle) {
        Ok(archive) => Ok(answer_download(local_digest, archive)),
        Err(e) => Err(e),
    }
}

/// A client that holds the server's digest is told that nothing changed; a
/// client that holds any other digest, the empty one included, is sent the
/// archive, whose digest is the server's.
pub proof fn lemma_freshness_negotiation(local: Seq<char>, archive: Seq<u8>)
    requires
        md5_hex(archive).len() > 0,
    ensures
        local == md5_hex(archive) ==> reply_for(local, md5_hex(archive), archive)
            == DownloadReplyView::NotModified,
        local != md5_hex(archive) ==> reply_for(local, md5_hex(archive), archive)
            == DownloadReplyView::Archive(archive),
        local.len() == 0 ==> reply_for(local, md5_hex(archive), archive)
            == DownloadReplyView::Archive(archive),
{
}

/// What came of sending a download request.
#[derive(Clone, Debug, PartialEq, Eq)]
pub enum Transfer {
    /// No answer arrived.
    Failed,
    /// The server answered with this status and this body.
    Answered { status: u16, body: Vec<u8> },
}

/// How a client reads the status of an answer.
#[derive(Clone, Copy, Debug, PartialEq, Eq, Structural)]
pub enum StatusKind {
    /// The cached copy is the server's.
    NotModified,
    /// The body is the archive.
    Success,
    /// Anything else: the fetch is given up.
    Failure,
}

/// How a client reads `status`.
pub open spec fn kind_of(status: u16) -> StatusKind {
    if status == STATUS_NOT_MODIFIED {
        StatusKind::NotModified
    } else if 200 <= status < 300 {
        StatusKind::Success
    } else {
        StatusKind::Failure
    }
}

/// Reads the status of an answer.
pub fn classify_status(status: u16) -> (kind: StatusKind)
    ensures
        kind == kind_of(status),
{
    if status == STATUS_NOT_MODIFIED {
        StatusKind::NotModified
    } else if 200 <= status && status < 300 {
        StatusKind::Success
    } else {
        StatusKind::Failure
    }
}

/// What remains to do after a fetch before the task can run.
#[derive(Clone, Debug, PartialEq, Eq)]
pub enum FetchOutcome {
    /// The cached archive is current and already unpacked.
    Ready,
    /// Write `archive` to the cache file of the task and carry out `steps`
    /// in the task's directory.
    Unpack { archive: Vec<u8>, steps: Vec<ExtractStep> },
}

/// What remains to do after a fetch, over sequences.
pub enum FetchOutcomeView {
    Ready,
    Unpack { archive: Seq<u8>, steps: Seq<ExtractStepView> },
}

impl View for FetchOutcome {
    type V = FetchOutcomeView;

    open spec fn view(&self) -> FetchOutcomeView {
        match self {
            FetchOutcome::Ready => FetchOutcomeView::Ready,
            FetchOutcome::Unpack { archive, steps } => FetchOutcomeView::Unpack {
                archive: archive@,
                steps: steps_view(steps@),
            },
        }
    }
}

/// Why a fetch was given up. The cache is then as it was.
#[derive(Clone, Debug, PartialEq, Eq)]
pub enum FetchError {
    /// No answer arrived.
    Network,
    /// The server answered with this status, which is neither success nor
    /// "not modified".
    Status(u16),
    /// The server answered "not modified" though nothing is cached.
    NothingCached,
    /// The archive cannot be read, would leave the task's directory, or
    /// holds no entry script: a damaged or truncated body ends here.
    Bundle(BundleError),
}

/// Why a fetch was given up, without the texts carried along.
pub enum FetchFault {
    Network,
    Status(u16),
    NothingCached,
    Bundle(BundleFault),
}

impl View for FetchError {
    type V = FetchFault;

    open spec fn view(&self) -> FetchFault {
        match self {
            FetchError::Network => FetchFault::Network,
            FetchError::Status(status) => FetchFault::Status(*status),
            FetchError::NothingCached => FetchFault::NothingCached,
            FetchError::Bundle(e) => FetchFault::Bundle(e@),
        }
    }
}

/// What a fetch comes to once `archive` is the archive to run: where it can
/// be unpacked for a run, the cache `after` and the plan; where it cannot,
/// the cache `before` and the reason.
pub open spec fn unpacked_or_refused(
    before: Map<(Seq<char>, Seq<char>), Cached>,
    after: Map<(Seq<char>, Seq<char>), Cached>,
    archive: Seq<u8>,
    windows: bool,
) -> (Map<(Seq<char>, Seq<char>), Cached>, Result<FetchOutcomeView, FetchFault>) {
    match runnable(archive, windows) {
        Err(fault) => (before, Err(FetchFault::Bundle(fault))),
        Ok(steps) => (after, Ok(FetchOutcomeView::Unpack { archive, steps })),
    }
}

/// The cache and the result that a fetch for the task `key` comes to, from
/// the cache before it and what the transfer brought. The body of a
/// successful answer is read before it is kept: only an archive that can be
/// unpacked for a run replaces what is cached.
pub open spec fn fetched(
    before: Map<(Seq<char>, Seq<char>), Cached>,
    key: (Seq<char>, Seq<char>),
    answer: Option<(u16, Seq<u8>)>,
    windows: bool,
) -> (Map<(Seq<char>, Seq<char>), Cached>, Result<FetchOutcomeView, FetchFault>) {
    match answer {
        None => (before, Err(FetchFault::Network)),
        Some((status, body)) => match kind_of(status) {
            StatusKind::Failure => (before, Err(FetchFault::Status(status))),
            StatusKind::Success => unpacked_or_refused(
                before,
                before.insert(key, Cached { archive: body, unpacked: false }),
                body,
                windows,
            ),
            StatusKind::NotModified => if !before.contains_key(key) {
                (before, Err(FetchFault::NothingCached))
            } else if before[key].unpacked {
                (before, Ok(FetchOutcomeView::Ready))
            } else {
                unpacked_or_refused(before, before, before[key].archive, windows)
            },
        },
    }
}

/// A transfer over sequences.
pub open spec fn transfer_view(transfer: Transfer) -> Option<(u16, Seq<u8>)> {
    match transfer {
        Transfer::Failed => None,
        Transfer::Answered { status, body } => Some((status, body@)),
    }
}

/// The result of a fetch over sequences.
pub open spec fn outcome_view(r: Result<FetchOutcome, FetchError>) -> Result<
    FetchOutcomeView,
    FetchFault,
> {
    match r {
        Ok(outcome) => Ok(outcome@),
        Err(e) => Err(e@),
    }
}

/// Finishes a fetch of `task` with what the transfer brought.
///
/// The body of a successful answer is unpacked for a run first. Where that
/// succeeds, the body replaces the cached archive and is to be written and
/// unpacked on disk; where it fails, the cache stays as it was. "Not
/// modified" keeps the cache and asks for unpacking only where the cached
/// archive has not been unpacked yet. Any other status, or no answer,
/// leaves the cache untouched and fails.
pub fn complete_fetch(
    cache: &mut ContentCache,
    task: &Task,
    transfer: Transfer,
    windows: bool,
) -> (r: Result<FetchOutcome, FetchError>)
    requires
        old(cache).well_formed(),
    ensures
        final(cache).well_formed(),
        final(cache).root() == old(cache).root(),
        (final(cache)@, outcome_view(r)) == fetched(
            old(cache)@,
            (task.name@, task.uuid@),
            transfer_view(transfer),
            windows,
        ),
{
    match transfer {
        Transfer::Failed => Err(FetchError::Network),
        Transfer::Answered { status, body } => match classify_status(status) {
            StatusKind::Failure => Err(FetchError::Status(status)),
            StatusKind::Success => match unpack_for_run(&body, windows) {
                Err(e) => Err(FetchError::Bundle(e)),
                Ok(steps) => {
                    let archive = body.clone();
                    cache.store(task, body);
                    Ok(FetchOutcome::Unpack { archive, steps })
                },
            },
            StatusKind::NotModified => {
                if cache.is_unpacked(task) {
                    Ok(FetchOutcome::Ready)
                } else {
                    match cache.cached_archive(task) {
                        None => Err(FetchError::NothingCached),
                        Some(bytes) => match unpack_for_run(bytes, windows) {
                            Err(e) => Err(FetchError::Bundle(e)),
                            Ok(steps) => Ok(FetchOutcome::Unpack { archive: bytes.clone(), steps }),
                        },
                    }
                }
            },
        },
    }
}

/// What a client receives when the server's answer arrives as it was sent.
pub open spec fn answer_of(reply: DownloadReplyView) -> Option<(u16, Seq<u8>)> {
    match reply {
        DownloadReplyView::NotModified => Some((STATUS_NOT_MODIFIED, Seq::<u8>::empty())),
        DownloadReplyView::Archive(bytes) => Some((STATUS_OK, bytes)),
    }
}

impl DownloadReply {
    /// The answer as the client receives it: its status and its body.
    pub fn into_transfer(self) -> (transfer: Transfer)
        ensures
            transfer_view(transfer) == answer_of(self@),
    {
        match self {
            DownloadReply::NotModified => Transfer::Answered {
                status: STATUS_NOT_MODIFIED,
                body: Vec::new(),
            },
            DownloadReply::Archive(bytes) => Transfer::Answered { status: STATUS_OK, body: bytes },
        }
    }
}

/// The digest that a client sends for the task `key`.
pub open spec fn digest_sent(
    cached: Map<(Seq<char>, Seq<char>), Cached>,
    key: (Seq<char>, Seq<char>),
) -> Seq<char> {
    digest_of_cached(
        if cached.contains_key(key) {
            Some(cached[key].archive)
        } else {
            None
        },
    )
}

/// One exchange brings the client up to date: whatever the client held,
/// once it has sent its digest and taken the server's answer, a fetch that
/// succeeds leaves the task with a cached archive that has the digest of
/// the server's archive. An answer of "not modified" leaves the cache as it
/// was. An archive that is sent is kept if it can be unpacked for a run;
/// if not, the fetch fails and the cache is as it was.
pub proof fn lemma_exchange_brings_up_to_date(
    cached: Map<(Seq<char>, Seq<char>), Cached>,
    key: (Seq<char>, Seq<char>),
    archive: Seq<u8>,
    windows: bool,
)
    requires
        md5_hex(archive).len() > 0,
    ensures
        ({
            let reply = reply_for(digest_sent(cached, key), md5_hex(archive), archive);
            let after = fetched(cached, key, answer_of(reply), windows);
            &&& after.1 is Ok ==> after.0.contains_key(key) && md5_hex(after.0[key].archive)
                == md5_hex(archive)
            &&& after.1 is Err ==> after.0 == cached
            &&& reply is NotModified ==> after.0 == cached
            &&& reply is Archive && runnable(archive, windows) is Ok ==> after.0[key].archive
                == archive && after.1 == Ok::<FetchOutcomeView, FetchFault>(
                FetchOutcomeView::Unpack { archive, steps: runnable(archive, windows)->Ok_0 },
            )
            &&& reply is Archive && runnable(archive, windows) is Err ==> after.1 is Err
        }),
{
}

/// A body that cannot be unpacked for a run never reaches the cache,
/// whatever the status it came with.
pub proof fn lemma_unreadable_body_is_not_kept(
    cached: Map<(Seq<char>, Seq<char>), Cached>,
    key: (Seq<char>, Seq<char>),
    status: u16,
    body: Seq<u8>,
    windows: bool,
)
    requires
        runnable(body, windows) is Err,
    ensures
        fetched(cached, key, Some((status, body)), windows).0 == cached,
        kind_of(status) == StatusKind::Success ==> fetched(
            cached,
            key,
            Some((status, body)),
            windows,
        ).1 is Err,
{
}

/// A client that holds nothing for a task sends the empty digest and is
/// sent the archive.
pub proof fn lemma_first_fetch_transfers(
    cached: Map<(Seq<char>, Seq<char>), Cached>,
    key: (Seq<char>, Seq<char>),
    archive: Seq<u8>,
)
    requires
        !cached.contains_key(key),
    ensures
        digest_sent(cached, key).len() == 0,
        reply_for(digest_sent(cached, key), md5_hex(archive), archive)
            == DownloadReplyView::Archive(archive),
{
}

} // verus!
