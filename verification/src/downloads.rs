//! Download jobs: their states, the table that holds them, and the decisions
//! taken while a file is fetched.

use vstd::prelude::*;
use crate::keyed::{keyed_map, views_of, Keyed, KeyedList};
use crate::model::{clone_opt_string, opt_view, ModelDescriptor, ModelDescriptorView, is_local_gguf};
use crate::paths::{join, join_path};
use crate::requests::{CancelDownloadRequest, HuggingFaceDownloadRequest};
use crate::stamps::Timestamp;
use crate::text::{chars_of, decimal, decimal_string, push_char, push_str, str_eq, string_from};

verus! {

broadcast use vstd::string::group_string_axioms;

// ---------------------------------------------------------------------------
// Jobs
// ---------------------------------------------------------------------------

/// The content of a `DownloadJob`.
pub struct DownloadJobView {
    pub id: Seq<char>,
    pub repo: Seq<char>,
    pub filename: Seq<char>,
    pub status: Seq<char>,
    pub downloaded_bytes: u64,
    pub total_bytes: Option<u64>,
    pub speed_bits: Option<u64>,
    pub eta_seconds: Option<u64>,
    pub local_path: Option<Seq<char>>,
    pub error: Option<Seq<char>>,
    pub cancel_requested: bool,
    pub created_at: Timestamp,
    pub updated_at: Timestamp,
}

/// One download of a file from Hugging Face. The measured speed is carried
/// as the bits of its floating-point value (`f64::to_bits`) and never read
/// here.
pub struct DownloadJob {
    pub id: String,
    pub repo: String,
    pub filename: String,
    pub status: String,
    pub downloaded_bytes: u64,
    pub total_bytes: Option<u64>,
    pub speed_bits: Option<u64>,
    pub eta_seconds: Option<u64>,
    pub local_path: Option<String>,
    pub error: Option<String>,
    pub cancel_requested: bool,
    pub created_at: Timestamp,
    pub updated_at: Timestamp,
}

impl View for DownloadJob {
    type V = DownloadJobView;

    open spec fn view(&self) -> DownloadJobView {
        DownloadJobView {
            id: self.id@,
            repo: self.repo@,
            filename: self.filename@,
            status: self.status@,
            downloaded_bytes: self.downloaded_bytes,
            total_bytes: self.total_bytes,
            speed_bits: self.speed_bits,
            eta_seconds: self.eta_seconds,
            local_path: opt_view(self.local_path),
            error: opt_view(self.error),
            cancel_requested: self.cancel_requested,
            created_at: self.created_at,
            updated_at: self.updated_at,
        }
    }
}

impl Keyed for DownloadJob {
    open spec fn key_of(v: DownloadJobView) -> Seq<char> {
        v.id
    }

    fn key(&self) -> (k: &str) {
        self.id.as_str()
    }

    fn duplicate(&self) -> (r: Self) {
        DownloadJob {
            id: self.id.clone(),
            repo: self.repo.clone(),
            filename: self.filename.clone(),
            status: self.status.clone(),
            downloaded_bytes: self.downloaded_bytes,
            total_bytes: self.total_bytes,
            speed_bits: self.speed_bits,
            eta_seconds: self.eta_seconds,
            local_path: clone_opt_string(&self.local_path),
            error: clone_opt_string(&self.error),
            cancel_requested: self.cancel_requested,
            created_at: self.created_at,
            updated_at: self.updated_at,
        }
    }
}

/// The jobs by id.
pub type DownloadTable = KeyedList<DownloadJob>;

/// A job in one of these states can still be cancelled.
pub open spec fn cancellable(status: Seq<char>) -> bool {
    status == "queued"@ || status == "starting"@ || status == "downloading"@ || status
        == "cancelling"@
}

/// A job in one of these states is over and belongs to the history.
pub open spec fn finished(status: Seq<char>) -> bool {
    status == "downloaded"@ || status == "cancelled"@ || status == "error"@
}

pub fn is_cancellable(status: &str) -> (r: bool)
    ensures
        r == cancellable(status@),
{
    str_eq(status, "queued") || str_eq(status, "starting") || str_eq(status, "downloading")
        || str_eq(status, "cancelling")
}

pub fn is_download_history(status: &str) -> (r: bool)
    ensures
        r == finished(status@),
{
    str_eq(status, "downloaded") || str_eq(status, "cancelled") || str_eq(status, "error")
}

/// The `Range` header that resumes a download after `resume_from` bytes;
/// none for a download that starts from the beginning.
pub fn range_header(resume_from: u64) -> (r: Option<String>)
    ensures
        resume_from == 0 ==> r is None,
        resume_from > 0 ==> opt_view(r) == Some("bytes="@ + decimal(resume_from as nat) + "-"@),
{
    if resume_from > 0 {
        let mut s = string_from("bytes=");
        let d = decimal_string(resume_from);
        push_str(&mut s, d.as_str());
        push_str(&mut s, "-");
        Some(s)
    } else {
        None
    }
}

/// The four bytes every GGUF file starts with.
pub open spec fn gguf_magic() -> Seq<u8> {
    seq![0x47u8, 0x47u8, 0x55u8, 0x46u8]
}

pub fn is_gguf_header(header: &[u8; 4]) -> (r: bool)
    ensures
        r == (header@ == gguf_magic()),
{
    let r = header[0] == 0x47 && header[1] == 0x47 && header[2] == 0x55 && header[3] == 0x46;
    assert(r ==> header@ =~= gguf_magic());
    r
}

// ---------------------------------------------------------------------------
// Where a download goes
// ---------------------------------------------------------------------------

/// `repo.replace('/', "__")`.
pub open spec fn safe_repo(repo: Seq<char>) -> Seq<char>
    decreases repo.len(),
{
    if repo.len() == 0 {
        Seq::empty()
    } else {
        safe_repo(repo.drop_last()) + if repo.last() == '/' {
            seq!['_', '_']
        } else {
            seq![repo.last()]
        }
    }
}

/// The directory and the file a download is written to.
pub struct DownloadTarget {
    pub local_dir: String,
    pub local_path: String,
}

/// A download of `filename` from `repo` goes to the directory named after
/// the repository (each `/` written `__`) inside the models directory.
pub fn download_target(models_directory: &str, repo: &str, filename: &str) -> (r: DownloadTarget)
    ensures
        r.local_dir@ == join(models_directory@, safe_repo(repo@)),
        r.local_path@ == join(join(models_directory@, safe_repo(repo@)), filename@),
{
    let v = chars_of(repo);
    let mut safe = String::new();
    let mut i: usize = 0;
    while i < v.len()
        invariant
            i <= v@.len(),
            v@ == repo@,
            safe@ == safe_repo(v@.take(i as int)),
        decreases v@.len() - i,
    {
        assert(v@.take(i + 1).drop_last() =~= v@.take(i as int));
        if v[i] == '/' {
            push_char(&mut safe, '_');
            push_char(&mut safe, '_');
        } else {
            push_char(&mut safe, v[i]);
        }
        assert(safe@ =~= safe_repo(v@.take(i + 1)));
        i += 1;
    }
    assert(v@.take(i as int) =~= v@);
    let local_dir = join_path(models_directory, safe.as_str());
    let local_path = join_path(local_dir.as_str(), filename);
    DownloadTarget { local_dir, local_path }
}

/// A new download job, queued.
pub fn new_download_job(
    id: String,
    request: &HuggingFaceDownloadRequest,
    local_path: String,
    now: Timestamp,
) -> (j: DownloadJob)
    ensures
        j@ == (DownloadJobView {
            id: id@,
            repo: request.repo@,
            filename: request.filename@,
            status: "queued"@,
            downloaded_bytes: 0,
            total_bytes: request.size_bytes,
            speed_bits: None,
            eta_seconds: None,
            local_path: Some(local_path@),
            error: None,
            cancel_requested: false,
            created_at: now,
            updated_at: now,
        }),
{
    DownloadJob {
        id,
        repo: request.repo.clone(),
        filename: request.filename.clone(),
        status: string_from("queued"),
        downloaded_bytes: 0,
        total_bytes: request.size_bytes,
        speed_bits: None,
        eta_seconds: None,
        local_path: Some(local_path),
        error: None,
        cancel_requested: false,
        created_at: now,
        updated_at: now,
    }
}

// ---------------------------------------------------------------------------
// Changes of state
// ---------------------------------------------------------------------------

pub open spec fn as_downloading(j: DownloadJobView, resume_from: u64, now: Timestamp) -> DownloadJobView {
    DownloadJobView { status: "downloading"@, downloaded_bytes: resume_from, updated_at: now, ..j }
}

pub open spec fn as_cancelling(j: DownloadJobView, now: Timestamp) -> DownloadJobView {
    DownloadJobView { cancel_requested: true, status: "cancelling"@, updated_at: now, ..j }
}

pub open spec fn as_cancelled(j: DownloadJobView, now: Timestamp) -> DownloadJobView {
    DownloadJobView {
        status: "cancelled"@,
        error: None,
        cancel_requested: false,
        updated_at: now,
        ..j
    }
}

pub open spec fn with_progress(
    j: DownloadJobView,
    downloaded: u64,
    total: Option<u64>,
    speed_bits: Option<u64>,
    eta_seconds: Option<u64>,
    now: Timestamp,
) -> DownloadJobView {
    DownloadJobView {
        downloaded_bytes: downloaded,
        total_bytes: total,
        speed_bits: speed_bits,
        eta_seconds: eta_seconds,
        updated_at: now,
        ..j
    }
}

pub open spec fn as_downloaded(
    j: DownloadJobView,
    downloaded: u64,
    total: Option<u64>,
    now: Timestamp,
) -> DownloadJobView {
    DownloadJobView {
        status: "downloaded"@,
        downloaded_bytes: downloaded,
        total_bytes: total,
        speed_bits: None,
        eta_seconds: Some(0),
        updated_at: now,
        ..j
    }
}

pub open spec fn as_failed(j: DownloadJobView, message: Seq<char>, now: Timestamp) -> DownloadJobView {
    DownloadJobView { status: "error"@, error: Some(message), updated_at: now, ..j }
}

pub open spec fn interrupted_message() -> Seq<char> {
    "Download interrupted by application restart."@
}

pub open spec fn as_interrupted(j: DownloadJobView, now: Timestamp) -> DownloadJobView {
    DownloadJobView {
        status: "error"@,
        error: Some(interrupted_message()),
        cancel_requested: false,
        updated_at: now,
        ..j
    }
}

/// The outcome of changing the job `id` into `changed`: the table holds the
/// changed job and a copy is returned; without such a job nothing changes.
pub open spec fn changed_job(
    before: Map<Seq<char>, DownloadJobView>,
    after: Map<Seq<char>, DownloadJobView>,
    id: Seq<char>,
    r: Option<DownloadJob>,
    changed: DownloadJobView,
) -> bool {
    if before.contains_key(id) {
        r matches Some(j) && j@ == changed && after == before.insert(id, changed)
    } else {
        r is None && after == before
    }
}

/// Stores `job` under its id and hands back a copy.
fn store_job(table: &mut DownloadTable, job: DownloadJob) -> (r: DownloadJob)
    requires
        old(table).wf(),
    ensures
        final(table).wf(),
        final(table).map() == old(table).map().insert(job@.id, job@),
        r@ == job@,
{
    let copy = job.duplicate();
    table.insert(job);
    copy
}

/// The job starts (or resumes) fetching, with `resume_from` bytes already on
/// disk.
pub fn mark_downloading(table: &mut DownloadTable, id: &str, resume_from: u64, now: Timestamp) -> (r:
    Option<DownloadJob>)
    requires
        old(table).wf(),
    ensures
        final(table).wf(),
        changed_job(
            old(table).map(),
            final(table).map(),
            id@,
            r,
            as_downloading(old(table).map()[id@], resume_from, now),
        ),
{
    proof {
        table.lemma_map_keys();
    }
    match table.get(id) {
        Some(j) => {
            let mut n = j.duplicate();
            n.status = string_from("downloading");
            n.downloaded_bytes = resume_from;
            n.updated_at = now;
            Some(store_job(table, n))
        },
        None => None,
    }
}

/// Whether the job `id` should stop: it was cancelled, or it is gone.
pub fn download_cancel_requested(table: &DownloadTable, id: &str) -> (r: bool)
    requires
        table.wf(),
    ensures
        r == (!table.map().contains_key(id@) || table.map()[id@].cancel_requested),
{
    match table.get(id) {
        Some(j) => j.cancel_requested,
        None => true,
    }
}

/// The job stopped after a cancellation.
pub fn mark_download_cancelled(table: &mut DownloadTable, id: &str, now: Timestamp) -> (r: Option<
    DownloadJob,
>)
    requires
        old(table).wf(),
    ensures
        final(table).wf(),
        changed_job(old(table).map(), final(table).map(), id@, r, as_cancelled(old(table).map()[id@], now)),
{
    proof {
        table.lemma_map_keys();
    }
    match table.get(id) {
        Some(j) => {
            let mut n = j.duplicate();
            n.status = string_from("cancelled");
            n.error = None;
            n.cancel_requested = false;
            n.updated_at = now;
            Some(store_job(table, n))
        },
        None => None,
    }
}

/// The job fetched more bytes.
pub fn record_download_progress(
    table: &mut DownloadTable,
    id: &str,
    downloaded: u64,
    total: Option<u64>,
    speed_bits: Option<u64>,
    eta_seconds: Option<u64>,
    now: Timestamp,
) -> (r: Option<DownloadJob>)
    requires
        old(table).wf(),
    ensures
        final(table).wf(),
        changed_job(
            old(table).map(),
            final(table).map(),
            id@,
            r,
            with_progress(old(table).map()[id@], downloaded, total, speed_bits, eta_seconds, now),
        ),
{
    proof {
        table.lemma_map_keys();
    }
    match table.get(id) {
        Some(j) => {
            let mut n = j.duplicate();
            n.downloaded_bytes = downloaded;
            n.total_bytes = total;
            n.speed_bits = speed_bits;
            n.eta_seconds = eta_seconds;
            n.updated_at = now;
            Some(store_job(table, n))
        },
        None => None,
    }
}

/// The file is complete and registered.
pub fn mark_download_finished(
    table: &mut DownloadTable,
    id: &str,
    downloaded: u64,
    total: Option<u64>,
    now: Timestamp,
) -> (r: Option<DownloadJob>)
    requires
        old(table).wf(),
    ensures
        final(table).wf(),
        changed_job(
            old(table).map(),
            final(table).map(),
            id@,
            r,
            as_downloaded(old(table).map()[id@], downloaded, total, now),
        ),
{
    proof {
        table.lemma_map_keys();
    }
    match table.get(id) {
        Some(j) => {
            let mut n = j.duplicate();
            n.status = string_from("downloaded");
            n.downloaded_bytes = downloaded;
            n.total_bytes = total;
            n.speed_bits = None;
            n.eta_seconds = Some(0);
            n.updated_at = now;
            Some(store_job(table, n))
        },
        None => None,
    }
}

/// The download failed with `message`.
pub fn mark_download_failed(table: &mut DownloadTable, id: &str, message: &str, now: Timestamp) -> (r:
    Option<DownloadJob>)
    requires
        old(table).wf(),
    ensures
        final(table).wf(),
        changed_job(
            old(table).map(),
            final(table).map(),
            id@,
            r,
            as_failed(old(table).map()[id@], message@, now),
        ),
{
    proof {
        table.lemma_map_keys();
    }
    match table.get(id) {
        Some(j) => {
            let mut n = j.duplicate();
            n.status = string_from("error");
            n.error = Some(string_from(message));
            n.updated_at = now;
            Some(store_job(table, n))
        },
        None => None,
    }
}

// ---------------------------------------------------------------------------
// Selecting, cancelling and discarding jobs
// ---------------------------------------------------------------------------

/// The first job of `jobs` for `filename` of `repo` (and, with
/// `only_cancellable`, still cancellable).
pub open spec fn first_for_file(
    jobs: Seq<DownloadJobView>,
    repo: Seq<char>,
    filename: Seq<char>,
    only_cancellable: bool,
) -> Option<int>
    decreases jobs.len(),
{
    if jobs.len() == 0 {
        None
    } else {
        match first_for_file(jobs.drop_last(), repo, filename, only_cancellable) {
            Some(i) => Some(i),
            None => {
                let j = jobs.last();
                if j.repo == repo && j.filename == filename && (!only_cancellable || cancellable(
                    j.status,
                )) {
                    Some(jobs.len() - 1)
                } else {
                    None
                }
            },
        }
    }
}

/// The job a request selects: the one with its id, else the first (by id)
/// for its repository and file.
pub open spec fn selected_job(
    listing: Seq<DownloadJobView>,
    jobs: Map<Seq<char>, DownloadJobView>,
    request: CancelDownloadRequest,
    only_cancellable: bool,
) -> Option<DownloadJobView> {
    match request.job_id {
        Some(id) => if jobs.contains_key(id@) {
            Some(jobs[id@])
        } else {
            None
        },
        None => match (request.repo, request.filename) {
            (Some(r), Some(f)) => match first_for_file(listing, r@, f@, only_cancellable) {
                Some(i) => Some(listing[i]),
                None => None,
            },
            _ => None,
        },
    }
}

proof fn lemma_first_for_file(
    jobs: Seq<DownloadJobView>,
    repo: Seq<char>,
    filename: Seq<char>,
    only_cancellable: bool,
)
    ensures
        first_for_file(jobs, repo, filename, only_cancellable) matches Some(i) ==> 0 <= i
            < jobs.len() && jobs[i].repo == repo && jobs[i].filename == filename && (
        !only_cancellable || cancellable(jobs[i].status)) && forall|k: int|
            0 <= k < i ==> !(jobs[k].repo == repo && jobs[k].filename == filename && (
            !only_cancellable || cancellable(jobs[k].status))),
        first_for_file(jobs, repo, filename, only_cancellable) is None ==> forall|k: int|
            0 <= k < jobs.len() ==> !(jobs[k].repo == repo && jobs[k].filename == filename && (
            !only_cancellable || cancellable(jobs[k].status))),
    decreases jobs.len(),
{
    if jobs.len() > 0 {
        let t = jobs.drop_last();
        lemma_first_for_file(t, repo, filename, only_cancellable);
        assert forall|k: int| 0 <= k < t.len() implies jobs[k] == t[k] by {}
    }
}

/// Finds the job for a file, in id order.
fn find_for_file(jobs: &[DownloadJob], repo: &str, filename: &str, only_cancellable: bool) -> (r:
    Option<usize>)
    ensures
        r matches Some(i) ==> first_for_file(views_of(jobs@), repo@, filename@, only_cancellable)
            == Some(i as int),
        r is None ==> first_for_file(views_of(jobs@), repo@, filename@, only_cancellable) is None,
{
    let ghost s = views_of(jobs@);
    proof {
        lemma_first_for_file(s, repo@, filename@, only_cancellable);
    }
    let mut i: usize = 0;
    while i < jobs.len()
        invariant
            i <= jobs@.len(),
            s == views_of(jobs@),
            forall|k: int|
                0 <= k < i ==> !(s[k].repo == repo@ && s[k].filename == filename@ && (
                !only_cancellable || cancellable(s[k].status))),
        decreases jobs@.len() - i,
    {
        let j = &jobs[i];
        assert(s[i as int] == j@);
        if str_eq(j.repo.as_str(), repo) && str_eq(j.filename.as_str(), filename) && (
        !only_cancellable || is_cancellable(j.status.as_str())) {
            assert(s[i as int].repo == repo@ && s[i as int].filename == filename@ && (
            !only_cancellable || cancellable(s[i as int].status)));
            proof {
                lemma_first_for_file(s, repo@, filename@, only_cancellable);
                match first_for_file(s, repo@, filename@, only_cancellable) {
                    Some(f) => {
                        if f < i {
                        } else if f > i {
                        }
                    },
                    None => {},
                }
            }
            return Some(i);
        }
        i += 1;
    }
    proof {
        lemma_first_for_file(s, repo@, filename@, only_cancellable);
        if first_for_file(s, repo@, filename@, only_cancellable) is Some {
            let f = first_for_file(s, repo@, filename@, only_cancellable)->0;
            assert(!(s[f].repo == repo@ && s[f].filename == filename@ && (!only_cancellable
                || cancellable(s[f].status))));
        }
    }
    None
}

/// The index in `table`'s listing of the job `request` selects.
fn select_job(table: &DownloadTable, request: &CancelDownloadRequest, only_cancellable: bool) -> (r:
    Option<DownloadJob>)
    requires
        table.wf(),
    ensures
        match r {
            Some(j) => selected_job(table.listing(), table.map(), *request, only_cancellable)
                == Some(j@),
            None => selected_job(table.listing(), table.map(), *request, only_cancellable) is None,
        },
{
    match &request.job_id {
        Some(id) => match table.get(id.as_str()) {
            Some(j) => Some(j.duplicate()),
            None => None,
        },
        None => match (&request.repo, &request.filename) {
            (Some(repo), Some(filename)) => {
                let jobs = table.as_slice();
                proof {
                    lemma_first_for_file(views_of(jobs@), repo@, filename@, only_cancellable);
                }
                match find_for_file(jobs, repo.as_str(), filename.as_str(), only_cancellable) {
                    Some(i) => {
                        assert(views_of(jobs@)[i as int] == jobs@[i as int]@);
                        Some(jobs[i].duplicate())
                    },
                    None => None,
                }
            },
            _ => None,
        },
    }
}

/// Why a selected job could not be cancelled or discarded.
pub enum DownloadJobError {
    NotFound,
    NotCancellable(String),
}

impl DownloadJobError {
    pub fn message(&self) -> (m: String)
        ensures
            self is NotFound ==> m@ == "download job not found"@,
            self matches DownloadJobError::NotCancellable(s) ==> m@
                == "download is not cancellable: "@ + s@,
    {
        match self {
            DownloadJobError::NotFound => string_from("download job not found"),
            DownloadJobError::NotCancellable(s) => {
                let mut m = string_from("download is not cancellable: ");
                push_str(&mut m, s.as_str());
                m
            },
        }
    }
}

/// Asks the selected job to stop. By file, only a cancellable job is
/// selected; by id, a job that can no longer be cancelled is refused with
/// its state.
pub fn cancel_download(table: &mut DownloadTable, request: &CancelDownloadRequest, now: Timestamp) -> (r:
    Result<DownloadJob, DownloadJobError>)
    requires
        old(table).wf(),
    ensures
        final(table).wf(),
        match selected_job(old(table).listing(), old(table).map(), *request, true) {
            Some(j) => if cancellable(j.status) {
                r matches Ok(c) && c@ == as_cancelling(j, now) && final(table).map() == old(table).map().insert(j.id, as_cancelling(j, now))
            } else {
                r matches Err(DownloadJobError::NotCancellable(s)) && s@ == j.status && final(table).map() == old(table).map()
            },
            None => r matches Err(DownloadJobError::NotFound) && final(table).map() == old(table).map(),
        },
{
    match select_job(table, request, true) {
        Some(j) => {
            if is_cancellable(j.status.as_str()) {
                let mut n = j;
                n.cancel_requested = true;
                n.status = string_from("cancelling");
                n.updated_at = now;
                Ok(store_job(table, n))
            } else {
                Err(DownloadJobError::NotCancellable(j.status))
            }
        },
        None => Err(DownloadJobError::NotFound),
    }
}

/// Removes the selected job; a job still running is returned marked as
/// cancelling, so that its fetch stops.
pub fn discard_download(table: &mut DownloadTable, request: &CancelDownloadRequest, now: Timestamp) -> (r:
    Result<DownloadJob, DownloadJobError>)
    requires
        old(table).wf(),
    ensures
        final(table).wf(),
        match selected_job(old(table).listing(), old(table).map(), *request, false) {
            Some(j) => (r matches Ok(d) && d@ == (if cancellable(j.status) {
                as_cancelling(j, now)
            } else {
                j
            })) && final(table).map() == old(table).map().remove(j.id),
            None => r matches Err(DownloadJobError::NotFound) && final(table).map() == old(table).map(),
        },
{
    match select_job(table, request, false) {
        Some(j) => {
            table.remove(j.id.as_str());
            if is_cancellable(j.status.as_str()) {
                let mut n = j;
                n.cancel_requested = true;
                n.status = string_from("cancelling");
                n.updated_at = now;
                Ok(n)
            } else {
                Ok(j)
            }
        },
        None => Err(DownloadJobError::NotFound),
    }
}

// ---------------------------------------------------------------------------
// History and restarts
// ---------------------------------------------------------------------------

pub open spec fn listed_before(jobs: Seq<DownloadJobView>, n: int, id: Seq<char>) -> bool {
    exists|j: int| 0 <= j < n && #[trigger] jobs[j].id == id
}

/// Removes every finished job; returns how many were removed.
pub fn clear_download_history(table: &mut DownloadTable) -> (cleared: usize)
    requires
        old(table).wf(),
    ensures
        final(table).wf(),
        forall|k: Seq<char>|
            #[trigger] final(table).map().contains_key(k) <==> old(table).map().contains_key(k)
                && !finished(old(table).map()[k].status),
        forall|k: Seq<char>|
            #[trigger] final(table).map().contains_key(k) ==> final(table).map()[k] == old(
                table,
            ).map()[k],
        cleared == old(table).map().dom().len() - final(table).map().dom().len(),
{
    let ghost m0 = table.map();
    proof {
        table.lemma_listing();
    }
    let jobs = table.values();
    let ghost l = views_of(jobs@);
    proof {
        assert forall|j: int| 0 <= j < l.len() implies #[trigger] m0.contains_key(l[j].id)
            && m0[l[j].id] == l[j] by {
            assert(table.map().contains_key(DownloadJob::key_of(table.listing()[j])));
        }
        assert forall|a: int, b: int| 0 <= a < b < l.len() implies l[a].id != l[b].id by {
            assert(crate::text::lex_lt(DownloadJob::key_of(l[a]), DownloadJob::key_of(l[b])));
            crate::text::lemma_lex_irreflexive(l[a].id);
        }
    }
    let mut cleared: usize = 0;
    let mut i: usize = 0;
    while i < jobs.len()
        invariant
            i <= jobs@.len(),
            l == views_of(jobs@),
            table.wf(),
            table.map().dom().finite(),
            m0.dom().finite(),
            l.len() == m0.dom().len(),
            forall|j: int| 0 <= j < l.len() ==> #[trigger] m0.contains_key(l[j].id) && m0[l[j].id]
                == l[j],
            forall|a: int, b: int| 0 <= a < b < l.len() ==> l[a].id != l[b].id,
            forall|k: Seq<char>|
                #[trigger] table.map().contains_key(k) <==> m0.contains_key(k) && !(finished(
                    m0[k].status,
                ) && listed_before(l, i as int, k)),
            forall|k: Seq<char>| #[trigger]
                table.map().contains_key(k) ==> table.map()[k] == m0[k],
            table.map().dom().len() + cleared == m0.dom().len(),
        decreases jobs@.len() - i,
    {
        let j = &jobs[i];
        assert(l[i as int] == j@);
        let ghost before = table.map();
        if is_download_history(j.status.as_str()) {
            assert(before.contains_key(j@.id)) by {
                if !before.contains_key(j@.id) {
                    assert(listed_before(l, i as int, j@.id));
                    let w = choose|w: int| 0 <= w < i && #[trigger] l[w].id == j@.id;
                    assert(l[w].id != l[i as int].id);
                }
            }
            table.remove(j.id.as_str());
            proof {
                table.lemma_listing();
                assert(table.map().dom() == before.dom().remove(j@.id));
            }
            cleared += 1;
        }
        proof {
            assert forall|k: Seq<char>|
                #[trigger] table.map().contains_key(k) <==> m0.contains_key(k) && !(finished(
                    m0[k].status,
                ) && listed_before(l, i + 1, k)) by {
                if listed_before(l, i + 1, k) && !listed_before(l, i as int, k) {
                    let w = choose|w: int| 0 <= w < i + 1 && #[trigger] l[w].id == k;
                    assert(w == i);
                }
                if listed_before(l, i as int, k) {
                    let w = choose|w: int| 0 <= w < i && #[trigger] l[w].id == k;
                    assert(listed_before(l, i + 1, k));
                }
                if k == j@.id {
                    assert(listed_before(l, i + 1, k));
                }
            }
        }
        i += 1;
    }
    proof {
        assert forall|k: Seq<char>|
            #[trigger] table.map().contains_key(k) <==> m0.contains_key(k) && !finished(
                m0[k].status,
            ) by {
            if m0.contains_key(k) {
                let w = choose|w: int| 0 <= w < l.len() && l[w].id == k;
                assert(listed_before(l, l.len() as int, k));
            }
        }
    }
    cleared
}

/// A job found at start-up: one that was still running was interrupted.
pub open spec fn restored(j: DownloadJobView, now: Timestamp) -> DownloadJobView {
    if cancellable(j.status) {
        as_interrupted(j, now)
    } else {
        j
    }
}

pub open spec fn restored_all(s: Seq<DownloadJobView>, now: Timestamp) -> Seq<DownloadJobView> {
    Seq::new(s.len(), |i: int| restored(s[i], now))
}

/// The jobs that were interrupted, as restored.
pub open spec fn interrupted_jobs(s: Seq<DownloadJobView>, now: Timestamp) -> Seq<DownloadJobView>
    decreases s.len(),
{
    if s.len() == 0 {
        Seq::empty()
    } else {
        let r = interrupted_jobs(s.drop_last(), now);
        if cancellable(s.last().status) {
            r.push(as_interrupted(s.last(), now))
        } else {
            r
        }
    }
}

/// The jobs of the last run, and those of them that were interrupted.
pub struct RestoredDownloads {
    pub table: DownloadTable,
    pub interrupted: Vec<DownloadJob>,
}

/// Rebuilds the table from the stored jobs: a job that was still running
/// when the application stopped is marked as failed.
pub fn restore_download_jobs(jobs: Vec<DownloadJob>, now: Timestamp) -> (r: RestoredDownloads)
    ensures
        r.table.wf(),
        r.table.map() == keyed_map::<DownloadJob>(restored_all(views_of(jobs@), now)),
        views_of(r.interrupted@) == interrupted_jobs(views_of(jobs@), now),
{
    let ghost s = views_of(jobs@);
    let mut table: DownloadTable = KeyedList::new();
    let mut interrupted: Vec<DownloadJob> = Vec::new();
    let mut i: usize = 0;
    proof {
        assert(restored_all(s, now).take(0) =~= Seq::<DownloadJobView>::empty());
    }
    while i < jobs.len()
        invariant
            i <= jobs@.len(),
            s == views_of(jobs@),
            table.wf(),
            table.map() == keyed_map::<DownloadJob>(restored_all(s, now).take(i as int)),
            views_of(interrupted@) == interrupted_jobs(s.take(i as int), now),
        decreases jobs@.len() - i,
    {
        let j = &jobs[i];
        assert(s[i as int] == j@);
        assert(s.take(i + 1).drop_last() =~= s.take(i as int));
        assert(restored_all(s, now).take(i + 1).drop_last() =~= restored_all(s, now).take(
            i as int,
        ));
        let mut n = j.duplicate();
        if is_cancellable(j.status.as_str()) {
            n.status = string_from("error");
            n.error = Some(string_from("Download interrupted by application restart."));
            n.cancel_requested = false;
            n.updated_at = now;
            let ghost before = views_of(interrupted@);
            interrupted.push(n.duplicate());
            assert(views_of(interrupted@) =~= before.push(n@));
        }
        table.insert(n);
        i += 1;
    }
    assert(s.take(i as int) =~= s);
    assert(restored_all(s, now).take(i as int) =~= restored_all(s, now));
    RestoredDownloads { table, interrupted }
}

// ---------------------------------------------------------------------------
// Decisions while fetching
// ---------------------------------------------------------------------------

/// The bytes the download counts as already fetched: a partial file is only
/// continued when the server answers `206 Partial Content`.
pub open spec fn resume_start(resume_from: u64, status: u16) -> u64 {
    if resume_from > 0 && status != 206 {
        0
    } else {
        resume_from
    }
}

/// How a fetch goes on once the server has answered.
pub struct ResumePlan {
    /// The partial file is dropped and the download starts over.
    pub restart: bool,
    /// The bytes counted as fetched before the body.
    pub downloaded_start: u64,
    /// The size the file will have, if known.
    pub total: Option<u64>,
}

/// The plan for a fetch that found `resume_from` bytes on disk and got
/// `status`, with the body's length if the server sent it.
pub fn resume_plan(
    resume_from: u64,
    status: u16,
    content_length: Option<u64>,
    size_bytes: Option<u64>,
) -> (r: ResumePlan)
    requires
        content_length matches Some(l) ==> l + resume_start(resume_from, status) <= u64::MAX,
    ensures
        r.restart == (resume_from > 0 && status != 206),
        r.downloaded_start == resume_start(resume_from, status),
        r.total == match content_length {
            Some(l) => Some((l + resume_start(resume_from, status)) as u64),
            None => size_bytes,
        },
{
    let resumes = resume_from > 0 && status == 206;
    let start = if resume_from > 0 && !resumes {
        0
    } else {
        resume_from
    };
    let total = match content_length {
        Some(l) => Some(l + start),
        None => size_bytes,
    };
    ResumePlan { restart: resume_from > 0 && !resumes, downloaded_start: start, total }
}

/// A fetch refused with `401` or `403` fails with the access message.
pub fn download_refusal(status: u16, repo: &str) -> (r: Option<String>)
    ensures
        (status == 401 || status == 403) ==> opt_view(r) == Some(
            crate::hub_access::access_message(status, crate::hub_access::status_text(status), repo@),
        ),
        !(status == 401 || status == 403) ==> r is None,
{
    if status == 401 || status == 403 {
        Some(crate::hub_access::access_message_with_text(status, "", repo))
    } else {
        None
    }
}

pub open spec fn size_mismatch(expected: u64, got: u64) -> Seq<char> {
    "downloaded file size mismatch: expected "@ + decimal(expected as nat) + " bytes, got "@
        + decimal(got as nat)
}

fn size_mismatch_message(expected: u64, got: u64) -> (m: String)
    ensures
        m@ == size_mismatch(expected, got),
{
    let mut m = string_from("downloaded file size mismatch: expected ");
    push_str(&mut m, decimal_string(expected).as_str());
    push_str(&mut m, " bytes, got ");
    push_str(&mut m, decimal_string(got).as_str());
    m
}

/// The fetched byte count must be the expected size, when one is known.
pub fn check_downloaded_size(total: Option<u64>, downloaded: u64) -> (r: Result<(), String>)
    ensures
        match total {
            Some(e) => if downloaded != e {
                r matches Err(m) && m@ == size_mismatch(e, downloaded)
            } else {
                r is Ok
            },
            None => r is Ok,
        },
{
    match total {
        Some(e) => if downloaded != e {
            Err(size_mismatch_message(e, downloaded))
        } else {
            Ok(())
        },
        None => Ok(()),
    }
}

/// The size check of a downloaded file (`size`: its length, or why it could
/// not be read).
pub fn check_downloaded_file_size(size: Result<u64, String>, expected: Option<u64>) -> (r: Result<
    (),
    String,
>)
    ensures
        match size {
            Err(e) => r matches Err(m) && m@ == "downloaded file is missing: "@ + e@,
            Ok(n) => if n == 0 {
                r matches Err(m) && m@ == "downloaded file is empty"@
            } else {
                match expected {
                    Some(e) => if n != e {
                        r matches Err(m) && m@ == size_mismatch(e, n)
                    } else {
                        r is Ok
                    },
                    None => r is Ok,
                }
            },
        },
{
    match size {
        Err(e) => {
            let mut m = string_from("downloaded file is missing: ");
            push_str(&mut m, e.as_str());
            Err(m)
        },
        Ok(n) => if n == 0 {
            Err(string_from("downloaded file is empty"))
        } else {
            check_downloaded_size(expected, n)
        },
    }
}

/// How reading the first four bytes of a file went.
pub enum GgufHeaderRead {
    Read([u8; 4]),
    OpenFailed(String),
    TooShort(String),
}

/// The header check of a downloaded file.
pub fn check_downloaded_header(read: &GgufHeaderRead) -> (r: Result<(), String>)
    ensures
        match read {
            GgufHeaderRead::Read(h) => if h@ == gguf_magic() {
                r is Ok
            } else {
                r matches Err(m) && m@ == "downloaded file is not a GGUF file"@
            },
            GgufHeaderRead::OpenFailed(e) => r matches Err(m) && m@ == e@,
            GgufHeaderRead::TooShort(e) => r matches Err(m) && m@
                == "downloaded file is too small for a GGUF header: "@ + e@,
        },
{
    match read {
        GgufHeaderRead::Read(h) => if is_gguf_header(h) {
            Ok(())
        } else {
            Err(string_from("downloaded file is not a GGUF file"))
        },
        GgufHeaderRead::OpenFailed(e) => Err(e.clone()),
        GgufHeaderRead::TooShort(e) => {
            let mut m = string_from("downloaded file is too small for a GGUF header: ");
            push_str(&mut m, e.as_str());
            Err(m)
        },
    }
}

/// The id a downloaded model is registered under: the requested one, else
/// `repo:filename`.
pub open spec fn downloaded_model_id(
    model_id: Option<Seq<char>>,
    repo: Seq<char>,
    filename: Seq<char>,
) -> Seq<char> {
    match model_id {
        Some(id) => id,
        None => repo + seq![':'] + filename,
    }
}

/// The shape of the descriptor of a downloaded model.
pub open spec fn is_downloaded_model(
    m: ModelDescriptorView,
    id: Seq<char>,
    repo: Seq<char>,
    path: Seq<char>,
    total: Option<u64>,
) -> bool {
    &&& is_local_gguf(
        ModelDescriptorView {
            source: seq!['l', 'o', 'c', 'a', 'l'],
            repo: None,
            size_bytes: None,
            ..m
        },
        id,
        path,
    )
    &&& m.source == "huggingface"@
    &&& m.repo == Some(repo)
    &&& m.size_bytes == total
}

/// The descriptor registered for a finished download.
pub fn downloaded_model(
    model_id: Option<String>,
    repo: &str,
    filename: &str,
    local_path: &str,
    total: Option<u64>,
) -> (m: ModelDescriptor)
    ensures
        is_downloaded_model(
            m@,
            downloaded_model_id(opt_view(model_id), repo@, filename@),
            repo@,
            local_path@,
            total,
        ),
{
    let id = match model_id {
        Some(id) => id,
        None => {
            let mut id = string_from(repo);
            push_char(&mut id, ':');
            push_str(&mut id, filename);
            assert(id@ =~= repo@ + seq![':'] + filename@);
            id
        },
    };
    let mut m = ModelDescriptor::local_gguf(id.as_str(), local_path);
    let ghost m0 = m@;
    m.source = string_from("huggingface");
    m.repo = Some(string_from(repo));
    m.size_bytes = total;
    assert(ModelDescriptorView {
        source: seq!['l', 'o', 'c', 'a', 'l'],
        repo: None,
        size_bytes: None,
        ..m@
    } == m0);
    m
}

// ---------------------------------------------------------------------------
// Laws
// ---------------------------------------------------------------------------

/// A job that was asked to stop reports it: once `cancel_download` has
/// stored the cancelling job, `download_cancel_requested` answers `true` for
/// it, and the job can still be cancelled again.
pub proof fn law_cancelled_job_stops(
    jobs: Map<Seq<char>, DownloadJobView>,
    job: DownloadJobView,
    now: Timestamp,
)
    ensures
        ({
            let after = jobs.insert(job.id, as_cancelling(job, now));
            &&& after.contains_key(job.id)
            &&& after[job.id].cancel_requested
            &&& cancellable(after[job.id].status)
        }),
{
}

/// After a restart no job is left running: every restored job is either
/// finished as it was or marked as failed.
pub proof fn law_restored_jobs_not_running(jobs: Seq<DownloadJobView>, now: Timestamp)
    ensures
        forall|i: int|
            0 <= i < restored_all(jobs, now).len() ==> !cancellable(
                #[trigger] restored_all(jobs, now)[i].status,
            ),
{
    assert forall|i: int| 0 <= i < restored_all(jobs, now).len() implies !cancellable(
        #[trigger] restored_all(jobs, now)[i].status,
    ) by {
        if cancellable(jobs[i].status) {
            let st = restored_all(jobs, now)[i].status;
            assert(st == "error"@);
            reveal_strlit("error");
            reveal_strlit("queued");
            reveal_strlit("starting");
            reveal_strlit("downloading");
            reveal_strlit("cancelling");
            assert(st.len() == 5);
            assert(st != "queued"@ && st != "starting"@ && st != "downloading"@);
            assert(st[0] == 'e');
            assert("cancelling"@[0] == 'c');
        }
    }
}

/// Clearing the history leaves only jobs that are not finished.
pub proof fn law_history_cleared(
    before: Map<Seq<char>, DownloadJobView>,
    after: Map<Seq<char>, DownloadJobView>,
)
    requires
        forall|k: Seq<char>|
            #[trigger] after.contains_key(k) <==> before.contains_key(k) && !finished(
                before[k].status,
            ),
        forall|k: Seq<char>| #[trigger] after.contains_key(k) ==> after[k] == before[k],
    ensures
        forall|k: Seq<char>| #[trigger] after.contains_key(k) ==> !finished(after[k].status),
        forall|k: Seq<char>|
            #[trigger] before.contains_key(k) && cancellable(before[k].status)
                ==> after.contains_key(k),
{
    assert forall|k: Seq<char>|
        #[trigger] before.contains_key(k) && cancellable(before[k].status) implies after.contains_key(k) by {
        let st = before[k].status;
        if finished(st) {
            reveal_strlit("downloaded");
            reveal_strlit("cancelled");
            reveal_strlit("error");
            reveal_strlit("queued");
            reveal_strlit("starting");
            reveal_strlit("downloading");
            reveal_strlit("cancelling");
            if st == "downloaded"@ {
                assert(st.len() == 10 && st[0] == 'd' && st[4] == 'l');
                assert("downloading"@.len() == 11);
                assert("cancelling"@[0] == 'c');
            } else if st == "cancelled"@ {
                assert(st.len() == 9);
            } else {
                assert(st.len() == 5 && st[0] == 'e');
            }
        }
    }
}

} // verus!
