//! The records that the components exchange, each with its mathematical view.
//! Instants are whole seconds since the Unix epoch, UTC.

use vstd::prelude::*;
use vstd::string::*;

verus! {

/// The views of a sequence of strings.
pub open spec fn strings_view(v: Seq<String>) -> Seq<Seq<char>> {
    v.map_values(|s: String| s@)
}

/// A copy of a list of strings.
pub fn clone_strings(v: &Vec<String>) -> (r: Vec<String>)
    ensures
        strings_view(r@) == strings_view(v@),
{
    let mut r: Vec<String> = Vec::new();
    let mut i: usize = 0;
    while i < v.len()
        invariant
            i <= v.len(),
            r.len() == i,
            forall|j: int| 0 <= j < i ==> r@[j]@ == v@[j]@,
        decreases v.len() - i,
    {
        r.push(v[i].clone());
        i += 1;
    }
    assert(strings_view(r@) =~= strings_view(v@));
    r
}

/// Where a certificate was found: the backend's configured name and a path
/// that only that backend interprets.
#[derive(Debug)]
pub struct PathObject {
    pub backend: String,
    pub path: String,
}

pub struct PathObjectView {
    pub backend: Seq<char>,
    pub path: Seq<char>,
}

impl View for PathObject {
    type V = PathObjectView;

    open spec fn view(&self) -> PathObjectView {
        PathObjectView { backend: self.backend@, path: self.path@ }
    }
}

impl Clone for PathObject {
    fn clone(&self) -> (r: Self)
        ensures
            r@ == self@,
    {
        PathObject { backend: self.backend.clone(), path: self.path.clone() }
    }
}

/// The views of a sequence of path references.
pub open spec fn paths_view(v: Seq<PathObject>) -> Seq<PathObjectView> {
    v.map_values(|p: PathObject| p@)
}

/// A copy of a list of path references.
pub fn clone_paths(v: &Vec<PathObject>) -> (r: Vec<PathObject>)
    ensures
        paths_view(r@) == paths_view(v@),
{
    let mut r: Vec<PathObject> = Vec::new();
    let mut i: usize = 0;
    while i < v.len()
        invariant
            i <= v.len(),
            r.len() == i,
            forall|j: int| 0 <= j < i ==> r@[j]@ == v@[j]@,
        decreases v.len() - i,
    {
        r.push(v[i].clone());
        i += 1;
    }
    assert(paths_view(r@) =~= paths_view(v@));
    r
}

/// A known certificate as clients see it.
#[derive(Debug)]
pub struct CacheItem {
    pub subject: String,
    pub not_after: i64,
    pub paths: Vec<PathObject>,
}

pub struct CacheItemView {
    pub subject: Seq<char>,
    pub not_after: int,
    pub paths: Seq<PathObjectView>,
}

impl View for CacheItem {
    type V = CacheItemView;

    open spec fn view(&self) -> CacheItemView {
        CacheItemView {
            subject: self.subject@,
            not_after: self.not_after as int,
            paths: paths_view(self.paths@),
        }
    }
}

impl Clone for CacheItem {
    fn clone(&self) -> (r: Self)
        ensures
            r@ == self@,
    {
        CacheItem {
            subject: self.subject.clone(),
            not_after: self.not_after,
            paths: clone_paths(&self.paths),
        }
    }
}

/// The views of a sequence of cache items.
pub open spec fn items_view(v: Seq<CacheItem>) -> Seq<CacheItemView> {
    v.map_values(|c: CacheItem| c@)
}

/// A known certificate as the cache stores it: identified by the SHA-1
/// fingerprint of its DER encoding, with every place it was found.
#[derive(Debug)]
pub struct CacheObject {
    pub subject: String,
    pub not_after: i64,
    pub sha1: String,
    pub paths: Vec<PathObject>,
}

pub struct CacheObjectView {
    pub subject: Seq<char>,
    pub not_after: int,
    pub sha1: Seq<char>,
    pub paths: Seq<PathObjectView>,
}

impl CacheObjectView {
    /// The part of a stored certificate that clients see.
    pub open spec fn item(self) -> CacheItemView {
        CacheItemView { subject: self.subject, not_after: self.not_after, paths: self.paths }
    }
}

impl View for CacheObject {
    type V = CacheObjectView;

    open spec fn view(&self) -> CacheObjectView {
        CacheObjectView {
            subject: self.subject@,
            not_after: self.not_after as int,
            sha1: self.sha1@,
            paths: paths_view(self.paths@),
        }
    }
}

impl Clone for CacheObject {
    fn clone(&self) -> (r: Self)
        ensures
            r@ == self@,
    {
        CacheObject {
            subject: self.subject.clone(),
            not_after: self.not_after,
            sha1: self.sha1.clone(),
            paths: clone_paths(&self.paths),
        }
    }
}

impl CacheObject {
    /// The part of this certificate that clients see.
    pub fn to_item(&self) -> (r: CacheItem)
        ensures
            r@ == self@.item(),
    {
        CacheItem {
            subject: self.subject.clone(),
            not_after: self.not_after,
            paths: clone_paths(&self.paths),
        }
    }
}

/// What one refresh did.
#[derive(Clone, Copy, Debug, PartialEq, Eq, Structural)]
pub struct PopulateStats {
    pub num_certs: usize,
    pub num_paths: usize,
    pub duration_ms: u64,
}

/// The answer to a request for server information.
#[derive(Debug)]
pub struct InfoResponse {
    pub version: String,
    pub auth_required: bool,
}

/// A login attempt.
#[derive(Debug)]
pub struct AuthRequest {
    pub username: String,
    pub password: String,
}

/// A granted session: its token and the instant it expires.
#[derive(Debug)]
pub struct AuthResponse {
    pub token: String,
    pub expires_at: i64,
}

/// The scheduler's load.
#[derive(Clone, Copy, Debug, PartialEq, Eq, Structural)]
pub struct SchedulerInfo {
    pub workers: usize,
    pub pending_tasks: usize,
    pub running_tasks: usize,
}

/// A unit of work for the scheduler.
#[derive(Debug)]
pub enum Task {
    RefreshBackend { backend_name: String },
    RenewAuthToken { backend_name: String },
}

pub enum TaskView {
    RefreshBackend { backend_name: Seq<char> },
    RenewAuthToken { backend_name: Seq<char> },
}

impl View for Task {
    type V = TaskView;

    open spec fn view(&self) -> TaskView {
        match self {
            Task::RefreshBackend { backend_name } => TaskView::RefreshBackend {
                backend_name: backend_name@,
            },
            Task::RenewAuthToken { backend_name } => TaskView::RenewAuthToken {
                backend_name: backend_name@,
            },
        }
    }
}

impl Clone for Task {
    fn clone(&self) -> (r: Self)
        ensures
            r@ == self@,
    {
        match self {
            Task::RefreshBackend { backend_name } => Task::RefreshBackend {
                backend_name: backend_name.clone(),
            },
            Task::RenewAuthToken { backend_name } => Task::RenewAuthToken {
                backend_name: backend_name.clone(),
            },
        }
    }
}

/// Where a task stands: `Pending`, then `Running`, then `Completed` or `Failed`.
#[derive(Clone, Copy, Debug, PartialEq, Eq, Structural)]
pub enum TaskStatus {
    Pending,
    Running,
    Completed,
    Failed,
}

/// A task with its identity, its times and its status.
#[derive(Debug)]
pub struct TaskInfo {
    pub id: String,
    pub task: Task,
    pub created_at: i64,
    pub started_at: Option<i64>,
    pub completed_at: Option<i64>,
    pub status: TaskStatus,
    pub error: Option<String>,
}

pub struct TaskInfoView {
    pub id: Seq<char>,
    pub task: TaskView,
    pub created_at: int,
    pub started_at: Option<int>,
    pub completed_at: Option<int>,
    pub status: TaskStatus,
    pub error: Option<Seq<char>>,
}

/// An optional instant as a mathematical integer.
pub open spec fn instant_view(t: Option<i64>) -> Option<int> {
    match t {
        Some(v) => Some(v as int),
        None => None,
    }
}

/// An optional string as its characters.
pub open spec fn text_view(t: Option<String>) -> Option<Seq<char>> {
    match t {
        Some(v) => Some(v@),
        None => None,
    }
}

/// A copy of an optional string.
pub fn clone_text(t: &Option<String>) -> (r: Option<String>)
    ensures
        text_view(r) == text_view(*t),
{
    match t {
        Some(v) => Some(v.clone()),
        None => None,
    }
}

impl View for TaskInfo {
    type V = TaskInfoView;

    open spec fn view(&self) -> TaskInfoView {
        TaskInfoView {
            id: self.id@,
            task: self.task@,
            created_at: self.created_at as int,
            started_at: instant_view(self.started_at),
            completed_at: instant_view(self.completed_at),
            status: self.status,
            error: text_view(self.error),
        }
    }
}

impl Clone for TaskInfo {
    fn clone(&self) -> (r: Self)
        ensures
            r@ == self@,
    {
        TaskInfo {
            id: self.id.clone(),
            task: self.task.clone(),
            created_at: self.created_at,
            started_at: self.started_at,
            completed_at: self.completed_at,
            status: self.status,
            error: clone_text(&self.error),
        }
    }
}

/// A request to refresh some backends, or all of them when none is named.
#[derive(Debug)]
pub struct RefreshRequest {
    pub backends: Option<Vec<String>>,
}

/// The paths that a backend lists.
pub type PathList = Vec<String>;

/// The normalized certificate record.
#[derive(Debug)]
pub struct CertificateData {
    pub subject: String,
    pub not_before: i64,
    pub not_after: i64,
    pub serial_number: String,
    pub issuer: String,
    pub subject_alt_names: Vec<String>,
    pub key_usage: Vec<String>,
    pub ext_key_usage: Vec<String>,
    pub is_ca: bool,
    pub fingerprint_sha1: String,
    pub fingerprint_sha256: String,
    pub pem_data: String,
}

pub struct CertificateDataView {
    pub subject: Seq<char>,
    pub not_before: int,
    pub not_after: int,
    pub serial_number: Seq<char>,
    pub issuer: Seq<char>,
    pub subject_alt_names: Seq<Seq<char>>,
    pub key_usage: Seq<Seq<char>>,
    pub ext_key_usage: Seq<Seq<char>>,
    pub is_ca: bool,
    pub fingerprint_sha1: Seq<char>,
    pub fingerprint_sha256: Seq<char>,
    pub pem_data: Seq<char>,
}

impl View for CertificateData {
    type V = CertificateDataView;

    open spec fn view(&self) -> CertificateDataView {
        CertificateDataView {
            subject: self.subject@,
            not_before: self.not_before as int,
            not_after: self.not_after as int,
            serial_number: self.serial_number@,
            issuer: self.issuer@,
            subject_alt_names: strings_view(self.subject_alt_names@),
            key_usage: strings_view(self.key_usage@),
            ext_key_usage: strings_view(self.ext_key_usage@),
            is_ca: self.is_ca,
            fingerprint_sha1: self.fingerprint_sha1@,
            fingerprint_sha256: self.fingerprint_sha256@,
            pem_data: self.pem_data@,
        }
    }
}

impl Clone for CertificateData {
    fn clone(&self) -> (r: Self)
        ensures
            r@ == self@,
    {
        CertificateData {
            subject: self.subject.clone(),
            not_before: self.not_before,
            not_after: self.not_after,
            serial_number: self.serial_number.clone(),
            issuer: self.issuer.clone(),
            subject_alt_names: clone_strings(&self.subject_alt_names),
            key_usage: clone_strings(&self.key_usage),
            ext_key_usage: clone_strings(&self.ext_key_usage),
            is_ca: self.is_ca,
            fingerprint_sha1: self.fingerprint_sha1.clone(),
            fingerprint_sha256: self.fingerprint_sha256.clone(),
            pem_data: self.pem_data.clone(),
        }
    }
}

} // verus!
