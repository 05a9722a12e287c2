//! The worker's decision rules: what to do with a dequeued job, how to plan a
//! page sync, and how to retry after a failure. The surrounding loop, the
//! HTTP calls and the object-store writes happen outside; they hand results
//! back as plain values.

use vstd::prelude::*;

use crate::notion::PageParent;
use crate::queue::SyncJob;
use crate::render::BlobRef;
use crate::strings::{spec_dec, usize_to_string};
use crate::webhook::DatabaseBinding;

verus! {

/// The delay before a failed job is enqueued again, in seconds.
pub const RETRY_DELAY_SECONDS: u64 = 10;

/// The depth budget of a page sync's block-tree walk.
pub const DEFAULT_MAX_DEPTH: usize = 3;

/// The error kinds of the engine.
pub enum SyncError {
    /// Invalid configuration; fatal at startup.
    ConfigError(String),
    /// A non-2xx reply from the upstream; retryable at job level.
    UpstreamError { status: u16, body: String },
    /// A connection-level failure; retryable at job level.
    TransportError(String),
    /// An object-store write failed; retryable at job level.
    StoreWriteError(String),
    /// A blob download failed; fails the page, retryable.
    BlobFetchError { url: String, status: u16 },
    /// Signature verification failed; answered with 401.
    AuthError,
    /// The request body is not JSON; answered with 400.
    MalformedPayload,
    /// The event names no configured binding; logged and dropped.
    UnknownBinding(String),
}

/// The log line describing an error.
pub open spec fn spec_describe_error(e: SyncError) -> Seq<char> {
    match e {
        SyncError::ConfigError(msg) => "invalid configuration: "@ + msg@,
        SyncError::UpstreamError { status, body } => "upstream error "@ + spec_dec(status as int)
            + ": "@ + body@,
        SyncError::TransportError(msg) => "transport error: "@ + msg@,
        SyncError::StoreWriteError(msg) => "store write failed: "@ + msg@,
        SyncError::BlobFetchError { url, status } => "failed to download blob "@ + url@ + ": "@
            + spec_dec(status as int),
        SyncError::AuthError => "signature mismatch"@,
        SyncError::MalformedPayload => "malformed payload"@,
        SyncError::UnknownBinding(id) => "no binding configured for "@ + id@,
    }
}

impl SyncError {
    /// A short description for logging.
    pub fn describe(&self) -> (r: String)
        ensures
            r@ == spec_describe_error(*self),
    {
        let mut out = String::new();
        match self {
            SyncError::ConfigError(msg) => {
                out.append("invalid configuration: ");
                out.append(msg.as_str());
            },
            SyncError::UpstreamError { status, body } => {
                out.append("upstream error ");
                let code = usize_to_string(*status as usize);
                out.append(code.as_str());
                out.append(": ");
                out.append(body.as_str());
            },
            SyncError::TransportError(msg) => {
                out.append("transport error: ");
                out.append(msg.as_str());
            },
            SyncError::StoreWriteError(msg) => {
                out.append("store write failed: ");
                out.append(msg.as_str());
            },
            SyncError::BlobFetchError { url, status } => {
                out.append("failed to download blob ");
                out.append(url.as_str());
                out.append(": ");
                let code = usize_to_string(*status as usize);
                out.append(code.as_str());
            },
            SyncError::AuthError => {
                out.append("signature mismatch");
            },
            SyncError::MalformedPayload => {
                out.append("malformed payload");
            },
            SyncError::UnknownBinding(id) => {
                out.append("no binding configured for ");
                out.append(id.as_str());
            },
        }
        proof {
            assert(out@ =~= spec_describe_error(*self));
        }
        out
    }
}

/// The index of the first binding listing the given data source.
pub open spec fn spec_idx_by_data_source(bindings: Seq<DatabaseBinding>, ds: Seq<char>) -> Option<
    int,
>
    decreases bindings.len(),
{
    if bindings.len() == 0 {
        None
    } else if crate::webhook::spec_has_data_source(bindings[0], ds) {
        Some(0int)
    } else {
        match spec_idx_by_data_source(bindings.drop_first(), ds) {
            None => None,
            Some(i) => Some(i + 1),
        }
    }
}

/// The index of the first binding with the given database id.
pub open spec fn spec_idx_by_id(bindings: Seq<DatabaseBinding>, id: Seq<char>) -> Option<int>
    decreases bindings.len(),
{
    if bindings.len() == 0 {
        None
    } else if bindings[0].id@ == id {
        Some(0int)
    } else {
        match spec_idx_by_id(bindings.drop_first(), id) {
            None => None,
            Some(i) => Some(i + 1),
        }
    }
}

/// Which binding a page's parent resolves to: its data source wins over its
/// database id; no match means the page is dropped silently.
pub open spec fn spec_resolve_parent(bindings: Seq<DatabaseBinding>, parent: PageParent) -> Option<
    int,
> {
    let by_ds = match parent.data_source_id {
        Some(ds) => spec_idx_by_data_source(bindings, ds@),
        None => None,
    };
    match by_ds {
        Some(i) => Some(i),
        None => match parent.database_id {
            Some(db) => spec_idx_by_id(bindings, db@),
            None => None,
        },
    }
}

/// The index of the first binding listing the given data source.
pub fn find_index_by_data_source(bindings: &Vec<DatabaseBinding>, ds: &String) -> (r: Option<
    usize,
>)
    ensures
        match r {
            None => spec_idx_by_data_source(bindings@, ds@) is None,
            Some(i) => spec_idx_by_data_source(bindings@, ds@) == Some(i as int) && i
                < bindings@.len(),
        },
{
    let mut i: usize = 0;
    proof {
        assert(bindings@.skip(0) =~= bindings@);
    }
    while i < bindings.len()
        invariant
            0 <= i <= bindings@.len(),
            match spec_idx_by_data_source(bindings@.skip(i as int), ds@) {
                None => spec_idx_by_data_source(bindings@, ds@) is None,
                Some(t) => spec_idx_by_data_source(bindings@, ds@) == Some(t + i),
            },
        decreases bindings@.len() - i,
    {
        proof {
            assert(bindings@.skip(i as int)[0] == bindings@[i as int]);
            assert(bindings@.skip(i as int).drop_first() =~= bindings@.skip(i as int + 1));
        }
        if crate::webhook::binding_has_data_source(&bindings[i], ds) {
            return Some(i);
        }
        i = i + 1;
    }
    None
}

/// The index of the first binding with the given database id.
pub fn find_index_by_id(bindings: &Vec<DatabaseBinding>, id: &String) -> (r: Option<usize>)
    ensures
        match r {
            None => spec_idx_by_id(bindings@, id@) is None,
            Some(i) => spec_idx_by_id(bindings@, id@) == Some(i as int) && i < bindings@.len(),
        },
{
    let mut i: usize = 0;
    proof {
        assert(bindings@.skip(0) =~= bindings@);
    }
    while i < bindings.len()
        invariant
            0 <= i <= bindings@.len(),
            match spec_idx_by_id(bindings@.skip(i as int), id@) {
                None => spec_idx_by_id(bindings@, id@) is None,
                Some(t) => spec_idx_by_id(bindings@, id@) == Some(t + i),
            },
        decreases bindings@.len() - i,
    {
        proof {
            assert(bindings@.skip(i as int)[0] == bindings@[i as int]);
            assert(bindings@.skip(i as int).drop_first() =~= bindings@.skip(i as int + 1));
        }
        if crate::strings::str_eq(bindings[i].id.as_str(), id.as_str()) {
            return Some(i);
        }
        i = i + 1;
    }
    None
}

/// Resolves a page's parent to a binding index, the data source first.
pub fn resolve_parent_binding(bindings: &Vec<DatabaseBinding>, parent: &PageParent) -> (r: Option<
    usize,
>)
    ensures
        match r {
            None => spec_resolve_parent(bindings@, *parent) is None,
            Some(i) => spec_resolve_parent(bindings@, *parent) == Some(i as int) && i
                < bindings@.len(),
        },
{
    let by_ds = match &parent.data_source_id {
        Some(ds) => find_index_by_data_source(bindings, ds),
        None => None,
    };
    match by_ds {
        Some(i) => Some(i),
        None => match &parent.database_id {
            Some(db) => find_index_by_id(bindings, db),
            None => None,
        },
    }
}

/// What the worker does first with a dequeued job.
#[derive(Clone, Debug, PartialEq, Eq)]
pub enum JobStep {
    /// Resolve the page's parent, then plan again with it.
    ResolveParent { page_id: String },
    /// Sync one page against the binding at this index.
    RunSyncPage { binding: usize, page_id: String },
    /// Query the data source's page ids, then enqueue one page job each.
    RunScan { binding: usize, data_source_id: String },
    /// The job names no configured binding: log and drop.
    DropUnknown { database_id: String },
}

/// The first step for a job: a bare page id needs its parent resolved; the
/// other jobs resolve their binding by database id, and an unknown database
/// drops the job.
pub open spec fn spec_plan_job(bindings: Seq<DatabaseBinding>, job: SyncJob) -> JobStep {
    match job {
        SyncJob::SyncPageById { page_id } => JobStep::ResolveParent { page_id },
        SyncJob::SyncPage { database_id, page_id } => match spec_idx_by_id(
            bindings,
            database_id@,
        ) {
            Some(i) => JobStep::RunSyncPage { binding: i as usize, page_id },
            None => JobStep::DropUnknown { database_id },
        },
        SyncJob::ScanDataSource { database_id, data_source_id } => match spec_idx_by_id(
            bindings,
            database_id@,
        ) {
            Some(i) => JobStep::RunScan { binding: i as usize, data_source_id },
            None => JobStep::DropUnknown { database_id },
        },
    }
}

/// Plans the first step for a dequeued job.
pub fn plan_job(bindings: &Vec<DatabaseBinding>, job: SyncJob) -> (r: JobStep)
    ensures
        r == spec_plan_job(bindings@, job),
{
    match job {
        SyncJob::SyncPageById { page_id } => JobStep::ResolveParent { page_id },
        SyncJob::SyncPage { database_id, page_id } => match find_index_by_id(
            bindings,
            &database_id,
        ) {
            Some(i) => JobStep::RunSyncPage { binding: i, page_id },
            None => JobStep::DropUnknown { database_id },
        },
        SyncJob::ScanDataSource { database_id, data_source_id } => match find_index_by_id(
            bindings,
            &database_id,
        ) {
            Some(i) => JobStep::RunScan { binding: i, data_source_id },
            None => JobStep::DropUnknown { database_id },
        },
    }
}

/// A failed job's retry: the same job, delayed.
pub struct RetryPlan {
    pub job: SyncJob,
    pub delay_seconds: u64,
}

/// The retry rule: a job that failed processing is enqueued again, unchanged,
/// no earlier than [`RETRY_DELAY_SECONDS`] seconds later.
pub fn on_job_failure(job: SyncJob) -> (r: RetryPlan)
    ensures
        r.job == job,
        r.delay_seconds == RETRY_DELAY_SECONDS,
        r.delay_seconds == 10,
{
    RetryPlan { job, delay_seconds: RETRY_DELAY_SECONDS }
}

/// The storage path of a page's Markdown document: `pages/{pageId}.md`.
pub fn page_markdown_path(page_id: &str) -> (r: String)
    ensures
        r@ == "pages/"@ + page_id@ + ".md"@,
{
    let mut out = String::new();
    out.append("pages/");
    out.append(page_id);
    out.append(".md");
    proof {
        assert(out@ =~= "pages/"@ + page_id@ + ".md"@);
    }
    out
}

/// Blobs with duplicate paths dropped, first occurrence winning.
pub open spec fn spec_dedupe_blobs(blobs: Seq<BlobRef>) -> Seq<BlobRef>
    decreases blobs.len(),
{
    if blobs.len() == 0 {
        Seq::empty()
    } else {
        let rest = spec_dedupe_blobs(blobs.drop_last());
        if exists|k: int| 0 <= k < blobs.len() - 1 && blobs[k].path@ == blobs.last().path@ {
            rest
        } else {
            rest.push(blobs.last())
        }
    }
}

/// The download plan for a page's blob list: each path once, first occurrence
/// winning; an empty list plans nothing.
pub fn dedupe_blobs(blobs: &Vec<BlobRef>) -> (r: Vec<BlobRef>)
    ensures
        r@ == spec_dedupe_blobs(blobs@),
        blobs@.len() == 0 ==> r@.len() == 0,
{
    let mut out: Vec<BlobRef> = Vec::new();
    let mut i: usize = 0;
    proof {
        assert(blobs@.take(0) =~= Seq::<BlobRef>::empty());
        assert(out@ =~= spec_dedupe_blobs(blobs@.take(0)));
    }
    while i < blobs.len()
        invariant
            0 <= i <= blobs@.len(),
            out@ == spec_dedupe_blobs(blobs@.take(i as int)),
        decreases blobs@.len() - i,
    {
        let mut seen = false;
        let mut k: usize = 0;
        while k < i
            invariant
                0 <= k <= i < blobs@.len(),
                seen == exists|t: int| 0 <= t < k && blobs@[t].path@ == blobs@[i as int].path@,
            decreases i - k,
        {
            if crate::strings::str_eq(blobs[k].path.as_str(), blobs[i].path.as_str()) {
                seen = true;
            }
            k = k + 1;
        }
        if !seen {
            let b = &blobs[i];
            out.push(BlobRef { path: b.path.clone(), url: b.url.clone() });
        }
        proof {
            let pfx = blobs@.take(i as int + 1);
            assert(pfx.drop_last() =~= blobs@.take(i as int));
            assert(pfx.last() == blobs@[i as int]);
            if seen {
                let t = choose|t: int| 0 <= t < i && blobs@[t].path@ == blobs@[i as int].path@;
                assert(pfx[t] == blobs@[t]);
                assert(exists|u: int| 0 <= u < pfx.len() - 1 && pfx[u].path@ == pfx.last().path@);
            } else {
                assert(forall|u: int| 0 <= u < pfx.len() - 1 ==> pfx[u] == blobs@[u]);
                assert(!(exists|u: int|
                    0 <= u < pfx.len() - 1 && pfx[u].path@ == pfx.last().path@));
                assert(out@.last() == blobs@[i as int]);
                assert(out@ =~= spec_dedupe_blobs(blobs@.take(i as int)).push(
                    blobs@[i as int],
                ));
            }
        }
        i = i + 1;
    }
    proof {
        assert(blobs@.take(blobs@.len() as int) =~= blobs@);
    }
    out
}

/// The deduplicated plan keeps every path of the input and adds none.
pub proof fn lemma_dedupe_paths(blobs: Seq<BlobRef>)
    ensures
        forall|i: int|
            0 <= i < spec_dedupe_blobs(blobs).len() ==> exists|k: int|
                0 <= k < blobs.len() && blobs[k] == #[trigger] spec_dedupe_blobs(blobs)[i],
    decreases blobs.len(),
{
    if blobs.len() > 0 {
        lemma_dedupe_paths(blobs.drop_last());
        let rest = spec_dedupe_blobs(blobs.drop_last());
        assert(forall|k: int| 0 <= k < blobs.len() - 1 ==> blobs.drop_last()[k] == blobs[k]);
        assert forall|i: int| 0 <= i < spec_dedupe_blobs(blobs).len() implies exists|k: int|
            0 <= k < blobs.len() && blobs[k] == #[trigger] spec_dedupe_blobs(blobs)[i] by {
            if i < rest.len() {
                assert(rest[i] == spec_dedupe_blobs(blobs)[i]);
                let k = choose|k: int|
                    0 <= k < blobs.drop_last().len() && blobs.drop_last()[k] == rest[i];
                assert(blobs[k] == spec_dedupe_blobs(blobs)[i]);
            } else {
                assert(spec_dedupe_blobs(blobs)[i] == blobs.last());
                assert(blobs[blobs.len() - 1] == spec_dedupe_blobs(blobs)[i]);
            }
        }
    }
}

} // verus!
