//! The job queue: the job type, its JSON codec for the external list-broker
//! path, and the bounded in-process FIFO model.
//!
//! The broker connection itself (blocking pop, reconnect) is I/O and lives
//! outside the library; it hands payload strings in and takes them out.

use vstd::prelude::*;

use crate::json::{
    append_json_string, jstr, lemma_sp_exact, lemma_sp_string_roundtrip, parse_json_string,
    skip_json_ws, sp_exact, sp_string, sp_ws,
};
use crate::strings::{push_char, str_eq};

verus! {

/// The capacity of the in-process queue.
pub const QUEUE_CAPACITY: usize = 256;

/// A unit of work for the worker.
#[derive(Clone, Debug, PartialEq, Eq)]
pub enum SyncJob {
    /// Sync one page; the binding must be resolved from the page's parent.
    SyncPageById { page_id: String },
    /// Sync one page of a known database.
    SyncPage { database_id: String, page_id: String },
    /// Expand one data source into page sync jobs.
    ScanDataSource { database_id: String, data_source_id: String },
}

/// The mathematical value of a job.
pub enum JobV {
    SyncPageById { page_id: Seq<char> },
    SyncPage { database_id: Seq<char>, page_id: Seq<char> },
    ScanDataSource { database_id: Seq<char>, data_source_id: Seq<char> },
}

/// The mathematical value of a job.
pub open spec fn job_view(j: SyncJob) -> JobV {
    match j {
        SyncJob::SyncPageById { page_id } => JobV::SyncPageById { page_id: page_id@ },
        SyncJob::SyncPage { database_id, page_id } => JobV::SyncPage {
            database_id: database_id@,
            page_id: page_id@,
        },
        SyncJob::ScanDataSource { database_id, data_source_id } => JobV::ScanDataSource {
            database_id: database_id@,
            data_source_id: data_source_id@,
        },
    }
}

// ---------------------------------------------------------------------------
// Description
// ---------------------------------------------------------------------------

/// The log line describing a job.
pub open spec fn spec_describe_job(j: SyncJob) -> Seq<char> {
    match j {
        SyncJob::SyncPageById { page_id } => "page sync "@ + page_id@,
        SyncJob::SyncPage { database_id, page_id } => "page sync "@ + page_id@ + " (db "@
            + database_id@ + ")"@,
        SyncJob::ScanDataSource { database_id, data_source_id } => "data source scan "@
            + data_source_id@ + " (db "@ + database_id@ + ")"@,
    }
}

/// Describes a job for logging.
pub fn describe_job(job: &SyncJob) -> (r: String)
    ensures
        r@ == spec_describe_job(*job),
{
    let mut out = String::new();
    match job {
        SyncJob::SyncPageById { page_id } => {
            out.append("page sync ");
            out.append(page_id.as_str());
        },
        SyncJob::SyncPage { database_id, page_id } => {
            out.append("page sync ");
            out.append(page_id.as_str());
            out.append(" (db ");
            out.append(database_id.as_str());
            out.append(")");
        },
        SyncJob::ScanDataSource { database_id, data_source_id } => {
            out.append("data source scan ");
            out.append(data_source_id.as_str());
            out.append(" (db ");
            out.append(database_id.as_str());
            out.append(")");
        },
    }
    proof {
        assert(out@ =~= spec_describe_job(*job));
    }
    out
}

// ---------------------------------------------------------------------------
// Codec
// ---------------------------------------------------------------------------

/// The JSON encoding of a job: an object with the variant name as its single
/// key, the fields as an inner object, in declaration order, compact.
pub open spec fn spec_encode_job(j: SyncJob) -> Seq<char> {
    match j {
        SyncJob::SyncPageById { page_id } => seq!['{'] + jstr("SyncPageById"@) + seq![':'] + seq![
            '{',
        ] + jstr("page_id"@) + seq![':'] + jstr(page_id@) + seq!['}', '}'],
        SyncJob::SyncPage { database_id, page_id } => seq!['{'] + jstr("SyncPage"@) + seq![':']
            + seq!['{'] + jstr("database_id"@) + seq![':'] + jstr(database_id@) + seq![','] + jstr(
            "page_id"@,
        ) + seq![':'] + jstr(page_id@) + seq!['}', '}'],
        SyncJob::ScanDataSource { database_id, data_source_id } => seq!['{'] + jstr(
            "ScanDataSource"@,
        ) + seq![':'] + seq!['{'] + jstr("database_id"@) + seq![':'] + jstr(database_id@) + seq![
            ',',
        ] + jstr("data_source_id"@) + seq![':'] + jstr(data_source_id@) + seq!['}', '}'],
    }
}

/// Encodes a job as JSON for the external broker.
pub fn encode_job(job: &SyncJob) -> (r: String)
    ensures
        r@ == spec_encode_job(*job),
{
    let mut out = String::new();
    push_char(&mut out, '{');
    match job {
        SyncJob::SyncPageById { page_id } => {
            append_json_string(&mut out, "SyncPageById");
            push_char(&mut out, ':');
            push_char(&mut out, '{');
            append_json_string(&mut out, "page_id");
            push_char(&mut out, ':');
            append_json_string(&mut out, page_id.as_str());
        },
        SyncJob::SyncPage { database_id, page_id } => {
            append_json_string(&mut out, "SyncPage");
            push_char(&mut out, ':');
            push_char(&mut out, '{');
            append_json_string(&mut out, "database_id");
            push_char(&mut out, ':');
            append_json_string(&mut out, database_id.as_str());
            push_char(&mut out, ',');
            append_json_string(&mut out, "page_id");
            push_char(&mut out, ':');
            append_json_string(&mut out, page_id.as_str());
        },
        SyncJob::ScanDataSource { database_id, data_source_id } => {
            append_json_string(&mut out, "ScanDataSource");
            push_char(&mut out, ':');
            push_char(&mut out, '{');
            append_json_string(&mut out, "database_id");
            push_char(&mut out, ':');
            append_json_string(&mut out, database_id.as_str());
            push_char(&mut out, ',');
            append_json_string(&mut out, "data_source_id");
            push_char(&mut out, ':');
            append_json_string(&mut out, data_source_id.as_str());
        },
    }
    push_char(&mut out, '}');
    push_char(&mut out, '}');
    proof {
        assert(out@ =~= spec_encode_job(*job));
    }
    out
}

/// Parses `"name":"value"`, checking the key.
pub open spec fn sp_field(s: Seq<char>, name: Seq<char>) -> Option<(Seq<char>, Seq<char>)> {
    match sp_string(s) {
        None => None,
        Some((k, r)) => if k != name {
            None
        } else {
            match sp_exact(r, ':') {
                None => None,
                Some(r2) => sp_string(r2),
            }
        },
    }
}

/// Parses the closing `}}` and requires only whitespace after.
pub open spec fn sp_close(s: Seq<char>) -> bool {
    match sp_exact(s, '}') {
        None => false,
        Some(r) => match sp_exact(r, '}') {
            None => false,
            Some(r2) => sp_ws(r2).len() == 0,
        },
    }
}

/// The decoding of a job payload, inverse to [`spec_encode_job`] and tolerant
/// of JSON whitespace between tokens.
pub open spec fn spec_decode_job(s: Seq<char>) -> Option<JobV> {
    match sp_exact(s, '{') {
        None => None,
        Some(r1) => match sp_string(r1) {
            None => None,
            Some((variant, r2)) => match sp_exact(r2, ':') {
                None => None,
                Some(r3) => match sp_exact(r3, '{') {
                    None => None,
                    Some(r4) => {
                        if variant == "SyncPageById"@ {
                            match sp_field(r4, "page_id"@) {
                                None => None,
                                Some((p, r5)) => if sp_close(r5) {
                                    Some(JobV::SyncPageById { page_id: p })
                                } else {
                                    None
                                },
                            }
                        } else if variant == "SyncPage"@ {
                            match sp_field(r4, "database_id"@) {
                                None => None,
                                Some((d, r5)) => match sp_exact(r5, ',') {
                                    None => None,
                                    Some(r6) => match sp_field(r6, "page_id"@) {
                                        None => None,
                                        Some((p, r7)) => if sp_close(r7) {
                                            Some(JobV::SyncPage { database_id: d, page_id: p })
                                        } else {
                                            None
                                        },
                                    },
                                },
                            }
                        } else if variant == "ScanDataSource"@ {
                            match sp_field(r4, "database_id"@) {
                                None => None,
                                Some((d, r5)) => match sp_exact(r5, ',') {
                                    None => None,
                                    Some(r6) => match sp_field(r6, "data_source_id"@) {
                                        None => None,
                                        Some((ds, r7)) => if sp_close(r7) {
                                            Some(
                                                JobV::ScanDataSource {
                                                    database_id: d,
                                                    data_source_id: ds,
                                                },
                                            )
                                        } else {
                                            None
                                        },
                                    },
                                },
                            }
                        } else {
                            None
                        }
                    },
                },
            },
        },
    }
}

fn parse_field(s: &str, i: usize, name: &str) -> (r: Option<(String, usize)>)
    requires
        i <= s@.len(),
    ensures
        match r {
            Some(v) => v.1 <= s@.len() && sp_field(s@.skip(i as int), name@) == Some(
                (v.0@, s@.skip(v.1 as int)),
            ),
            None => sp_field(s@.skip(i as int), name@) is None,
        },
{
    let (k, r1) = match parse_json_string(s, i) {
        None => {
            return None;
        },
        Some(v) => v,
    };
    if !str_eq(k.as_str(), name) {
        return None;
    }
    let r2 = match expect_colon(s, r1) {
        None => {
            return None;
        },
        Some(v) => v,
    };
    parse_json_string(s, r2)
}

fn expect_colon(s: &str, i: usize) -> (r: Option<usize>)
    requires
        i <= s@.len(),
    ensures
        match r {
            Some(j) => j <= s@.len() && sp_exact(s@.skip(i as int), ':') == Some(
                s@.skip(j as int),
            ),
            None => sp_exact(s@.skip(i as int), ':') is None,
        },
{
    crate::json::expect_json_char(s, i, ':')
}

fn parse_close(s: &str, i: usize) -> (r: bool)
    requires
        i <= s@.len(),
    ensures
        r == sp_close(s@.skip(i as int)),
{
    let r1 = match crate::json::expect_json_char(s, i, '}') {
        None => {
            return false;
        },
        Some(v) => v,
    };
    let r2 = match crate::json::expect_json_char(s, r1, '}') {
        None => {
            return false;
        },
        Some(v) => v,
    };
    let r3 = skip_json_ws(s, r2);
    let n = s.unicode_len();
    r3 == n
}

/// Decodes a job payload from the external broker.
pub fn decode_job(s: &str) -> (r: Option<SyncJob>)
    ensures
        match r {
            Some(j) => spec_decode_job(s@) == Some(job_view(j)),
            None => spec_decode_job(s@) is None,
        },
{
    proof {
        assert(s@.skip(0) =~= s@);
    }
    let r1 = match crate::json::expect_json_char(s, 0, '{') {
        None => {
            return None;
        },
        Some(v) => v,
    };
    let (variant, r2) = match parse_json_string(s, r1) {
        None => {
            return None;
        },
        Some(v) => v,
    };
    let r3 = match expect_colon(s, r2) {
        None => {
            return None;
        },
        Some(v) => v,
    };
    let r4 = match crate::json::expect_json_char(s, r3, '{') {
        None => {
            return None;
        },
        Some(v) => v,
    };
    if str_eq(variant.as_str(), "SyncPageById") {
        let (p, r5) = match parse_field(s, r4, "page_id") {
            None => {
                return None;
            },
            Some(v) => v,
        };
        if parse_close(s, r5) {
            Some(SyncJob::SyncPageById { page_id: p })
        } else {
            None
        }
    } else if str_eq(variant.as_str(), "SyncPage") {
        let (d, r5) = match parse_field(s, r4, "database_id") {
            None => {
                return None;
            },
            Some(v) => v,
        };
        let r6 = match crate::json::expect_json_char(s, r5, ',') {
            None => {
                return None;
            },
            Some(v) => v,
        };
        let (p, r7) = match parse_field(s, r6, "page_id") {
            None => {
                return None;
            },
            Some(v) => v,
        };
        if parse_close(s, r7) {
            Some(SyncJob::SyncPage { database_id: d, page_id: p })
        } else {
            None
        }
    } else if str_eq(variant.as_str(), "ScanDataSource") {
        let (d, r5) = match parse_field(s, r4, "database_id") {
            None => {
                return None;
            },
            Some(v) => v,
        };
        let r6 = match crate::json::expect_json_char(s, r5, ',') {
            None => {
                return None;
            },
            Some(v) => v,
        };
        let (ds, r7) = match parse_field(s, r6, "data_source_id") {
            None => {
                return None;
            },
            Some(v) => v,
        };
        if parse_close(s, r7) {
            Some(SyncJob::ScanDataSource { database_id: d, data_source_id: ds })
        } else {
            None
        }
    } else {
        None
    }
}

/// A field of the encoding parses back: key, colon, value.
#[verifier::rlimit(100)]
proof fn lemma_field_roundtrip(name: Seq<char>, val: Seq<char>, rest: Seq<char>)
    ensures
        sp_field(jstr(name) + seq![':'] + jstr(val) + rest, name) == Some((val, rest)),
{
    let s = jstr(name) + seq![':'] + jstr(val) + rest;
    let after_key = seq![':'] + jstr(val) + rest;
    assert(s =~= jstr(name) + after_key);
    lemma_sp_string_roundtrip(name, after_key);
    assert(after_key =~= seq![':'] + (jstr(val) + rest));
    lemma_sp_exact(':', jstr(val) + rest);
    lemma_sp_string_roundtrip(val, rest);
}

/// The closing braces of the encoding parse back.
proof fn lemma_close_roundtrip()
    ensures
        sp_close(seq!['}', '}']),
{
    assert(seq!['}', '}'] =~= seq!['}'] + (seq!['}'] + Seq::<char>::empty()));
    lemma_sp_exact('}', seq!['}'] + Seq::<char>::empty());
    assert(seq!['}'] + Seq::<char>::empty() =~= seq!['}'] + Seq::<char>::empty());
    lemma_sp_exact('}', Seq::<char>::empty());
    assert(sp_ws(Seq::<char>::empty()).len() == 0);
}

/// Encoding then decoding a job yields the original job.
#[verifier::rlimit(100)]
pub proof fn lemma_job_round_trip(j: SyncJob)
    ensures
        spec_decode_job(spec_encode_job(j)) == Some(job_view(j)),
{
    match j {
        SyncJob::SyncPageById { page_id } => {
            let body = jstr("page_id"@) + seq![':'] + jstr(page_id@) + seq!['}', '}'];
            let inner = seq!['{'] + body;
            let s = spec_encode_job(j);
            assert(s =~= seq!['{'] + (jstr("SyncPageById"@) + (seq![':'] + inner)));
            lemma_sp_exact('{', jstr("SyncPageById"@) + (seq![':'] + inner));
            lemma_sp_string_roundtrip("SyncPageById"@, seq![':'] + inner);
            lemma_sp_exact(':', inner);
            lemma_sp_exact('{', body);
            assert(body =~= jstr("page_id"@) + seq![':'] + jstr(page_id@) + seq!['}', '}']);
            lemma_field_roundtrip("page_id"@, page_id@, seq!['}', '}']);
            lemma_close_roundtrip();
        },
        SyncJob::SyncPage { database_id, page_id } => {
            let tail2 = seq!['}', '}'];
            let field2 = jstr("page_id"@) + seq![':'] + jstr(page_id@) + tail2;
            let field1_rest = seq![','] + field2;
            let body = jstr("database_id"@) + seq![':'] + jstr(database_id@) + field1_rest;
            let inner = seq!['{'] + body;
            let s = spec_encode_job(j);
            assert(s =~= seq!['{'] + (jstr("SyncPage"@) + (seq![':'] + inner)));
            lemma_sp_exact('{', jstr("SyncPage"@) + (seq![':'] + inner));
            lemma_sp_string_roundtrip("SyncPage"@, seq![':'] + inner);
            lemma_sp_exact(':', inner);
            lemma_sp_exact('{', body);
            assert(body =~= jstr("database_id"@) + seq![':'] + jstr(database_id@)
                + field1_rest);
            lemma_field_roundtrip("database_id"@, database_id@, field1_rest);
            lemma_sp_exact(',', field2);
            lemma_field_roundtrip("page_id"@, page_id@, tail2);
            lemma_close_roundtrip();
            assert("SyncPage"@ != "SyncPageById"@) by {
                reveal_strlit("SyncPage");
                reveal_strlit("SyncPageById");
            }
        },
        SyncJob::ScanDataSource { database_id, data_source_id } => {
            let tail2 = seq!['}', '}'];
            let field2 = jstr("data_source_id"@) + seq![':'] + jstr(data_source_id@) + tail2;
            let field1_rest = seq![','] + field2;
            let body = jstr("database_id"@) + seq![':'] + jstr(database_id@) + field1_rest;
            let inner = seq!['{'] + body;
            let s = spec_encode_job(j);
            assert(s =~= seq!['{'] + (jstr("ScanDataSource"@) + (seq![':'] + inner)));
            lemma_sp_exact('{', jstr("ScanDataSource"@) + (seq![':'] + inner));
            lemma_sp_string_roundtrip("ScanDataSource"@, seq![':'] + inner);
            lemma_sp_exact(':', inner);
            lemma_sp_exact('{', body);
            assert(body =~= jstr("database_id"@) + seq![':'] + jstr(database_id@)
                + field1_rest);
            lemma_field_roundtrip("database_id"@, database_id@, field1_rest);
            lemma_sp_exact(',', field2);
            lemma_field_roundtrip("data_source_id"@, data_source_id@, tail2);
            lemma_close_roundtrip();
            assert("ScanDataSource"@ != "SyncPageById"@ && "ScanDataSource"@ != "SyncPage"@) by {
                reveal_strlit("ScanDataSource");
                reveal_strlit("SyncPageById");
                reveal_strlit("SyncPage");
            }
        },
    }
}

// ---------------------------------------------------------------------------
// The in-process queue model
// ---------------------------------------------------------------------------

/// The bounded in-process FIFO: jobs leave in the order they entered; a full
/// queue accepts nothing.
pub struct JobFifo {
    jobs: Vec<SyncJob>,
}

impl View for JobFifo {
    type V = Seq<SyncJob>;

    closed spec fn view(&self) -> Seq<SyncJob> {
        self.jobs@
    }
}

impl JobFifo {
    /// An empty queue.
    pub fn new() -> (r: Self)
        ensures
            r@ == Seq::<SyncJob>::empty(),
    {
        JobFifo { jobs: Vec::new() }
    }

    /// How many jobs are waiting.
    pub fn len(&self) -> (r: usize)
        ensures
            r == self@.len(),
    {
        self.jobs.len()
    }

    /// Appends a job unless the queue is full: accepted exactly when there is
    /// room, and then at the back.
    pub fn try_enqueue(&mut self, job: SyncJob) -> (r: bool)
        ensures
            r == (old(self)@.len() < QUEUE_CAPACITY),
            r ==> final(self)@ == old(self)@.push(job),
            !r ==> final(self)@ == old(self)@,
    {
        if self.jobs.len() < QUEUE_CAPACITY {
            self.jobs.push(job);
            true
        } else {
            false
        }
    }

    /// Takes the oldest job, if any.
    pub fn dequeue(&mut self) -> (r: Option<SyncJob>)
        ensures
            match r {
                None => old(self)@.len() == 0 && final(self)@ == old(self)@,
                Some(j) => old(self)@.len() > 0 && j == old(self)@[0] && final(self)@ == old(
                    self,
                )@.drop_first(),
            },
    {
        if self.jobs.len() == 0 {
            None
        } else {
            let j = self.jobs.remove(0);
            proof {
                assert(self.jobs@ =~= old(self)@.drop_first());
            }
            Some(j)
        }
    }
}

/// The broker list key for a queue name: `{name}:sync-jobs`.
pub fn queue_key(name: &str) -> (r: String)
    ensures
        r@ == name@ + ":sync-jobs"@,
{
    let mut out = String::new();
    out.append(name);
    out.append(":sync-jobs");
    proof {
        assert(out@ =~= name@ + ":sync-jobs"@);
    }
    out
}

} // verus!
