//! Webhook ingress logic: signature verification over the raw body bytes,
//! the setup handshake, stale-event protection, and dispatch of the event to
//! a queue job.
//!
//! The HTTP layer hands in the raw body, the signature header, the parsed
//! payload fields and the current time; the decision returned says which
//! status to answer and which jobs to enqueue.

use hmac::Hmac;
use hmac::KeyInit;
use hmac::Mac;
use sha2::Sha256;
use vstd::prelude::*;

use vstd::string::StringSliceAdditionalSpecFns;

use crate::notion::DataSourceInfo;
use crate::queue::SyncJob;
use crate::strings::{has_prefix, spec_trim, trim_str};

verus! {

// ---------------------------------------------------------------------------
// Trusted wrappers
// ---------------------------------------------------------------------------

/// What HMAC-SHA256 computes: a function of key and message alone.
pub uninterp spec fn hmac_sha256_of(key: Seq<u8>, msg: Seq<u8>) -> Seq<u8>;

/// Relies on `Hmac::<Sha256>` from the hmac crate (`new_from_slice`, which
/// accepts keys of any length, `update`, and `verify_slice`, which succeeds
/// exactly when the tag equals the full MAC, compared in constant time; a tag
/// of any other length than the MAC's 32 bytes is rejected, and then also
/// differs from the MAC).
#[verifier::external_body]
fn hmac_sha256_verify(key: &[u8], msg: &[u8], tag: &[u8]) -> (r: bool)
    ensures
        r == (tag@ == hmac_sha256_of(key@, msg@)),
{
    match <Hmac<Sha256> as KeyInit>::new_from_slice(key) {
        Ok(mut mac) => {
            mac.update(msg);
            mac.verify_slice(tag).is_ok()
        },
        Err(_) => false,
    }
}

/// Whether a character is a hexadecimal digit.
pub open spec fn is_hex_digit(c: char) -> bool {
    ('0' <= c && c <= '9') || ('a' <= c && c <= 'f') || ('A' <= c && c <= 'F')
}

/// The value of a hexadecimal digit.
pub open spec fn hex_digit_val(c: char) -> int {
    if '0' <= c && c <= '9' {
        c as int - '0' as int
    } else if 'a' <= c && c <= 'f' {
        c as int - 'a' as int + 10
    } else {
        c as int - 'A' as int + 10
    }
}

/// Whether a string is a well-formed hexadecimal encoding: even length, hex
/// digits only.
pub open spec fn spec_hex_valid(s: Seq<char>) -> bool {
    s.len() % 2 == 0 && (forall|i: int| 0 <= i < s.len() ==> is_hex_digit(s[i]))
}

/// The bytes encoded by a hexadecimal string.
pub open spec fn spec_hex_decode(s: Seq<char>) -> Seq<u8> {
    Seq::new((s.len() / 2) as nat, |i: int| (hex_digit_val(s[2 * i]) * 16 + hex_digit_val(
        s[2 * i + 1],
    )) as u8)
}

/// Relies on `hex::decode`: succeeds exactly on even-length strings of hex
/// digits (upper or lower case), pairing digits into bytes.
#[verifier::external_body]
fn hex_decode(s: &str) -> (r: Option<Vec<u8>>)
    ensures
        match r {
            Some(v) => spec_hex_valid(s@) && v@ == spec_hex_decode(s@),
            None => !spec_hex_valid(s@),
        },
{
    hex::decode(s).ok()
}

/// What parsing an RFC 3339 timestamp yields: the Unix epoch seconds, a
/// function of the string alone; nothing for an unparseable string.
pub uninterp spec fn rfc3339_epoch_of(s: Seq<char>) -> Option<i64>;

/// Relies on `time::OffsetDateTime::parse` with the RFC 3339 well-known
/// format and `unix_timestamp`: both depend on the input string alone.
#[verifier::external_body]
pub fn parse_rfc3339_epoch(s: &str) -> (r: Option<i64>)
    ensures
        r == rfc3339_epoch_of(s@),
{
    time::OffsetDateTime::parse(s, &time::format_description::well_known::Rfc3339)
        .ok()
        .map(|t| t.unix_timestamp())
}

// ---------------------------------------------------------------------------
// Signature verification
// ---------------------------------------------------------------------------

/// When signature verification accepts: the header is present and, after
/// trimming and stripping an optional `sha256=` prefix, is valid hex whose
/// bytes equal `HMAC-SHA256(secret, body)`.
pub open spec fn spec_sig_accepts(
    secret: Seq<u8>,
    body: Seq<u8>,
    header: Option<Seq<char>>,
) -> bool {
    match header {
        None => false,
        Some(h) => {
            let t = spec_trim(h);
            let hex_part = if t.len() >= "sha256="@.len() && t.take("sha256="@.len() as int)
                == "sha256="@ {
                t.skip("sha256="@.len() as int)
            } else {
                t
            };
            spec_hex_valid(hex_part) && spec_hex_decode(hex_part) == hmac_sha256_of(secret, body)
        },
    }
}

/// The view of an optional string slice.
pub open spec fn opt_view(o: Option<&str>) -> Option<Seq<char>> {
    match o {
        None => None,
        Some(s) => Some(s@),
    }
}

/// Verifies the webhook signature over the raw body bytes.
pub fn verify_signature(secret: &str, signature_header: Option<&str>, body: &[u8]) -> (r: bool)
    ensures
        r == spec_sig_accepts(secret.spec_bytes(), body@, opt_view(signature_header)),
{
    let header = match signature_header {
        None => {
            return false;
        },
        Some(h) => h,
    };
    let trimmed = trim_str(header);
    proof {
        reveal_strlit("sha256=");
    }
    let hex_part: &str = if has_prefix(trimmed, "sha256=") {
        let n = trimmed.unicode_len();
        trimmed.substring_char(7, n)
    } else {
        trimmed
    };
    proof {
        let t = spec_trim(header@);
        if t.len() >= 7 && t.take(7) == "sha256="@ {
            assert(hex_part@ =~= t.skip(7));
        }
    }
    match hex_decode(hex_part) {
        None => false,
        Some(bytes) => hmac_sha256_verify(secret.as_bytes(), body, bytes.as_slice()),
    }
}

// ---------------------------------------------------------------------------
// Event classification
// ---------------------------------------------------------------------------

/// One configured binding: an upstream database, its data sources, and its
/// property-mapping policy.
#[derive(Clone)]
pub struct DatabaseBinding {
    pub id: String,
    pub data_sources: Vec<DataSourceInfo>,
    pub key_map: Vec<(String, String)>,
    pub property_includes: Option<Vec<String>>,
}

/// The fields the ingress reads from the webhook payload, each `None` when
/// absent or not a string.
pub struct WebhookFields {
    pub verification_token: Option<String>,
    pub timestamp: Option<String>,
    pub page_id: Option<String>,
    pub data_id: Option<String>,
    pub data_source_id: Option<String>,
    pub data_data_source_id: Option<String>,
    pub data_parent_data_source_id: Option<String>,
    pub database_id: Option<String>,
    pub data_database_id: Option<String>,
    pub data_parent_database_id: Option<String>,
}

/// What the ingress decides for one request.
pub enum WebhookDecision {
    /// The body is not JSON: respond 400.
    Malformed,
    /// A setup handshake: respond 200 with `{"ok":true}`.
    Handshake,
    /// The signature check failed: respond 401.
    Unauthorized,
    /// The event is stale: respond 200 and drop it.
    StaleDrop,
    /// Respond 200 and enqueue these jobs, in order.
    Enqueue(Vec<SyncJob>),
    /// The event names no configured binding: respond 200 and drop it.
    UnknownBinding,
    /// No recognized field: respond 400.
    NoMatch,
}

/// The mathematical value of a decision.
pub enum DecisionV {
    Malformed,
    Handshake,
    Unauthorized,
    StaleDrop,
    Enqueue(Seq<SyncJob>),
    UnknownBinding,
    NoMatch,
}

/// The mathematical value of a decision.
pub open spec fn decision_view(d: WebhookDecision) -> DecisionV {
    match d {
        WebhookDecision::Malformed => DecisionV::Malformed,
        WebhookDecision::Handshake => DecisionV::Handshake,
        WebhookDecision::Unauthorized => DecisionV::Unauthorized,
        WebhookDecision::StaleDrop => DecisionV::StaleDrop,
        WebhookDecision::Enqueue(jobs) => DecisionV::Enqueue(jobs@),
        WebhookDecision::UnknownBinding => DecisionV::UnknownBinding,
        WebhookDecision::NoMatch => DecisionV::NoMatch,
    }
}

impl WebhookDecision {
    /// The HTTP status answered for this decision.
    pub fn status_code(&self) -> (r: u16)
        ensures
            r == 401 <==> self is Unauthorized,
            r == 400 <==> (self is Malformed || self is NoMatch),
            r == 200 <==> !(self is Unauthorized || self is Malformed || self is NoMatch),
    {
        match self {
            WebhookDecision::Malformed => 400,
            WebhookDecision::NoMatch => 400,
            WebhookDecision::Unauthorized => 401,
            _ => 200,
        }
    }
}

/// Whether an event timestamp is stale: it parses and is more than
/// `max_age_seconds` away from now, in either direction.
pub open spec fn spec_is_stale(ts: Option<String>, now: int, max_age_seconds: int) -> bool {
    match ts {
        None => false,
        Some(t) => match rfc3339_epoch_of(t@) {
            None => false,
            Some(e) => (if now >= e {
                now - e
            } else {
                e - now
            }) > max_age_seconds,
        },
    }
}

/// The first of two optional values.
pub open spec fn spec_or2(a: Option<String>, b: Option<String>) -> Option<String> {
    match a {
        Some(x) => Some(x),
        None => b,
    }
}

/// The first of three optional values.
pub open spec fn spec_or3(a: Option<String>, b: Option<String>, c: Option<String>) -> Option<
    String,
> {
    spec_or2(a, spec_or2(b, c))
}

/// Whether a binding lists the given data source.
pub open spec fn spec_has_data_source(b: DatabaseBinding, ds: Seq<char>) -> bool {
    exists|j: int| 0 <= j < b.data_sources@.len() && b.data_sources@[j].id@ == ds
}

/// The first binding listing the given data source.
pub open spec fn spec_find_by_data_source(bindings: Seq<DatabaseBinding>, ds: Seq<char>) -> Option<
    DatabaseBinding,
>
    decreases bindings.len(),
{
    if bindings.len() == 0 {
        None
    } else if spec_has_data_source(bindings[0], ds) {
        Some(bindings[0])
    } else {
        spec_find_by_data_source(bindings.drop_first(), ds)
    }
}

/// The first binding with the given database id.
pub open spec fn spec_find_by_id(bindings: Seq<DatabaseBinding>, id: Seq<char>) -> Option<
    DatabaseBinding,
>
    decreases bindings.len(),
{
    if bindings.len() == 0 {
        None
    } else if bindings[0].id@ == id {
        Some(bindings[0])
    } else {
        spec_find_by_id(bindings.drop_first(), id)
    }
}

/// One scan job per data source of a binding.
pub open spec fn spec_scan_jobs(b: DatabaseBinding) -> Seq<SyncJob> {
    b.data_sources@.map_values(
        |ds: DataSourceInfo| SyncJob::ScanDataSource { database_id: b.id, data_source_id: ds.id },
    )
}

/// The dispatch step: a page id wins over a data-source id, which wins over a
/// database id; an id that names no binding is dropped; no id at all is a bad
/// request.
pub open spec fn spec_dispatch(bindings: Seq<DatabaseBinding>, f: WebhookFields) -> DecisionV {
    match spec_or2(f.page_id, f.data_id) {
        Some(p) => DecisionV::Enqueue(seq![SyncJob::SyncPageById { page_id: p }]),
        None => match spec_or3(
            f.data_source_id,
            f.data_data_source_id,
            f.data_parent_data_source_id,
        ) {
            Some(ds) => match spec_find_by_data_source(bindings, ds@) {
                None => DecisionV::UnknownBinding,
                Some(b) => DecisionV::Enqueue(
                    seq![
                        SyncJob::ScanDataSource { database_id: b.id, data_source_id: ds },
                    ],
                ),
            },
            None => match spec_or3(f.database_id, f.data_database_id, f.data_parent_database_id) {
                Some(db) => match spec_find_by_id(bindings, db@) {
                    None => DecisionV::UnknownBinding,
                    Some(b) => DecisionV::Enqueue(spec_scan_jobs(b)),
                },
                None => DecisionV::NoMatch,
            },
        },
    }
}

/// The whole ingress decision, in order: malformed body, handshake, signature
/// (only when a secret is configured), staleness, dispatch.
pub open spec fn spec_webhook_decision(
    bindings: Seq<DatabaseBinding>,
    secret: Option<&str>,
    header: Option<Seq<char>>,
    body: Seq<u8>,
    fields: Option<WebhookFields>,
    now: int,
    max_age_seconds: int,
) -> DecisionV {
    match fields {
        None => DecisionV::Malformed,
        Some(f) => {
            if f.verification_token is Some {
                DecisionV::Handshake
            } else if match secret {
                Some(s) => !spec_sig_accepts(s.spec_bytes(), body, header),
                None => false,
            } {
                DecisionV::Unauthorized
            } else if spec_is_stale(f.timestamp, now, max_age_seconds) {
                DecisionV::StaleDrop
            } else {
                spec_dispatch(bindings, f)
            }
        },
    }
}

fn clone_opt_string(o: &Option<String>) -> (r: Option<String>)
    ensures
        r == *o,
{
    match o {
        None => None,
        Some(s) => Some(s.clone()),
    }
}

/// The first binding listing the given data source.
fn find_by_data_source<'a>(bindings: &'a Vec<DatabaseBinding>, ds: &String) -> (r: Option<
    &'a DatabaseBinding,
>)
    ensures
        match r {
            None => spec_find_by_data_source(bindings@, ds@) is None,
            Some(b) => spec_find_by_data_source(bindings@, ds@) == Some(*b),
        },
{
    let mut i: usize = 0;
    proof {
        assert(bindings@.skip(0) =~= bindings@);
    }
    while i < bindings.len()
        invariant
            0 <= i <= bindings@.len(),
            spec_find_by_data_source(bindings@.skip(i as int), ds@) == spec_find_by_data_source(
                bindings@,
                ds@,
            ),
        decreases bindings@.len() - i,
    {
        proof {
            assert(bindings@.skip(i as int)[0] == bindings@[i as int]);
            assert(bindings@.skip(i as int).drop_first() =~= bindings@.skip(i as int + 1));
        }
        let b = &bindings[i];
        if binding_has_data_source(b, ds) {
            return Some(b);
        }
        i = i + 1;
    }
    None
}

/// Whether a binding lists the given data source.
pub fn binding_has_data_source(b: &DatabaseBinding, ds: &String) -> (r: bool)
    ensures
        r == spec_has_data_source(*b, ds@),
{
    let mut j: usize = 0;
    while j < b.data_sources.len()
        invariant
            0 <= j <= b.data_sources@.len(),
            forall|t: int| 0 <= t < j ==> b.data_sources@[t].id@ != ds@,
        decreases b.data_sources@.len() - j,
    {
        if crate::strings::str_eq(b.data_sources[j].id.as_str(), ds.as_str()) {
            return true;
        }
        j = j + 1;
    }
    false
}

/// The first binding with the given database id.
fn find_by_id<'a>(bindings: &'a Vec<DatabaseBinding>, id: &String) -> (r: Option<
    &'a DatabaseBinding,
>)
    ensures
        match r {
            None => spec_find_by_id(bindings@, id@) is None,
            Some(b) => spec_find_by_id(bindings@, id@) == Some(*b),
        },
{
    let mut i: usize = 0;
    proof {
        assert(bindings@.skip(0) =~= bindings@);
    }
    while i < bindings.len()
        invariant
            0 <= i <= bindings@.len(),
            spec_find_by_id(bindings@.skip(i as int), id@) == spec_find_by_id(bindings@, id@),
        decreases bindings@.len() - i,
    {
        proof {
            assert(bindings@.skip(i as int)[0] == bindings@[i as int]);
            assert(bindings@.skip(i as int).drop_first() =~= bindings@.skip(i as int + 1));
        }
        if crate::strings::str_eq(bindings[i].id.as_str(), id.as_str()) {
            return Some(&bindings[i]);
        }
        i = i + 1;
    }
    None
}

/// Decides what to answer and what to enqueue for one webhook request.
///
/// `body` holds the exact bytes received over the wire; `fields` holds the
/// parsed payload, or `None` when the body is not JSON; `now_epoch` is the
/// current time in Unix epoch seconds.
pub fn handle_webhook(
    bindings: &Vec<DatabaseBinding>,
    secret: Option<&str>,
    signature_header: Option<&str>,
    body: &[u8],
    fields: Option<&WebhookFields>,
    now_epoch: i64,
    max_age_seconds: u64,
) -> (d: WebhookDecision)
    ensures
        decision_view(d) == spec_webhook_decision(
            bindings@,
            secret,
            opt_view(signature_header),
            body@,
            match fields {
                None => None,
                Some(f) => Some(*f),
            },
            now_epoch as int,
            max_age_seconds as int,
        ),
{
    let f = match fields {
        None => {
            return WebhookDecision::Malformed;
        },
        Some(f) => f,
    };
    if f.verification_token.is_some() {
        return WebhookDecision::Handshake;
    }
    if let Some(s) = secret {
        if !verify_signature(s, signature_header, body) {
            return WebhookDecision::Unauthorized;
        }
    }
    if let Some(ts) = &f.timestamp {
        if let Some(event_epoch) = parse_rfc3339_epoch(ts.as_str()) {
            let age: i128 = if now_epoch >= event_epoch {
                now_epoch as i128 - event_epoch as i128
            } else {
                event_epoch as i128 - now_epoch as i128
            };
            if age > max_age_seconds as i128 {
                return WebhookDecision::StaleDrop;
            }
        }
    }
    let page = match &f.page_id {
        Some(p) => Some(p.clone()),
        None => clone_opt_string(&f.data_id),
    };
    if let Some(p) = page {
        let mut jobs: Vec<SyncJob> = Vec::new();
        jobs.push(SyncJob::SyncPageById { page_id: p });
        proof {
            let fv = *f;
            assert(jobs@ =~= seq![
                SyncJob::SyncPageById { page_id: spec_or2(fv.page_id, fv.data_id).unwrap() },
            ]);
        }
        return WebhookDecision::Enqueue(jobs);
    }
    let ds = match &f.data_source_id {
        Some(d) => Some(d.clone()),
        None => match &f.data_data_source_id {
            Some(d) => Some(d.clone()),
            None => clone_opt_string(&f.data_parent_data_source_id),
        },
    };
    if let Some(d) = ds {
        match find_by_data_source(bindings, &d) {
            None => {
                return WebhookDecision::UnknownBinding;
            },
            Some(b) => {
                let mut jobs: Vec<SyncJob> = Vec::new();
                jobs.push(
                    SyncJob::ScanDataSource { database_id: b.id.clone(), data_source_id: d },
                );
                proof {
                    let fv = *f;
                    let dsv = spec_or3(
                        fv.data_source_id,
                        fv.data_data_source_id,
                        fv.data_parent_data_source_id,
                    ).unwrap();
                    let bv = spec_find_by_data_source(bindings@, dsv@).unwrap();
                    assert(jobs@ =~= seq![
                        SyncJob::ScanDataSource { database_id: bv.id, data_source_id: dsv },
                    ]);
                }
                return WebhookDecision::Enqueue(jobs);
            },
        }
    }
    let db = match &f.database_id {
        Some(d) => Some(d.clone()),
        None => match &f.data_database_id {
            Some(d) => Some(d.clone()),
            None => clone_opt_string(&f.data_parent_database_id),
        },
    };
    if let Some(d) = db {
        match find_by_id(bindings, &d) {
            None => {
                return WebhookDecision::UnknownBinding;
            },
            Some(b) => {
                let ghost bv = *b;
                let mut jobs: Vec<SyncJob> = Vec::new();
                let mut j: usize = 0;
                proof {
                    assert(jobs@ =~= spec_scan_jobs(bv).take(0));
                }
                while j < b.data_sources.len()
                    invariant
                        0 <= j <= b.data_sources@.len(),
                        bv == *b,
                        jobs@ == spec_scan_jobs(bv).take(j as int),
                    decreases b.data_sources@.len() - j,
                {
                    jobs.push(
                        SyncJob::ScanDataSource {
                            database_id: b.id.clone(),
                            data_source_id: b.data_sources[j].id.clone(),
                        },
                    );
                    proof {
                        assert(spec_scan_jobs(bv)[j as int] == SyncJob::ScanDataSource {
                            database_id: bv.id,
                            data_source_id: bv.data_sources@[j as int].id,
                        });
                        assert(jobs@ =~= spec_scan_jobs(bv).take(j as int + 1));
                    }
                    j = j + 1;
                }
                proof {
                    assert(spec_scan_jobs(bv).take(bv.data_sources@.len() as int)
                        =~= spec_scan_jobs(bv));
                }
                return WebhookDecision::Enqueue(jobs);
            },
        }
    }
    WebhookDecision::NoMatch
}

} // verus!
