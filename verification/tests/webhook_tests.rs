use hmac::{Hmac, KeyInit, Mac};
use notion_mirror::notion::DataSourceInfo;
use notion_mirror::queue::SyncJob;
use notion_mirror::webhook::{
    handle_webhook, verify_signature, DatabaseBinding, WebhookDecision, WebhookFields,
};
use sha2::Sha256;

fn sign(secret: &str, body: &[u8]) -> String {
    let mut mac = Hmac::<Sha256>::new_from_slice(secret.as_bytes()).unwrap();
    mac.update(body);
    hex::encode(mac.finalize().into_bytes())
}

fn fields() -> WebhookFields {
    WebhookFields {
        verification_token: None,
        timestamp: None,
        page_id: None,
        data_id: None,
        data_source_id: None,
        data_data_source_id: None,
        data_parent_data_source_id: None,
        database_id: None,
        data_database_id: None,
        data_parent_database_id: None,
    }
}

fn binding(id: &str, data_sources: &[&str]) -> DatabaseBinding {
    DatabaseBinding {
        id: id.to_string(),
        data_sources: data_sources
            .iter()
            .map(|d| DataSourceInfo { id: d.to_string(), name: None })
            .collect(),
        key_map: vec![],
        property_includes: None,
    }
}

#[test]
fn signature_accepts_exact_mac() {
    let body = b"{\"page_id\":\"pX\"}";
    let sig = sign("secret", body);
    assert!(verify_signature("secret", Some(&sig), body));
    assert!(verify_signature("secret", Some(&format!("sha256={}", sig)), body));
    assert!(verify_signature("secret", Some(&format!("  {}  ", sig)), body));
}

#[test]
fn signature_rejects_everything_else() {
    let body = b"{\"page_id\":\"pX\"}";
    let sig = sign("secret", body);
    assert!(!verify_signature("other", Some(&sig), body));
    assert!(!verify_signature("secret", Some(&sig), b"tampered"));
    assert!(!verify_signature("secret", None, body));
    assert!(!verify_signature("secret", Some("zz-not-hex"), body));
    assert!(!verify_signature("secret", Some("abc"), body));
    let mut wrong = sign("secret", body);
    wrong.replace_range(0..1, if wrong.starts_with('0') { "1" } else { "0" });
    assert!(!verify_signature("secret", Some(&wrong), body));
}

#[test]
fn webhook_page_event_enqueues_page_sync() {
    let bindings = vec![binding("db1", &["ds1"])];
    let body = b"{\"page_id\":\"pX\"}";
    let sig = sign("s3", body);
    let mut f = fields();
    f.page_id = Some("pX".to_string());
    let decision = handle_webhook(&bindings, Some("s3"), Some(&sig), body, Some(&f), 0, 300);
    assert_eq!(decision.status_code(), 200);
    match decision {
        WebhookDecision::Enqueue(jobs) => {
            assert_eq!(jobs, vec![SyncJob::SyncPageById { page_id: "pX".to_string() }]);
        },
        _ => panic!("expected an enqueue decision"),
    }
}

#[test]
fn webhook_bad_signature_is_unauthorized() {
    let bindings = vec![binding("db1", &["ds1"])];
    let mut f = fields();
    f.page_id = Some("pX".to_string());
    let decision = handle_webhook(&bindings, Some("s3"), Some("00"), b"{}", Some(&f), 0, 300);
    assert!(matches!(decision, WebhookDecision::Unauthorized));
    assert_eq!(decision.status_code(), 401);
}

#[test]
fn webhook_unknown_database_drops_with_200() {
    let bindings = vec![binding("db1", &["ds1"])];
    let mut f = fields();
    f.database_id = Some("unknown".to_string());
    let decision = handle_webhook(&bindings, None, None, b"{}", Some(&f), 0, 300);
    assert!(matches!(decision, WebhookDecision::UnknownBinding));
    assert_eq!(decision.status_code(), 200);
}

#[test]
fn webhook_known_database_scans_all_data_sources() {
    let bindings = vec![binding("db1", &["ds1", "ds2"])];
    let mut f = fields();
    f.data_parent_database_id = Some("db1".to_string());
    let decision = handle_webhook(&bindings, None, None, b"{}", Some(&f), 0, 300);
    match decision {
        WebhookDecision::Enqueue(jobs) => {
            assert_eq!(jobs.len(), 2);
            assert_eq!(
                jobs[0],
                SyncJob::ScanDataSource {
                    database_id: "db1".to_string(),
                    data_source_id: "ds1".to_string()
                }
            );
            assert_eq!(
                jobs[1],
                SyncJob::ScanDataSource {
                    database_id: "db1".to_string(),
                    data_source_id: "ds2".to_string()
                }
            );
        },
        _ => panic!("expected an enqueue decision"),
    }
}

#[test]
fn webhook_data_source_event_scans_one() {
    let bindings = vec![binding("dbA", &["dsA"]), binding("dbB", &["dsB"])];
    let mut f = fields();
    f.data_data_source_id = Some("dsB".to_string());
    let decision = handle_webhook(&bindings, None, None, b"{}", Some(&f), 0, 300);
    match decision {
        WebhookDecision::Enqueue(jobs) => {
            assert_eq!(
                jobs,
                vec![SyncJob::ScanDataSource {
                    database_id: "dbB".to_string(),
                    data_source_id: "dsB".to_string()
                }]
            );
        },
        _ => panic!("expected an enqueue decision"),
    }
}

#[test]
fn webhook_stale_event_drops_with_200() {
    let bindings = vec![binding("db1", &["ds1"])];
    let ts = "2024-01-02T03:04:05Z";
    let epoch = time::OffsetDateTime::parse(ts, &time::format_description::well_known::Rfc3339)
        .unwrap()
        .unix_timestamp();
    let mut f = fields();
    f.timestamp = Some(ts.to_string());
    f.page_id = Some("pX".to_string());
    let stale = handle_webhook(&bindings, None, None, b"{}", Some(&f), epoch + 301, 300);
    assert!(matches!(stale, WebhookDecision::StaleDrop));
    assert_eq!(stale.status_code(), 200);
    let stale_past = handle_webhook(&bindings, None, None, b"{}", Some(&f), epoch - 301, 300);
    assert!(matches!(stale_past, WebhookDecision::StaleDrop));
    let fresh = handle_webhook(&bindings, None, None, b"{}", Some(&f), epoch + 299, 300);
    assert!(matches!(fresh, WebhookDecision::Enqueue(_)));
}

#[test]
fn webhook_handshake_and_malformed_and_no_match() {
    let bindings = vec![binding("db1", &["ds1"])];
    let mut f = fields();
    f.verification_token = Some("tok".to_string());
    let hs = handle_webhook(&bindings, None, None, b"{}", Some(&f), 0, 300);
    assert!(matches!(hs, WebhookDecision::Handshake));
    assert_eq!(hs.status_code(), 200);

    let malformed = handle_webhook(&bindings, None, None, b"not json", None, 0, 300);
    assert!(matches!(malformed, WebhookDecision::Malformed));
    assert_eq!(malformed.status_code(), 400);

    let empty = fields();
    let no_match = handle_webhook(&bindings, None, None, b"{}", Some(&empty), 0, 300);
    assert!(matches!(no_match, WebhookDecision::NoMatch));
    assert_eq!(no_match.status_code(), 400);
}

#[test]
fn webhook_page_id_wins_over_database_id() {
    let bindings = vec![binding("db1", &["ds1"])];
    let mut f = fields();
    f.data_id = Some("pZ".to_string());
    f.database_id = Some("db1".to_string());
    let decision = handle_webhook(&bindings, None, None, b"{}", Some(&f), 0, 300);
    match decision {
        WebhookDecision::Enqueue(jobs) => {
            assert_eq!(jobs, vec![SyncJob::SyncPageById { page_id: "pZ".to_string() }]);
        },
        _ => panic!("expected an enqueue decision"),
    }
}
