use notion_mirror::config::{
    default_webhook_host, default_webhook_max_age_seconds, default_webhook_port,
    effective_scan_interval, AppConfig, BackendConfig, DatabaseConfig, NotionConfig, QueueConfig,
    WebhookConfig,
};
use notion_mirror::json::Json;
use notion_mirror::notion::{DataSourceInfo, PageParent};
use notion_mirror::queue::SyncJob;
use notion_mirror::render::BlobRef;
use notion_mirror::strings::usize_to_string;
use notion_mirror::webhook::DatabaseBinding;
use notion_mirror::worker::{
    dedupe_blobs, on_job_failure, page_markdown_path, plan_job, resolve_parent_binding, JobStep,
    SyncError,
};

fn binding(id: &str, data_sources: &[&str]) -> DatabaseBinding {
    DatabaseBinding {
        id: id.to_string(),
        data_sources: data_sources
            .iter()
            .map(|d| DataSourceInfo { id: d.to_string(), name: None })
            .collect(),
        key_map: vec![],
        property_includes: None,
    }
}

#[test]
fn failed_jobs_retry_after_ten_seconds() {
    let job = SyncJob::SyncPageById { page_id: "p".to_string() };
    let plan = on_job_failure(job.clone());
    assert_eq!(plan.delay_seconds, 10);
    assert_eq!(plan.job, job);
}

#[test]
fn job_planning_resolves_bindings() {
    let bindings = vec![binding("db1", &["ds1"]), binding("db2", &["ds2"])];
    let step = plan_job(
        &bindings,
        SyncJob::SyncPage { database_id: "db2".to_string(), page_id: "p".to_string() },
    );
    assert_eq!(step, JobStep::RunSyncPage { binding: 1, page_id: "p".to_string() });
    let step = plan_job(
        &bindings,
        SyncJob::ScanDataSource { database_id: "nope".to_string(), data_source_id: "d".to_string() },
    );
    assert_eq!(step, JobStep::DropUnknown { database_id: "nope".to_string() });
    let step = plan_job(&bindings, SyncJob::SyncPageById { page_id: "p".to_string() });
    assert_eq!(step, JobStep::ResolveParent { page_id: "p".to_string() });
}

#[test]
fn parent_resolution_prefers_data_source() {
    let bindings = vec![binding("db1", &["dsX"]), binding("db2", &["dsY"])];
    let parent = PageParent {
        parent_type: "data_source_id".to_string(),
        database_id: Some("db1".to_string()),
        data_source_id: Some("dsY".to_string()),
    };
    assert_eq!(resolve_parent_binding(&bindings, &parent), Some(1));
    let parent = PageParent {
        parent_type: "database_id".to_string(),
        database_id: Some("db1".to_string()),
        data_source_id: None,
    };
    assert_eq!(resolve_parent_binding(&bindings, &parent), Some(0));
    let parent = PageParent {
        parent_type: "workspace".to_string(),
        database_id: None,
        data_source_id: None,
    };
    assert_eq!(resolve_parent_binding(&bindings, &parent), None);
}

#[test]
fn page_paths() {
    assert_eq!(page_markdown_path("p1"), "pages/p1.md");
}

#[test]
fn blob_dedupe_keeps_first_occurrence() {
    let blobs = vec![
        BlobRef { path: "blobs/a.png".to_string(), url: "u1".to_string() },
        BlobRef { path: "blobs/b.png".to_string(), url: "u2".to_string() },
        BlobRef { path: "blobs/a.png".to_string(), url: "u3".to_string() },
    ];
    let plan = dedupe_blobs(&blobs);
    assert_eq!(plan.len(), 2);
    assert_eq!(plan[0].path, "blobs/a.png");
    assert_eq!(plan[0].url, "u1");
    assert_eq!(plan[1].path, "blobs/b.png");
}

#[test]
fn empty_blob_list_plans_no_downloads() {
    let plan = dedupe_blobs(&vec![]);
    assert!(plan.is_empty());
}

#[test]
fn webhook_defaults() {
    assert_eq!(default_webhook_host(), "0.0.0.0");
    assert_eq!(default_webhook_port(), 3000);
    assert_eq!(default_webhook_max_age_seconds(), 300);
    let w = WebhookConfig::default();
    assert_eq!(w.host, "0.0.0.0");
    assert_eq!(w.port, 3000);
    assert!(w.secret.is_none());
    assert_eq!(w.max_age_seconds, 300);
}

fn config_with(api_key: &str, databases: Vec<DatabaseConfig>) -> AppConfig {
    AppConfig {
        notion: NotionConfig { api_key: api_key.to_string() },
        webhook: WebhookConfig::default(),
        queue: QueueConfig { name: "q".to_string(), redis_url: None },
        sync_interval_seconds: 0,
        database: databases.into_iter().enumerate().map(|(i, d)| (i.to_string(), d)).collect(),
    }
}

fn db_config(id: &str, backends: usize) -> DatabaseConfig {
    DatabaseConfig {
        id: id.to_string(),
        storage: (0..backends)
            .map(|_| BackendConfig { scheme: "memory".to_string(), settings: vec![] })
            .collect(),
        key_map: vec![],
        properties_map: vec![],
        property_includes: None,
    }
}

#[test]
fn config_validation() {
    assert!(config_with("key", vec![db_config("db", 1)]).validate());
    assert!(!config_with("   ", vec![db_config("db", 1)]).validate());
    assert!(!config_with("key", vec![]).validate());
    assert!(!config_with("key", vec![db_config("db", 0)]).validate());
}

#[test]
fn effective_key_map_override() {
    let mut db = db_config("db", 1);
    db.key_map = vec![("a".to_string(), "b".to_string())];
    assert_eq!(db.effective_key_map().len(), 1);
    db.properties_map = vec![("x".to_string(), "y".to_string()), ("z".to_string(), "w".to_string())];
    assert_eq!(db.effective_key_map().len(), 2);
    assert_eq!(db.effective_key_map()[0].0, "x");
}

#[test]
fn backend_settings_coercion() {
    let backend = BackendConfig {
        scheme: "s3".to_string(),
        settings: vec![
            ("bucket".to_string(), Json::Str("pages".to_string())),
            (
                "retries".to_string(),
                Json::Num { text: "3".to_string(), float_text: "3".to_string(), int_text: Some("3".to_string()) },
            ),
            ("secure".to_string(), Json::Bool(true)),
            ("extra".to_string(), Json::Arr(vec![])),
            ("nothing".to_string(), Json::Null),
        ],
    };
    let coerced = backend.settings_as_strings();
    assert_eq!(
        coerced,
        vec![
            ("bucket".to_string(), "pages".to_string()),
            ("retries".to_string(), "3".to_string()),
            ("secure".to_string(), "true".to_string()),
        ]
    );
}

#[test]
fn queue_selection_and_scan_interval() {
    let q = QueueConfig { name: "n".to_string(), redis_url: None };
    assert!(!q.uses_broker());
    let q = QueueConfig { name: "n".to_string(), redis_url: Some("  ".to_string()) };
    assert!(!q.uses_broker());
    let q = QueueConfig { name: "n".to_string(), redis_url: Some("redis://h".to_string()) };
    assert!(q.uses_broker());
    assert_eq!(effective_scan_interval(0), 1);
    assert_eq!(effective_scan_interval(1), 1);
    assert_eq!(effective_scan_interval(90), 90);
}

#[test]
fn error_descriptions() {
    assert_eq!(
        SyncError::UpstreamError { status: 404, body: "gone".to_string() }.describe(),
        "upstream error 404: gone"
    );
    assert_eq!(
        SyncError::BlobFetchError { url: "https://b".to_string(), status: 500 }.describe(),
        "failed to download blob https://b: 500"
    );
    assert_eq!(SyncError::AuthError.describe(), "signature mismatch");
    assert_eq!(SyncError::MalformedPayload.describe(), "malformed payload");
    assert_eq!(
        SyncError::UnknownBinding("db9".to_string()).describe(),
        "no binding configured for db9"
    );
    assert_eq!(
        SyncError::ConfigError("bad".to_string()).describe(),
        "invalid configuration: bad"
    );
    assert_eq!(
        SyncError::TransportError("refused".to_string()).describe(),
        "transport error: refused"
    );
    assert_eq!(
        SyncError::StoreWriteError("denied".to_string()).describe(),
        "store write failed: denied"
    );
}

#[test]
fn decimal_rendering() {
    assert_eq!(usize_to_string(0), "0");
    assert_eq!(usize_to_string(7), "7");
    assert_eq!(usize_to_string(105), "105");
    assert_eq!(usize_to_string(98765), "98765");
}
