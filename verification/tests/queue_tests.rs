use notion_mirror::queue::{decode_job, describe_job, encode_job, queue_key, JobFifo, SyncJob};

#[test]
fn round_trip_sync_page_by_id() {
    let job = SyncJob::SyncPageById { page_id: "p-1".to_string() };
    let encoded = encode_job(&job);
    assert_eq!(encoded, "{\"SyncPageById\":{\"page_id\":\"p-1\"}}");
    assert_eq!(decode_job(&encoded), Some(job));
}

#[test]
fn round_trip_sync_page() {
    let job = SyncJob::SyncPage { database_id: "db".to_string(), page_id: "pg".to_string() };
    let encoded = encode_job(&job);
    assert_eq!(encoded, "{\"SyncPage\":{\"database_id\":\"db\",\"page_id\":\"pg\"}}");
    assert_eq!(decode_job(&encoded), Some(job));
}

#[test]
fn round_trip_scan_data_source() {
    let job = SyncJob::ScanDataSource {
        database_id: "db".to_string(),
        data_source_id: "ds".to_string(),
    };
    let encoded = encode_job(&job);
    assert_eq!(decode_job(&encoded), Some(job));
}

#[test]
fn round_trip_with_escapes() {
    let job = SyncJob::SyncPageById { page_id: "a\"b\\c\nd\te\u{7}".to_string() };
    let encoded = encode_job(&job);
    assert_eq!(decode_job(&encoded), Some(job));
}

#[test]
fn encoding_matches_external_json_encoder() {
    let job = SyncJob::SyncPage {
        database_id: "d\"x".to_string(),
        page_id: "p\u{1f}".to_string(),
    };
    let encoded = encode_job(&job);
    let value: serde_json::Value = serde_json::from_str(&encoded).unwrap();
    assert_eq!(value["SyncPage"]["database_id"].as_str(), Some("d\"x"));
    assert_eq!(value["SyncPage"]["page_id"].as_str(), Some("p\u{1f}"));
}

#[test]
fn decode_tolerates_whitespace() {
    let decoded = decode_job(" { \"SyncPage\" : { \"database_id\" : \"d\" , \"page_id\" : \"p\" } } ");
    assert_eq!(
        decoded,
        Some(SyncJob::SyncPage { database_id: "d".to_string(), page_id: "p".to_string() })
    );
}

#[test]
fn decode_rejects_garbage() {
    assert_eq!(decode_job(""), None);
    assert_eq!(decode_job("{}"), None);
    assert_eq!(decode_job("{\"Other\":{\"page_id\":\"x\"}}"), None);
    assert_eq!(decode_job("{\"SyncPageById\":{\"page_id\":\"x\"}} trailing"), None);
    assert_eq!(decode_job("{\"SyncPageById\":{\"wrong\":\"x\"}}"), None);
}

#[test]
fn fifo_preserves_order() {
    let mut q = JobFifo::new();
    assert!(q.try_enqueue(SyncJob::SyncPageById { page_id: "1".to_string() }));
    assert!(q.try_enqueue(SyncJob::SyncPageById { page_id: "2".to_string() }));
    assert_eq!(q.dequeue(), Some(SyncJob::SyncPageById { page_id: "1".to_string() }));
    assert_eq!(q.dequeue(), Some(SyncJob::SyncPageById { page_id: "2".to_string() }));
    assert_eq!(q.dequeue(), None);
}

#[test]
fn fifo_rejects_past_capacity() {
    let mut q = JobFifo::new();
    for i in 0..256 {
        assert!(q.try_enqueue(SyncJob::SyncPageById { page_id: i.to_string() }));
    }
    assert!(!q.try_enqueue(SyncJob::SyncPageById { page_id: "extra".to_string() }));
    assert_eq!(q.len(), 256);
    assert_eq!(q.dequeue(), Some(SyncJob::SyncPageById { page_id: "0".to_string() }));
    assert!(q.try_enqueue(SyncJob::SyncPageById { page_id: "extra".to_string() }));
}

#[test]
fn job_descriptions() {
    assert_eq!(
        describe_job(&SyncJob::SyncPageById { page_id: "p".to_string() }),
        "page sync p"
    );
    assert_eq!(
        describe_job(&SyncJob::SyncPage {
            database_id: "d".to_string(),
            page_id: "p".to_string()
        }),
        "page sync p (db d)"
    );
    assert_eq!(
        describe_job(&SyncJob::ScanDataSource {
            database_id: "d".to_string(),
            data_source_id: "s".to_string()
        }),
        "data source scan s (db d)"
    );
}

#[test]
fn broker_queue_key() {
    assert_eq!(queue_key("mirror"), "mirror:sync-jobs");
}
