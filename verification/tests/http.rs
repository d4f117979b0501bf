use phaneros::blob_repository::BlobRepositoryError;
use phaneros::http::{
    bearer, blob_missing_query, blob_upload_result, blob_url, drive_url, node_url, read_outcome, MissingQuery,
    ReadOutcome, RootCache,
};
use phaneros::node_repository::NodeRepositoryError;

#[test]
fn resource_addresses() {
    assert_eq!(drive_url("http://store:8080", "work", "root"), "http://store:8080/api/drives/work/root");
    assert_eq!(blob_url("http://s", "d", "abc"), "http://s/api/drives/d/blobs/abc");
    assert_eq!(node_url("http://s", "d", "abc"), "http://s/api/drives/d/nodes/abc");
    assert_eq!(bearer("tok"), "Bearer tok");
}

#[test]
fn read_statuses() {
    assert_eq!(read_outcome(200), ReadOutcome::Found);
    assert_eq!(read_outcome(404), ReadOutcome::Absent);
    assert_eq!(read_outcome(500), ReadOutcome::Failed);
    assert_eq!(read_outcome(201), ReadOutcome::Failed);
}

#[test]
fn upload_statuses() {
    assert!(blob_upload_result(201, "h".to_string()).is_ok());
    assert!(blob_upload_result(299, "h".to_string()).is_ok());
    match blob_upload_result(413, "h".to_string()) {
        Err(BlobRepositoryError::UploadRejected { hash, reason }) => {
            assert_eq!(hash, "h");
            assert_eq!(reason, "Blob too large");
        }
        other => panic!("unexpected {:?}", other),
    }
    assert!(matches!(blob_upload_result(500, "h".to_string()), Err(BlobRepositoryError::InsertFailed(h)) if h == "h"));
}

#[test]
fn missing_queries() {
    assert_eq!(blob_missing_query(0), MissingQuery::Nothing);
    assert_eq!(blob_missing_query(1), MissingQuery::Single);
    assert_eq!(blob_missing_query(5), MissingQuery::Batch);
}

#[test]
fn root_cache_follows_reads_and_writes() {
    let mut cache = RootCache::new();
    assert_eq!(cache.cached, None);
    assert_eq!(cache.on_root_read(200, Some("r1".to_string())).unwrap(), Some("r1".to_string()));
    assert_eq!(cache.cached, Some("r1".to_string()));
    assert!(matches!(cache.on_root_read(503, None), Err(NodeRepositoryError::RootRetrieveFailed)));
    assert_eq!(cache.cached, Some("r1".to_string()));
    assert!(cache.on_root_put("r2".to_string(), 204, None).is_ok());
    assert_eq!(cache.cached, Some("r2".to_string()));
    match cache.on_root_put("r3".to_string(), 409, Some("other".to_string())) {
        Err(NodeRepositoryError::RootConflict { actual }) => assert_eq!(actual, Some("other".to_string())),
        other => panic!("unexpected {:?}", other),
    }
    assert_eq!(cache.cached, Some("other".to_string()));
    assert!(matches!(cache.on_root_put("r4".to_string(), 500, None), Err(NodeRepositoryError::SetRootFailed(h)) if h == "r4"));
    assert_eq!(cache.cached, Some("other".to_string()));
    assert_eq!(cache.on_root_read(404, None).unwrap(), None);
    assert_eq!(cache.cached, None);
}
