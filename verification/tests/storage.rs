use chronicle_data_api::error::AppError;
use chronicle_data_api::storage::{
    delete_outcome, deletion_tally, get_outcome, head_bucket_outcome, ok_status, put_outcome, MemStore, S3Store,
};

#[test]
fn mem_store_put_get_delete() {
    let mut s = MemStore::new();
    assert!(s.is_empty());
    s.put("a", vec![1, 2], "audio/pcm").unwrap();
    s.put("b", vec![3], "audio/pcm").unwrap();
    s.put("a", vec![9], "audio/pcm").unwrap();
    assert_eq!(s.len(), 2);
    assert_eq!(s.get("a").unwrap(), vec![9]);
    let n = s.delete_many(&vec!["a".to_string(), "zz".to_string(), "a".to_string()]).unwrap();
    assert_eq!(n, 1);
    assert_eq!(s.len(), 1);
    match s.get("a") {
        Err(AppError::NotFound(m)) => assert_eq!(m, "object a not found"),
        _ => panic!("expected not found"),
    }
    assert!(s.head_bucket().is_ok());
}

#[test]
fn s3_status_outcomes() {
    assert!(ok_status(200) && ok_status(299) && !ok_status(300) && !ok_status(199));
    assert!(put_outcome("k", 204).is_ok());
    match put_outcome("k", 500) {
        Err(AppError::S3 { reason, retryable }) => {
            assert_eq!(reason, "put k → HTTP 500");
            assert!(retryable);
        }
        _ => panic!("expected s3 error"),
    }
    assert_eq!(get_outcome("k", 200, vec![7]).unwrap(), vec![7]);
    match get_outcome("k", 404, vec![]) {
        Err(AppError::NotFound(m)) => assert_eq!(m, "object k not found"),
        _ => panic!("expected not found"),
    }
    assert!(matches!(get_outcome("k", 503, vec![]), Err(AppError::S3 { .. })));
    assert!(delete_outcome("k", 404).is_ok());
    match delete_outcome("k", 403) {
        Err(AppError::S3 { reason, .. }) => assert_eq!(reason, "delete k → HTTP 403"),
        _ => panic!("expected s3 error"),
    }
    assert!(head_bucket_outcome(403).is_ok());
    match head_bucket_outcome(500) {
        Err(AppError::S3 { reason, .. }) => assert_eq!(reason, "head_bucket → HTTP 500"),
        _ => panic!("expected s3 error"),
    }
}

#[test]
fn s3_store_names_bucket() {
    assert_eq!(S3Store::for_bucket("chronicle".to_string()).bucket_name(), "chronicle");
}

#[test]
fn mem_store_len_counts_distinct_keys() {
    let mut s = MemStore::new();
    assert_eq!(s.len(), 0);
    let keys = ["k1", "k2", "k1", "k3", "k2", "k1"];
    for (i, k) in keys.iter().enumerate() {
        s.put(k, vec![i as u8], "application/octet-stream").unwrap();
    }
    assert_eq!(s.len(), 3);
}

#[test]
fn mem_store_reads_last_write() {
    let mut s = MemStore::new();
    s.put("x", vec![1], "audio/pcm").unwrap();
    s.put("y", vec![2], "audio/pcm").unwrap();
    s.put("x", vec![3, 3], "audio/pcm").unwrap();
    s.delete_many(&vec!["y".to_string()]).unwrap();
    s.put("z", vec![4], "audio/pcm").unwrap();
    assert_eq!(s.get("x").unwrap(), vec![3, 3]);
    match s.get("y") {
        Err(AppError::NotFound(m)) => assert_eq!(m, "object y not found"),
        _ => panic!("deleted key must be absent"),
    }
    match s.get("never") {
        Err(AppError::NotFound(m)) => assert_eq!(m, "object never not found"),
        _ => panic!("unwritten key must be absent"),
    }
    s.put("y", vec![5], "audio/pcm").unwrap();
    assert_eq!(s.get("y").unwrap(), vec![5]);
}

#[test]
fn deletions_count_only_reported_ones() {
    assert_eq!(deletion_tally(0, "a", 204).unwrap(), 1);
    assert_eq!(deletion_tally(3, "a", 200).unwrap(), 4);
    assert_eq!(deletion_tally(3, "gone", 404).unwrap(), 3);
    match deletion_tally(3, "k", 500) {
        Err(AppError::S3 { reason, retryable }) => {
            assert!(retryable);
            assert_eq!(reason, "delete k → HTTP 500");
        }
        _ => panic!("expected an S3 error"),
    }
}
