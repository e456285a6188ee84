use chronicle_data_api::config::{Config, ConfigError, RawEnv};

fn full() -> RawEnv {
    RawEnv {
        database_url: Some("postgres://db".to_string()),
        s3_endpoint: Some("http://s3".to_string()),
        s3_access_key: Some("ak".to_string()),
        s3_secret_key: Some("sk".to_string()),
        s3_bucket: Some("bucket".to_string()),
        shared_secret: Some("root".to_string()),
        bind_addr: None,
        resume_ttl_secs: None,
        heartbeat_reap_secs: None,
        ws_queue_depth: None,
    }
}

#[test]
fn defaults_apply() {
    let c = Config::from_raw(full()).unwrap();
    assert_eq!(c.bind_addr, "0.0.0.0:8001");
    assert_eq!(c.resume_ttl, 86_400);
    assert_eq!(c.heartbeat_reap, 90);
    assert_eq!(c.ws_queue_depth, 64);
    assert_eq!(c.s3_bucket, "bucket");
}

#[test]
fn explicit_values_win() {
    let mut raw = full();
    raw.bind_addr = Some("127.0.0.1:9".to_string());
    raw.resume_ttl_secs = Some("60".to_string());
    raw.ws_queue_depth = Some("+8".to_string());
    let c = Config::from_raw(raw).unwrap();
    assert_eq!(c.bind_addr, "127.0.0.1:9");
    assert_eq!(c.resume_ttl, 60);
    assert_eq!(c.ws_queue_depth, 8);
}

#[test]
fn first_missing_variable_is_reported() {
    let mut raw = full();
    raw.s3_secret_key = None;
    raw.shared_secret = None;
    assert!(matches!(Config::from_raw(raw), Err(ConfigError::Missing("S3_SECRET_KEY"))));
}

#[test]
fn unparsable_number_is_reported() {
    let mut raw = full();
    raw.heartbeat_reap_secs = Some("-1".to_string());
    match Config::from_raw(raw) {
        Err(ConfigError::Invalid { var, reason }) => {
            assert_eq!(var, "HEARTBEAT_REAP_SECS");
            assert_eq!(reason, "invalid digit found in string");
        }
        _ => panic!("expected invalid"),
    }
}

#[test]
fn bucket_defaults_when_unset() {
    let mut raw = full();
    raw.s3_bucket = None;
    let c = Config::from_raw(raw).unwrap();
    assert_eq!(c.s3_bucket, "ovp-dataset-raw");
    assert_eq!(c.bind_addr, "0.0.0.0:8001");
    assert_eq!(c.resume_ttl, 86_400);
    assert_eq!(c.heartbeat_reap, 90);
    assert_eq!(c.ws_queue_depth, 64);
    let mut raw = full();
    raw.s3_bucket = None;
    raw.shared_secret = None;
    assert!(matches!(Config::from_raw(raw), Err(ConfigError::Missing("SHARED_SECRET"))));
}
