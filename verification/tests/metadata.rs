use chronicle_data_api::error::AppError;
use chronicle_data_api::ids::ETag;
use chronicle_data_api::metadata::{etag_header, if_match_tag, merge_if_match, merge_shallow, JsonDoc};
use serde_json::Value;

fn obj(members: Vec<(&str, Value)>) -> JsonDoc {
    JsonDoc::Object(members.into_iter().map(|(k, v)| (k.to_string(), v)).collect())
}

fn nested(k: &str, v: i64) -> Value {
    let mut m = serde_json::Map::new();
    m.insert(k.to_string(), Value::from(v));
    Value::Object(m)
}

fn member<'a>(d: &'a JsonDoc, key: &str) -> Option<&'a Value> {
    match d {
        JsonDoc::Object(m) => m.iter().find(|(k, _)| k == key).map(|(_, v)| v),
        _ => None,
    }
}

fn member_count(d: &JsonDoc) -> usize {
    match d {
        JsonDoc::Object(m) => m.len(),
        _ => 0,
    }
}

#[test]
fn shallow_merge_replaces_top_level_keys_only() {
    let base = obj(vec![("a", Value::from(1)), ("b", nested("x", 1))]);
    let patch = obj(vec![("b", nested("y", 2)), ("c", Value::from(3))]);
    let got = merge_shallow(base, patch).unwrap();
    // `b` is replaced wholesale: nested key `x` is gone.
    assert_eq!(member_count(&got), 3);
    assert_eq!(member(&got, "a"), Some(&Value::from(1)));
    assert_eq!(member(&got, "b"), Some(&nested("y", 2)));
    assert_eq!(member(&got, "c"), Some(&Value::from(3)));
}

#[test]
fn shallow_merge_rejects_non_object_patch() {
    let base = obj(vec![]);
    let patch = JsonDoc::Other(Value::from(vec![1, 2, 3]));
    assert!(merge_shallow(base, patch).is_err());
}

#[test]
fn shallow_merge_treats_null_base_as_empty() {
    let got = merge_shallow(JsonDoc::Null, obj(vec![("k", Value::from(true))])).unwrap();
    assert_eq!(member_count(&got), 1);
    assert_eq!(member(&got, "k"), Some(&Value::from(true)));
}

#[test]
fn shallow_merge_rejects_non_object_base_first() {
    match merge_shallow(JsonDoc::Other(Value::from(5)), JsonDoc::Null) {
        Err(AppError::BadRequest(m)) => {
            assert_eq!(m, "existing metadata blob is not an object — cannot shallow-merge")
        }
        _ => panic!("expected bad request"),
    }
    match merge_shallow(JsonDoc::Null, JsonDoc::Null) {
        Err(AppError::BadRequest(m)) => assert_eq!(m, "patch body must be a JSON object"),
        _ => panic!("expected bad request"),
    }
}

#[test]
fn merge_with_matching_tag_proceeds() {
    let existing = Some((obj(vec![("a", Value::from(1))]), ETag("t1".to_string())));
    let got = merge_if_match(
        existing,
        ETag("fresh".to_string()),
        Some(ETag("t1".to_string())),
        obj(vec![("a", Value::from(2))]),
    )
    .unwrap();
    assert_eq!(member(&got, "a"), Some(&Value::from(2)));
}

#[test]
fn merge_with_stale_tag_fails_precondition() {
    let existing = Some((obj(vec![]), ETag("t1".to_string())));
    match merge_if_match(existing, ETag("fresh".to_string()), Some(ETag("t0".to_string())), obj(vec![])) {
        Err(AppError::PreconditionFailed { current_etag }) => assert_eq!(current_etag.as_str(), "t1"),
        _ => panic!("expected a failed precondition"),
    }
}

#[test]
fn merge_without_blob_reports_fresh_tag() {
    match merge_if_match(None, ETag("fresh".to_string()), Some(ETag("t0".to_string())), obj(vec![])) {
        Err(AppError::PreconditionFailed { current_etag }) => assert_eq!(current_etag.as_str(), "fresh"),
        _ => panic!("expected a failed precondition"),
    }
    let got = merge_if_match(None, ETag("fresh".to_string()), None, obj(vec![("z", Value::from(0))])).unwrap();
    assert_eq!(member_count(&got), 1);
}

#[test]
fn if_match_strips_quotes() {
    assert_eq!(if_match_tag("\"abc\"").as_str(), "abc");
    assert_eq!(if_match_tag("abc").as_str(), "abc");
    assert_eq!(if_match_tag("\"\"a\"b\"\"").as_str(), "a\"b");
    assert_eq!(if_match_tag("\"\"\"").as_str(), "");
    assert_eq!(if_match_tag("").as_str(), "");
}

#[test]
fn etag_header_round_trips_through_if_match() {
    let tag = ETag::new_random();
    let header = etag_header(&tag);
    assert_eq!(header, format!("\"{}\"", tag.as_str()));
    assert_eq!(if_match_tag(&header).as_str(), tag.as_str());
    assert_eq!(etag_header(&ETag(String::new())), "\"\"");
}

#[test]
fn replaying_a_merge_changes_nothing() {
    let base = obj(vec![("a", Value::from(1)), ("b", Value::from(2))]);
    let once = merge_shallow(base, obj(vec![("b", Value::from(3)), ("c", Value::from(4))])).unwrap();
    let twice = merge_shallow(
        merge_shallow(obj(vec![("a", Value::from(1)), ("b", Value::from(2))]), obj(vec![("b", Value::from(3)), ("c", Value::from(4))])).unwrap(),
        obj(vec![("b", Value::from(3)), ("c", Value::from(4))]),
    )
    .unwrap();
    for k in ["a", "b", "c"] {
        assert_eq!(member(&once, k), member(&twice, k));
    }
    assert_eq!(member_count(&once), member_count(&twice));
    let unchanged = merge_shallow(obj(vec![("a", Value::from(1))]), obj(vec![])).unwrap();
    assert_eq!(member(&unchanged, "a"), Some(&Value::from(1)));
    assert_eq!(member_count(&unchanged), 1);
}

#[test]
fn trimming_quotes_twice_is_trimming_once() {
    for raw in ["\"x\"", "\"\"x\"y\"\"", "x", "\"", ""] {
        let once = if_match_tag(raw);
        assert_eq!(if_match_tag(once.as_str()).as_str(), once.as_str());
    }
}
