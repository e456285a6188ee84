use chronicle_data_api::uniform::row_from_columns;
use chronicle_data_api::error::AppError;
use chronicle_data_api::events::ResourceKind;
use chronicle_data_api::ids::{ETag, PseudoId};
use chronicle_data_api::uniform::{
    apply_patch, check_if_match, missing_row, plan_patch, select_new, validate_inputs, BulkRequest,
    CreateInput, PatchInput, ResourceTable, TextShape, UniformRow,
};
use serde_json::Value;

fn input(cid: &str, start: i64, end: i64, text: Option<&str>, title: Option<&str>) -> CreateInput {
    CreateInput {
        client_id: cid.to_string(),
        start_ms: start,
        end_ms: end,
        pseudo_id: None,
        text: text.map(|s| s.to_string()),
        title: title.map(|s| s.to_string()),
        summary: None,
        confidence: None,
        flags: None,
        original: None,
        author_user_pseudo_id: None,
    }
}

fn row() -> UniformRow {
    UniformRow {
        id: 1,
        session_id: 2,
        client_id: "c".to_string(),
        pseudo_id: None,
        start_ms: 100,
        end_ms: 200,
        text: Some("hello".to_string()),
        title: None,
        summary: None,
        confidence: Some(0.5f64.to_bits()),
        flags: Value::Null,
        original: None,
        etag: ETag("e1".to_string()),
        author_service: "worker".to_string(),
        author_user_pseudo_id: None,
        created_at: 0,
        updated_at: 0,
    }
}

fn empty_patch() -> PatchInput {
    PatchInput {
        text: None,
        title: None,
        summary: None,
        confidence: None,
        start_ms: None,
        end_ms: None,
        flags: None,
        author_user_pseudo_id: None,
    }
}

#[test]
fn resource_tables_name_their_tables() {
    let s = ResourceTable::segments();
    assert_eq!(s.table, "session_segments");
    assert_eq!(s.shape, TextShape::Segment);
    assert_eq!(ResourceTable::beats().resource_type, "beat");
    assert_eq!(ResourceTable::scenes().table, "session_scenes");
    assert_eq!(ResourceTable::scenes().kind(), ResourceKind::Scene);
    assert_eq!(ResourceTable::beats().kind(), ResourceKind::Beat);
}

#[test]
fn bulk_request_takes_the_resource_list() {
    let req = BulkRequest {
        segments: Some(vec![input("a", 0, 1, Some("t"), None)]),
        beats: None,
        scenes: Some(vec![]),
    };
    assert_eq!(req.take(ResourceTable::segments()).len(), 1);
    let req = BulkRequest { segments: None, beats: None, scenes: None };
    assert!(req.take(ResourceTable::beats()).is_empty());
}

#[test]
fn validation_requires_text_for_segments() {
    let inputs = vec![input("ok", 0, 1, Some("t"), None), input("bad", 0, 1, None, None)];
    match validate_inputs(ResourceTable::segments(), &inputs) {
        Err(AppError::BadRequest(m)) => assert_eq!(m, "segments require `text` (client_id=bad)"),
        _ => panic!("expected bad request"),
    }
}

#[test]
fn validation_requires_title_for_beats() {
    let inputs = vec![input("b1", 0, 1, Some("t"), None)];
    match validate_inputs(ResourceTable::beats(), &inputs) {
        Err(AppError::BadRequest(m)) => assert_eq!(m, "beat rows require `title` (client_id=b1)"),
        _ => panic!("expected bad request"),
    }
}

#[test]
fn validation_rejects_backwards_range() {
    let inputs = vec![input("r", 10, 5, None, Some("x"))];
    match validate_inputs(ResourceTable::scenes(), &inputs) {
        Err(AppError::BadRequest(m)) => assert_eq!(m, "end_ms < start_ms (client_id=r)"),
        _ => panic!("expected bad request"),
    }
    let ok = vec![input("r", 5, 5, None, Some("x"))];
    assert!(validate_inputs(ResourceTable::scenes(), &ok).is_ok());
}

#[test]
fn select_new_skips_existing_client_ids() {
    let inputs = vec![
        input("a", 0, 1, Some("t"), None),
        input("b", 0, 1, Some("t"), None),
        input("c", 0, 1, Some("t"), None),
    ];
    let existing = vec!["b".to_string(), "z".to_string()];
    assert_eq!(select_new(&inputs, &existing), vec![0, 2]);
    assert_eq!(select_new(&inputs, &vec![]), vec![0, 1, 2]);
}

#[test]
fn patch_updates_segment_fields() {
    let mut p = empty_patch();
    p.text = Some("edited".to_string());
    p.title = Some("ignored".to_string());
    p.confidence = Some(None);
    p.end_ms = Some(300);
    let out = apply_patch(ResourceTable::segments(), p, row());
    assert_eq!(out.text.as_deref(), Some("edited"));
    assert_eq!(out.title, None);
    assert_eq!(out.confidence, None);
    assert_eq!(out.start_ms, 100);
    assert_eq!(out.end_ms, 300);
}

#[test]
fn patch_updates_title_summary_fields() {
    let mut p = empty_patch();
    p.text = Some("ignored".to_string());
    p.summary = Some("sum".to_string());
    p.flags = Some(Value::from(1));
    let out = apply_patch(ResourceTable::beats(), p, row());
    assert_eq!(out.text.as_deref(), Some("hello"));
    assert_eq!(out.summary.as_deref(), Some("sum"));
    assert_eq!(out.flags, Value::from(1));
    assert_eq!(out.confidence, Some(0.5f64.to_bits()));
}

#[test]
fn patch_with_stale_tag_is_refused() {
    match plan_patch(ResourceTable::segments(), &Some(ETag("old".to_string())), empty_patch(), row()) {
        Err(AppError::PreconditionFailed { current_etag }) => assert_eq!(current_etag.as_str(), "e1"),
        _ => panic!("expected a failed precondition"),
    }
    assert!(plan_patch(ResourceTable::segments(), &Some(ETag("e1".to_string())), empty_patch(), row()).is_ok());
    assert!(check_if_match(&None, &ETag("x".to_string())).is_ok());
}

#[test]
fn missing_row_message() {
    match missing_row(ResourceTable::scenes(), "abc") {
        AppError::NotFound(m) => assert_eq!(m, "scene abc not found"),
        _ => panic!("expected not found"),
    }
    let _ = PseudoId::new("0123456789abcdef01234567").unwrap();
}

fn columns() -> chronicle_data_api::uniform::RowColumns {
    chronicle_data_api::uniform::RowColumns {
        id: 10,
        session_id: 20,
        client_id: "c1".to_string(),
        pseudo_id: Some("0123456789abcdef01234567".to_string()),
        start_ms: 1,
        end_ms: 2,
        text: Some("t".to_string()),
        title: Some("ti".to_string()),
        summary: Some("su".to_string()),
        confidence: Some(7),
        flags: Value::Null,
        original: None,
        etag: "tag".to_string(),
        author_service: "svc".to_string(),
        author_user_pseudo_id: None,
        created_at: 3,
        updated_at: 4,
    }
}

#[test]
fn rows_are_read_by_shape() {
    let seg = row_from_columns(ResourceTable::segments(), columns()).unwrap();
    assert_eq!(seg.pseudo_id.as_ref().map(|p| p.as_str()), Some("0123456789abcdef01234567"));
    assert_eq!(seg.text.as_deref(), Some("t"));
    assert_eq!(seg.title, None);
    assert_eq!(seg.confidence, Some(7));
    assert_eq!(seg.etag.as_str(), "tag");
    let beat = row_from_columns(ResourceTable::beats(), columns()).unwrap();
    assert!(beat.pseudo_id.is_none());
    assert_eq!(beat.text, None);
    assert_eq!(beat.title.as_deref(), Some("ti"));
    assert_eq!(beat.summary.as_deref(), Some("su"));
    assert_eq!(beat.confidence, None);
}

#[test]
fn rows_with_bad_pseudo_ids_are_refused() {
    let mut c = columns();
    c.pseudo_id = Some("mixed".to_string());
    assert!(matches!(row_from_columns(ResourceTable::segments(), c), Err(AppError::InvalidPseudoId)));
    // beats do not read the speaker column at all
    let mut c = columns();
    c.pseudo_id = Some("mixed".to_string());
    assert!(row_from_columns(ResourceTable::scenes(), c).is_ok());
    let mut c = columns();
    c.author_user_pseudo_id = Some("ABC".to_string());
    assert!(matches!(row_from_columns(ResourceTable::beats(), c), Err(AppError::InvalidPseudoId)));
}

#[test]
fn patch_twice_is_patch_once() {
    let mk = || {
        let mut p = empty_patch();
        p.start_ms = Some(5);
        p.text = Some("x".to_string());
        p
    };
    let once = apply_patch(ResourceTable::segments(), mk(), row());
    let twice = apply_patch(ResourceTable::segments(), mk(), apply_patch(ResourceTable::segments(), mk(), row()));
    assert_eq!(once.start_ms, twice.start_ms);
    assert_eq!(once.text, twice.text);
    let same = apply_patch(ResourceTable::segments(), empty_patch(), row());
    assert_eq!(same.text.as_deref(), Some("hello"));
    assert_eq!(same.start_ms, 100);
    assert_eq!(same.end_ms, 200);
}

#[test]
fn resubmitted_batch_inserts_nothing() {
    let inputs = vec![input("a", 0, 1, Some("t"), None), input("b", 0, 1, Some("t"), None)];
    let existing = vec!["a".to_string(), "b".to_string()];
    assert!(select_new(&inputs, &existing).is_empty());
}
