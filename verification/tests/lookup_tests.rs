use bzr::error::BzrError;
use bzr::json::{JsonList, JsonMembers, JsonNumber, JsonValue};
use bzr::lookup::{
    direct_lookup_outcome, hybrid_retries_bug_lookup, search_fallback_outcome, select_attachment,
    AttachmentsMember, DirectLookup,
};
use bzr::search::{annotate_search_fallback, search_query, validate_role_negations, SearchParams};
use bzr::types::{ApiMode, Attachment, Bug};
use bzr::wire::{attachment_limit_bytes, comments_source, id_chunks, product_id, product_ids, CommentsSource};

fn attachment(id: u64) -> Attachment {
    Attachment {
        id,
        bug_id: 1,
        file_name: "f".into(),
        summary: "s".into(),
        content_type: "text/plain".into(),
        creator: None,
        creation_time: None,
        last_change_time: None,
        size: 1,
        is_obsolete: false,
        is_private: false,
        data: None,
    }
}

fn bug(id: u64) -> Bug {
    Bug {
        id,
        summary: "s".into(),
        status: "NEW".into(),
        resolution: None,
        product: None,
        component: None,
        assigned_to: None,
        priority: None,
        severity: None,
        creation_time: None,
        last_change_time: None,
        creator: None,
        url: None,
        whiteboard: None,
        keywords: vec![],
        blocks: vec![],
        depends_on: vec![],
        cc: vec![],
    }
}

#[test]
fn select_attachment_by_key_or_id() {
    let picked = select_attachment(
        AttachmentsMember::Object(Ok(vec![("7".into(), attachment(7)), ("8".into(), attachment(8))])),
        8,
    )
    .unwrap();
    assert_eq!(picked.id, 8);
    match select_attachment(AttachmentsMember::Object(Ok(vec![("8".into(), attachment(9))])), 8) {
        Err(BzrError::Deserialize(m)) => {
            assert_eq!(m, "attachment by-ID `attachments` object key 8 contains ID 9")
        }
        other => panic!("unexpected {other:?}"),
    }
    match select_attachment(AttachmentsMember::Array(Ok(vec![attachment(3)])), 4) {
        Err(BzrError::NotFound { resource, id }) => {
            assert_eq!(resource, "attachment");
            assert_eq!(id, "4");
        }
        other => panic!("unexpected {other:?}"),
    }
    assert_eq!(select_attachment(AttachmentsMember::Array(Ok(vec![attachment(3), attachment(4)])), 4).unwrap().id, 4);
    assert!(matches!(select_attachment(AttachmentsMember::Missing, 1), Err(BzrError::Deserialize(_))));
    assert!(matches!(select_attachment(AttachmentsMember::Other, 1), Err(BzrError::Deserialize(_))));
}

#[test]
fn bug_lookup_retry_chain() {
    let internal = BzrError::Api { code: 100500, message: "boom".into() };
    assert!(matches!(direct_lookup_outcome(Err(internal), "42"), DirectLookup::RetryViaSearch(_)));
    assert!(matches!(direct_lookup_outcome(Ok(vec![bug(42)]), "42"), DirectLookup::Found(b) if b.id == 42));
    match direct_lookup_outcome(Ok(vec![]), "42") {
        DirectLookup::Failed(BzrError::NotFound { resource, id }) => {
            assert_eq!(resource, "bug");
            assert_eq!(id, "42");
        }
        other => panic!("unexpected {other:?}"),
    }
    let original = BzrError::Api { code: 100500, message: "boom".into() };
    match search_fallback_outcome(vec![], original, "42") {
        Err(BzrError::Api { code, message }) => {
            assert_eq!(code, 100500);
            assert_eq!(
                message,
                "boom (direct lookup failed; the search fallback returned no row for bug 42 accessible to this account)"
            );
        }
        other => panic!("unexpected {other:?}"),
    }
    assert!(hybrid_retries_bug_lookup(ApiMode::Hybrid, &BzrError::Api { code: 100500, message: String::new() }, false));
    assert!(hybrid_retries_bug_lookup(ApiMode::Hybrid, &BzrError::Auth(String::new()), true));
    assert!(!hybrid_retries_bug_lookup(ApiMode::Rest, &BzrError::Api { code: 100500, message: String::new() }, true));
}

#[test]
fn annotate_keeps_non_api_errors() {
    match annotate_search_fallback(BzrError::Auth("no".into()), "1") {
        BzrError::Auth(m) => assert_eq!(m, "no"),
        other => panic!("unexpected {other:?}"),
    }
}

#[test]
fn role_negations_need_a_substring() {
    let ok = SearchParams { assigned_to: vec!["!bot@".into()], ..Default::default() };
    assert!(validate_role_negations(&ok).is_ok());
    let bad = SearchParams { creator: vec!["alice".into(), "! ".into()], ..Default::default() };
    match validate_role_negations(&bad) {
        Err(BzrError::InputValidation { message, field: None, value: None }) => {
            assert_eq!(message, "--creator negation '! ' must contain a role substring after '!'")
        }
        other => panic!("unexpected {other:?}"),
    }
}

#[test]
fn search_query_orders_filters_charts_and_defaults() {
    let params = SearchParams {
        product: vec!["Firefox".into()],
        status: vec!["NEW".into(), "!CLOSED".into()],
        limit: Some(5),
        id: vec![7],
        ..Default::default()
    };
    let pairs = search_query(&params).unwrap();
    let text: Vec<(&str, &str)> = pairs.iter().map(|(k, v)| (k.as_str(), v.as_str())).collect();
    assert_eq!(text[0], ("product", "Firefox"));
    assert_eq!(text[1], ("status", "NEW"));
    assert_eq!(text[2], ("f1", "bug_status"));
    assert_eq!(text[3], ("o1", "notequals"));
    assert_eq!(text[4], ("v1", "CLOSED"));
    assert_eq!(text[5], ("limit", "5"));
    assert_eq!(text[6], ("id", "7"));
    assert_eq!(text[7].0, "include_fields");
    let clash = SearchParams {
        status: vec!["!CLOSED".into()],
        raw_params: vec![("f1".into(), "qa_contact".into())],
        ..Default::default()
    };
    match search_query(&clash) {
        Err(BzrError::InputValidation { message, .. }) => assert_eq!(
            message,
            "cannot combine negated filters (e.g. --status '!CLOSED') with a URL-imported query containing boolean chart parameters; the chart indices would collide"
        ),
        other => panic!("unexpected {other:?}"),
    }
}

fn array(values: Vec<JsonValue>) -> JsonValue {
    let mut list = JsonList::Nil;
    for v in values.into_iter().rev() {
        list = JsonList::Cons(v, Box::new(list));
    }
    JsonValue::Array(Box::new(list))
}

#[test]
fn product_ids_accept_numbers_and_decimal_strings() {
    assert_eq!(product_id(&JsonValue::Number(JsonNumber::Unsigned(3))).unwrap(), 3);
    assert_eq!(product_id(&JsonValue::Str("12".into())).unwrap(), 12);
    assert_eq!(product_id(&JsonValue::Str("0".into())).unwrap_err(), "expected a positive integer product ID");
    assert!(product_id(&JsonValue::Number(JsonNumber::Negative(-1))).is_err());
    assert!(product_id(&JsonValue::Bool(true)).is_err());
    let ids = array(vec![JsonValue::Number(JsonNumber::Unsigned(1)), JsonValue::Str("2".into())]);
    assert_eq!(product_ids(&ids).unwrap(), vec![1, 2]);
    let bad = array(vec![JsonValue::Str("x".into())]);
    assert!(product_ids(&bad).is_none());
}

#[test]
fn id_chunks_split_in_order() {
    let ids: Vec<u64> = (1..=120).collect();
    let chunks = id_chunks(&ids, 50);
    assert_eq!(chunks.len(), 3);
    assert_eq!(chunks[0].len(), 50);
    assert_eq!(chunks[2], (101..=120).collect::<Vec<u64>>());
    assert!(id_chunks(&vec![], 50).is_empty());
}

fn object(entries: Vec<(&str, JsonValue)>) -> JsonValue {
    let mut members = JsonMembers::Nil;
    for (k, v) in entries.into_iter().rev() {
        members = JsonMembers::Cons(k.to_string(), v, Box::new(members));
    }
    JsonValue::Object(Box::new(members))
}

#[test]
fn comments_come_only_from_the_requested_bug() {
    assert!(matches!(comments_source(&object(vec![("comments", array(vec![]))]), 5), CommentsSource::Flat));
    let keyed = object(vec![("bugs", object(vec![("5", object(vec![]))]))]);
    assert!(matches!(comments_source(&keyed, 5), CommentsSource::Entry));
    assert!(matches!(comments_source(&keyed, 6), CommentsSource::NotFound));
    let empty = object(vec![("bugs", object(vec![]))]);
    assert!(matches!(comments_source(&empty, 6), CommentsSource::FlatOrNotFound));
    let broken = object(vec![("bugs", array(vec![]))]);
    assert!(matches!(comments_source(&broken, 6), CommentsSource::Malformed));
}

#[test]
fn attachment_limits_are_bytes() {
    assert_eq!(attachment_limit_bytes(2), 2048);
    assert_eq!(attachment_limit_bytes(u64::MAX), u64::MAX);
}

#[test]
fn list_products_rejects_invalid_ids_with_stable_messages() {
    for (id, expected) in [
        (JsonValue::Number(JsonNumber::Unsigned(0)), "expected a positive integer product ID"),
        (JsonValue::Number(JsonNumber::Negative(-5)), "expected a positive integer product ID"),
        (JsonValue::Str("not_a_number".into()), "expected a positive integer product ID"),
        (JsonValue::Str("-5".into()), "expected a positive integer product ID"),
        (
            JsonValue::Bool(true),
            "invalid type: boolean `true`, expected a positive integer or decimal numeric string product ID",
        ),
    ] {
        let error = product_id(&id).unwrap_err();
        assert_eq!(error, expected);
    }
}

#[test]
fn product_id_words_other_kinds_as_serde_json_does() {
    assert_eq!(
        product_id(&JsonValue::Null).unwrap_err(),
        "invalid type: null, expected a positive integer or decimal numeric string product ID"
    );
    assert_eq!(
        product_id(&JsonValue::Number(JsonNumber::Float("1.5".into()))).unwrap_err(),
        "invalid type: floating point `1.5`, expected a positive integer or decimal numeric string product ID"
    );
    assert_eq!(product_id(&JsonValue::Str("+7".into())).unwrap(), 7);
}

#[test]
fn search_params_serialization_product_only() {
    let params = SearchParams {
        product: vec!["Product".into()],
        limit: Some(50),
        ..Default::default()
    };
    let qs: Vec<String> = search_query(&params).unwrap().into_iter().map(|(k, v)| format!("{k}={v}")).collect();
    let qs = qs.join("&");
    assert!(qs.contains("product=Product"));
    assert!(qs.contains("limit=50"));
}
