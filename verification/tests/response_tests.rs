use bzr::adjacency::{
    adjacency_query, parse_adjacency_numeric, sorted_unique, strict_adjacency_error, strict_adjacency_outcome,
    strict_adjacency_response, BugAdjacencyError,
};
use bzr::error::BzrError;
use bzr::json::{JsonList, JsonMembers, JsonNumber, JsonValue};
use bzr::response::{
    bugzilla_error_code, check_bugzilla_200_error, decode_error_envelope, diagnostic_body_preview,
    envelope_order, error_from_status_body, format_body_preview, no_matching_envelope_error, EnvelopeStep,
    EnvelopeTrial,
};
use bzr::json::json_equal;

fn convert(v: serde_json::Value) -> JsonValue {
    match v {
        serde_json::Value::Null => JsonValue::Null,
        serde_json::Value::Bool(b) => JsonValue::Bool(b),
        serde_json::Value::Number(n) => {
            if let Some(u) = n.as_u64() {
                JsonValue::Number(JsonNumber::Unsigned(u))
            } else if let Some(i) = n.as_i64() {
                JsonValue::Number(JsonNumber::Negative(i))
            } else {
                JsonValue::Number(JsonNumber::Float(n.to_string()))
            }
        }
        serde_json::Value::String(s) => JsonValue::Str(s),
        serde_json::Value::Array(items) => {
            let mut list = JsonList::Nil;
            for item in items.into_iter().rev() {
                list = JsonList::Cons(convert(item), Box::new(list));
            }
            JsonValue::Array(Box::new(list))
        }
        serde_json::Value::Object(map) => {
            let entries: Vec<(String, serde_json::Value)> = map.into_iter().collect();
            let mut members = JsonMembers::Nil;
            for (k, item) in entries.into_iter().rev() {
                members = JsonMembers::Cons(k, convert(item), Box::new(members));
            }
            JsonValue::Object(Box::new(members))
        }
    }
}

fn jv(text: &str) -> JsonValue {
    convert(serde_json::from_str(text).unwrap())
}

fn complete_bug(id: u64) -> String {
    format!(
        r#"{{"id": {id}, "summary": "Strict adjacency", "status": "NEW", "resolution": "",
        "product": "TestProduct", "version": "unspecified", "assigned_to": "owner@example.invalid",
        "last_change_time": "2026-08-29T00:00:00Z", "target_milestone": "---",
        "blocks": [9, 8, 9], "depends_on": [3, 2, 3]}}"#
    )
}

#[test]
fn bug_adjacency_sorts_and_dedups_relations() {
    let body = jv(&format!(r#"{{"bugs": [{}], "faults": []}}"#, complete_bug(42)));
    let bug = strict_adjacency_response(&body, "42").unwrap().unwrap();
    assert_eq!(bug.id, 42);
    assert_eq!(bug.blocks, vec![8, 9]);
    assert_eq!(bug.depends_on, vec![2, 3]);
    assert_eq!(bug.resolution, None);
    assert_eq!(bug.summary.as_deref(), Some("Strict adjacency"));
    assert_eq!(bug.version, Some(vec!["unspecified".to_string()]));
}

#[test]
fn bug_adjacency_rest_classifies_only_closed_resource_errors() {
    let body = r#"{"error": true, "code": "101", "message": "Invalid Bug ID"}"#;
    let outcome = strict_adjacency_outcome(404, body, &Ok(jv(body)), "999999")
        .unwrap()
        .unwrap_err();
    assert_eq!(outcome, BugAdjacencyError::NotFoundId);
    let extra = r#"{"error": true, "code": 101, "extra": 1}"#;
    assert!(matches!(
        strict_adjacency_outcome(404, extra, &Ok(jv(extra)), "999999"),
        Err(BzrError::DataIntegrity(_))
    ));
    let not_error = r#"{"error": false, "code": 101}"#;
    assert!(matches!(
        strict_adjacency_outcome(404, not_error, &Ok(jv(not_error)), "999999"),
        Err(BzrError::DataIntegrity(_))
    ));
}

#[test]
fn bug_adjacency_rest_rejects_mismatched_numeric_success_identity() {
    let body = jv(&format!(r#"{{"bugs": [{}], "faults": []}}"#, complete_bug(43)));
    assert!(matches!(
        strict_adjacency_response(&body, "42"),
        Err(BzrError::DataIntegrity(_))
    ));
}

#[test]
fn bug_adjacency_rest_accepts_alias_to_canonical_success() {
    let body = jv(&format!(r#"{{"bugs": [{}], "faults": []}}"#, complete_bug(55)));
    assert_eq!(strict_adjacency_response(&body, "release/2026").unwrap().unwrap().id, 55);
    assert_eq!(strict_adjacency_response(&body, "+1").unwrap().unwrap().id, 55);
}

#[test]
fn bug_adjacency_rest_rejects_mismatched_fault_identities() {
    for (requested, fault) in [
        ("42", r#"{"id": 43, "faultCode": 101, "faultString": "missing"}"#),
        ("release/2026", r#"{"id": "other", "faultCode": 100, "faultString": "missing"}"#),
    ] {
        let body = jv(&format!(r#"{{"bugs": [], "faults": [{fault}]}}"#));
        assert!(matches!(
            strict_adjacency_response(&body, requested),
            Err(BzrError::DataIntegrity(_))
        ));
    }
    let body = jv(r#"{"faults": [{"id": "42", "faultCode": 101}]}"#);
    assert_eq!(
        strict_adjacency_response(&body, "42").unwrap().unwrap_err(),
        BugAdjacencyError::NotFoundId
    );
    let body = jv(r#"{"faults": [{"id": "release/2026", "faultCode": 100}]}"#);
    assert_eq!(
        strict_adjacency_response(&body, "release/2026").unwrap().unwrap_err(),
        BugAdjacencyError::NotFoundAlias
    );
}

#[test]
fn bug_adjacency_rest_requires_both_adjacency_arrays() {
    for missing in ["blocks", "depends_on"] {
        let mut bug: serde_json::Value = serde_json::from_str(&complete_bug(42)).unwrap();
        bug.as_object_mut().unwrap().remove(missing);
        let body = jv(&format!(r#"{{"bugs": [{bug}]}}"#));
        assert!(matches!(
            strict_adjacency_response(&body, "42"),
            Err(BzrError::DataIntegrity(_))
        ));
    }
}

#[test]
fn bug_adjacency_rest_rejects_nonexclusive_or_open_success_envelopes() {
    let fault = r#"{"id": 42, "faultCode": 101, "faultString": "missing"}"#;
    let bug = complete_bug(42);
    for body in [
        r#"{"bugs": [], "faults": []}"#.to_string(),
        format!(r#"{{"bugs": [{bug}, {bug}], "faults": []}}"#),
        format!(r#"{{"bugs": [{bug}], "faults": [{fault}]}}"#),
        format!(r#"{{"bugs": [{bug}], "extra": true}}"#),
        format!(r#"{{"error": true, "code": 101, "bugs": [{bug}], "faults": []}}"#),
    ] {
        assert!(matches!(
            strict_adjacency_response(&jv(&body), "42"),
            Err(BzrError::DataIntegrity(_))
        ));
    }
}

#[test]
fn bug_adjacency_rest_rejects_ids_above_signed_64_bit_range() {
    let too_large = u64::try_from(i64::MAX).unwrap() + 1;
    let body = jv(&format!(r#"{{"bugs": [{}]}}"#, complete_bug(too_large)));
    assert!(matches!(
        strict_adjacency_response(&body, "alias"),
        Err(BzrError::DataIntegrity(_))
    ));
    let mut bug: serde_json::Value = serde_json::from_str(&complete_bug(42)).unwrap();
    bug["blocks"] = serde_json::Value::Array(vec![serde_json::Value::from(too_large)]);
    let body = jv(&format!(r#"{{"bugs": [{bug}]}}"#));
    assert!(matches!(
        strict_adjacency_response(&body, "42"),
        Err(BzrError::DataIntegrity(_))
    ));
}

#[test]
fn bug_adjacency_rest_normalizes_missing_and_empty_scalars() {
    let missing = jv(r#"{"bugs": [{"id": 55, "blocks": [], "depends_on": []}]}"#);
    let empty = jv(
        r#"{"bugs": [{"id": 55, "summary": "", "status": "", "resolution": "", "product": "",
        "version": "", "assigned_to": "", "last_change_time": "", "target_milestone": "",
        "blocks": [], "depends_on": []}]}"#,
    );
    let a = strict_adjacency_response(&missing, "missing-scalars").unwrap().unwrap();
    let b = strict_adjacency_response(&empty, "empty-scalars").unwrap().unwrap();
    assert_eq!(format!("{a:?}"), format!("{b:?}"));
    assert_eq!(a.summary, None);
    assert_eq!(a.version, None);
}

#[test]
fn bug_adjacency_other_statuses_are_http_errors() {
    let body = "internal failure";
    match strict_adjacency_outcome(500, body, &Err("expected value".to_string()), "42") {
        Err(BzrError::HttpStatus { status, body }) => {
            assert_eq!(status, 500);
            assert_eq!(body, "internal failure");
        }
        other => panic!("unexpected {other:?}"),
    }
    assert!(matches!(
        strict_adjacency_outcome(200, "x", &Err("expected value".to_string()), "42"),
        Err(BzrError::DataIntegrity(m)) if m == "invalid strict Bug.get response for '42': expected value"
    ));
}

#[test]
fn adjacency_numeric_requests() {
    assert_eq!(parse_adjacency_numeric("42"), Some(42));
    assert_eq!(parse_adjacency_numeric("007"), Some(7));
    assert_eq!(parse_adjacency_numeric("+1"), None);
    assert_eq!(parse_adjacency_numeric(""), None);
    assert_eq!(parse_adjacency_numeric("9223372036854775808"), None);
    assert_eq!(parse_adjacency_numeric("release/2026"), None);
}

#[test]
fn adjacency_error_codes_follow_the_request_kind() {
    assert_eq!(strict_adjacency_error(100, "alias").unwrap(), BugAdjacencyError::NotFoundAlias);
    assert_eq!(strict_adjacency_error(101, "42").unwrap(), BugAdjacencyError::NotFoundId);
    assert_eq!(strict_adjacency_error(102, "42").unwrap(), BugAdjacencyError::Inaccessible);
    match strict_adjacency_error(100, "42") {
        Err(BzrError::DataIntegrity(m)) => {
            assert_eq!(m, "strict Bug.get returned uncorrelated fault code 100 for '42'")
        }
        other => panic!("unexpected {other:?}"),
    }
    match strict_adjacency_error(-5, "alias") {
        Err(BzrError::DataIntegrity(m)) => {
            assert_eq!(m, "strict Bug.get returned uncorrelated fault code -5 for 'alias'")
        }
        other => panic!("unexpected {other:?}"),
    }
}

#[test]
fn sorted_unique_sorts_and_dedups() {
    assert_eq!(sorted_unique(&vec![9, 8, 9, 1, 8]), vec![1, 8, 9]);
    assert_eq!(sorted_unique(&vec![]), Vec::<u64>::new());
}

#[test]
fn error_envelope_decodes_codes_as_numbers_or_strings() {
    let e = decode_error_envelope(&jv(r#"{"error": true, "code": "32610", "message": "m"}"#)).unwrap();
    assert!(e.error);
    assert_eq!(e.code, 32610);
    assert_eq!(e.message.as_deref(), Some("m"));
    let e = decode_error_envelope(&jv(r#"{"error": true}"#)).unwrap();
    assert_eq!(e.code, -1);
    assert!(decode_error_envelope(&jv(r#"{"error": true, "code": "x"}"#)).is_none());
    assert!(decode_error_envelope(&jv("[1]")).is_none());
}

#[test]
fn error_200_is_fatal_only_without_data() {
    assert!(check_bugzilla_200_error(&jv(r#"{"bugs": []}"#)).is_ok());
    match check_bugzilla_200_error(&jv(r#"{"error": true, "code": 102, "message": "denied", "bugs": []}"#)) {
        Err(BzrError::Api { code, message }) => {
            assert_eq!(code, 102);
            assert_eq!(message, "denied");
        }
        other => panic!("unexpected {other:?}"),
    }
    assert!(check_bugzilla_200_error(&jv(r#"{"error": true, "code": 102, "bugs": [{"id": 1}]}"#)).is_ok());
    match check_bugzilla_200_error(&jv(r#"{"error": true}"#)) {
        Err(BzrError::Api { code, message }) => {
            assert_eq!(code, -1);
            assert_eq!(message, "unknown API error");
        }
        other => panic!("unexpected {other:?}"),
    }
    assert!(matches!(
        check_bugzilla_200_error(&jv(r#"{"error": true, "code": [1]}"#)),
        Err(BzrError::Deserialize(_))
    ));
    assert!(check_bugzilla_200_error(&jv("[]")).is_ok());
}

#[test]
fn error_code_is_read_only_from_error_envelopes() {
    assert_eq!(bugzilla_error_code(Some(&jv(r#"{"error": true, "code": 410}"#))), Some(410));
    assert_eq!(bugzilla_error_code(Some(&jv(r#"{"error": true}"#))), None);
    assert_eq!(bugzilla_error_code(Some(&jv(r#"{"error": false, "code": 410}"#))), None);
    assert_eq!(bugzilla_error_code(None), None);
}

#[test]
fn status_errors_prefer_the_bugzilla_envelope() {
    let v = jv(r#"{"error": true, "code": 410, "message": "login required"}"#);
    match error_from_status_body(401, "401 Unauthorized", Some(&v), "p".to_string()) {
        BzrError::Api { code, message } => {
            assert_eq!(code, 410);
            assert_eq!(message, "login required");
        }
        other => panic!("unexpected {other:?}"),
    }
    let v = jv(r#"{"error": true, "code": 410}"#);
    match error_from_status_body(401, "401 Unauthorized", Some(&v), "p".to_string()) {
        BzrError::Api { message, .. } => assert_eq!(message, "401 Unauthorized"),
        other => panic!("unexpected {other:?}"),
    }
    match error_from_status_body(502, "502 Bad Gateway", None, "gateway".to_string()) {
        BzrError::HttpStatus { status, body } => {
            assert_eq!(status, 502);
            assert_eq!(body, "gateway");
        }
        other => panic!("unexpected {other:?}"),
    }
}

#[test]
fn body_previews_are_bounded_and_on_one_line() {
    assert_eq!(diagnostic_body_preview("short"), "short");
    let long = "a".repeat(600);
    let preview = diagnostic_body_preview(&long);
    assert_eq!(preview, format!("{}…", "a".repeat(512)));
    assert_eq!(format_body_preview("a\nb\tc\rd"), "a b c d");
}

#[test]
fn envelopes_present_are_tried_first() {
    let keys = vec!["bugs".to_string(), "attachments".to_string(), "comments".to_string()];
    assert_eq!(envelope_order(&keys, &jv(r#"{"attachments": []}"#)), vec![1, 0, 2]);
    assert_eq!(envelope_order(&keys, &jv(r#"{"comments": [], "bugs": {}}"#)), vec![0, 2, 1]);
    assert_eq!(envelope_order(&keys, &jv("[]")), vec![0, 1, 2]);
    match no_matching_envelope_error(&keys, Some("bad shape".to_string()), "{\"x\":\n1}") {
        BzrError::Deserialize(m) => assert_eq!(
            m,
            "no matching envelope (tried envelopes: bugs, attachments, comments): bad shape\nbody preview (8 chars): {\"x\": 1}"
        ),
        other => panic!("unexpected {other:?}"),
    }
}

#[test]
fn adjacency_query_asks_permissively_for_the_linked_fields() {
    let pairs = adjacency_query("bug-alias");
    let text: Vec<(&str, &str)> = pairs.iter().map(|(k, v)| (k.as_str(), v.as_str())).collect();
    assert_eq!(
        text,
        vec![
            ("ids", "bug-alias"),
            (
                "include_fields",
                "id,summary,status,resolution,product,version,assigned_to,last_change_time,target_milestone,blocks,depends_on"
            ),
            ("permissive", "1"),
        ]
    );
}

#[test]
fn envelope_trial_tries_present_keys_first_and_keeps_the_first_error() {
    let value = convert(serde_json::from_str(r#"{"attachments": [], "x": 1}"#).unwrap());
    let keys = vec!["bugs".to_string(), "attachments".to_string()];
    let mut trial = EnvelopeTrial::new(&keys, &value);
    assert_eq!(trial.next_step(), EnvelopeStep::Try(1));
    trial.on_failure("attachments failed".to_string());
    assert_eq!(trial.next_step(), EnvelopeStep::Try(0));
    trial.on_failure("bugs failed".to_string());
    assert_eq!(trial.next_step(), EnvelopeStep::Exhausted);
    assert_eq!(trial.first_error.as_deref(), Some("attachments failed"));
}

#[test]
fn json_objects_are_equal_whatever_the_order_of_members() {
    let a = JsonValue::Object(Box::new(JsonMembers::Cons(
        "a".to_string(),
        JsonValue::Bool(true),
        Box::new(JsonMembers::Cons("b".to_string(), JsonValue::Null, Box::new(JsonMembers::Nil))),
    )));
    let b = JsonValue::Object(Box::new(JsonMembers::Cons(
        "b".to_string(),
        JsonValue::Null,
        Box::new(JsonMembers::Cons("a".to_string(), JsonValue::Bool(true), Box::new(JsonMembers::Nil))),
    )));
    let c = JsonValue::Object(Box::new(JsonMembers::Cons(
        "b".to_string(),
        JsonValue::Null,
        Box::new(JsonMembers::Cons("a".to_string(), JsonValue::Bool(false), Box::new(JsonMembers::Nil))),
    )));
    let d = JsonValue::Object(Box::new(JsonMembers::Cons("a".to_string(), JsonValue::Bool(true), Box::new(JsonMembers::Nil))));
    assert!(json_equal(&a, &b));
    assert!(!json_equal(&a, &c));
    assert!(!json_equal(&a, &d));
    assert!(!json_equal(&d, &a));
}
