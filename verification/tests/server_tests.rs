use bzr::error::BzrError;
use bzr::server::{
    extensions_after_rest, extensions_after_xmlrpc, extensions_fallback_error, extensions_start,
    server_status_transitions, ExtensionsStep,
};
use bzr::types::{ApiMode, FieldValue, StatusTransition};

#[test]
fn status_transitions_come_from_the_status_field() {
    let values = vec![
        FieldValue { name: None, sort_key: 0, is_active: true, can_change_to: Some(vec![StatusTransition { name: "NEW".into() }]) },
        FieldValue {
            name: Some("NEW".into()),
            sort_key: 1,
            is_active: true,
            can_change_to: Some(vec![StatusTransition { name: "ASSIGNED".into() }, StatusTransition { name: "RESOLVED".into() }]),
        },
    ];
    let summaries = server_status_transitions(Ok(values)).unwrap();
    assert_eq!(summaries.len(), 1);
    assert_eq!(summaries[0].from, "NEW");
    assert_eq!(summaries[0].can_change_to, vec!["ASSIGNED".to_string(), "RESOLVED".to_string()]);
}

#[test]
fn server_without_status_field_has_no_transitions() {
    let missing = BzrError::NotFound { resource: "field".into(), id: "status".into() };
    assert!(server_status_transitions(Err(missing)).unwrap().is_empty());
}

#[test]
fn other_status_field_failures_stand() {
    let failure = BzrError::Api { code: 32000, message: "denied".into() };
    assert!(matches!(
        server_status_transitions(Err(failure)),
        Err(BzrError::Api { code: 32000, .. })
    ));
}

#[test]
fn extensions_fallback_error_names_both_attempts() {
    match extensions_fallback_error("HTTP 404", "connection refused") {
        BzrError::XmlRpc(m) => assert_eq!(
            m,
            "REST probe failed (HTTP 404); XML-RPC probe also failed (connection refused)"
        ),
        other => panic!("unexpected {other:?}"),
    }
}

#[test]
fn extensions_are_asked_where_the_mode_says() {
    assert!(matches!(extensions_start(ApiMode::XmlRpc), ExtensionsStep::AskXmlRpc(None)));
    assert!(matches!(extensions_start(ApiMode::Rest), ExtensionsStep::AskRest));
    assert!(matches!(extensions_start(ApiMode::Hybrid), ExtensionsStep::AskRest));
}

#[test]
fn hybrid_falls_back_to_xmlrpc_on_any_rest_failure() {
    assert!(matches!(
        extensions_after_rest(ApiMode::Hybrid, Some("Bugzilla API error 32614")),
        ExtensionsStep::AskXmlRpc(Some(ref e)) if e == "Bugzilla API error 32614"
    ));
    assert!(matches!(extensions_after_rest(ApiMode::Hybrid, Some("HTTP 503")), ExtensionsStep::AskXmlRpc(Some(_))));
    assert!(matches!(extensions_after_rest(ApiMode::Rest, Some("HTTP 503")), ExtensionsStep::Answer));
    assert!(matches!(extensions_after_rest(ApiMode::Hybrid, None), ExtensionsStep::Answer));
}

#[test]
fn both_transports_failing_names_both() {
    match extensions_after_xmlrpc(Some("rest down"), Some("xmlrpc down")) {
        Some(BzrError::XmlRpc(m)) => {
            assert_eq!(m, "REST probe failed (rest down); XML-RPC probe also failed (xmlrpc down)")
        }
        other => panic!("unexpected: {other:?}"),
    }
    assert!(extensions_after_xmlrpc(None, Some("xmlrpc down")).is_none());
    assert!(extensions_after_xmlrpc(Some("rest down"), None).is_none());
}
