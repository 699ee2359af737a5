use bzr::auth::{trace_body_preview, AUTH_PROBE_BODY_TRACE_MAX_BYTES};
use bzr::redact::redact_api_key;
use bzr::response::format_body_preview;

#[test]
fn redaction_removes_every_key_parameter_value() {
    assert_eq!(
        redact_api_key("GET /rest/bug?Bugzilla_api_key=abc123&x=1 and Bugzilla_api_key=k%2Fz-y.z~_q end"),
        "GET /rest/bug?Bugzilla_api_key=[REDACTED]&x=1 and Bugzilla_api_key=[REDACTED] end"
    );
    assert_eq!(redact_api_key("no key here"), "no key here");
    assert_eq!(redact_api_key("Bugzilla_api_key="), "Bugzilla_api_key=[REDACTED]");
    assert_eq!(redact_api_key("Bugzilla_api_ke=abc"), "Bugzilla_api_ke=abc");
}

#[test]
fn trace_preview_redacts_an_echoed_key() {
    assert_eq!(
        trace_body_preview("Unauthorized Bugzilla_api_key=test-key marker"),
        "Unauthorized Bugzilla_api_key=[REDACTED] marker"
    );
}

#[test]
fn trace_preview_does_not_cut_through_a_key() {
    let lead = "a".repeat(AUTH_PROBE_BODY_TRACE_MAX_BYTES - 20);
    let body = format!("{lead}Bugzilla_api_key=0123456789abcdefghij tail");
    let preview = trace_body_preview(&body);
    assert_eq!(preview, lead);
    assert!(!preview.contains("0123"));
}

#[test]
fn trace_preview_keeps_a_key_that_ends_before_the_cut_redacted() {
    let lead = "a".repeat(AUTH_PROBE_BODY_TRACE_MAX_BYTES - 40);
    let body = format!("{lead}Bugzilla_api_key=secret {}", "b".repeat(100));
    let preview = trace_body_preview(&body);
    assert!(preview.starts_with(&format!("{lead}Bugzilla_api_key=[REDACTED] b")));
    assert!(!preview.contains("secret"));
}

#[test]
fn body_preview_redacts_an_echoed_key() {
    assert_eq!(
        format_body_preview("<h1>Error</h1>\nGET /rest/bug?Bugzilla_api_key=test-key\tmarker"),
        "<h1>Error</h1> GET /rest/bug?Bugzilla_api_key=[REDACTED] marker"
    );
}
