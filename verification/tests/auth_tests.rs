use bzr::auth::{trace_body_preview, version_to_api_mode, AUTH_PROBE_BODY_TRACE_MAX_BYTES};
use bzr::types::ApiMode;

#[test]
fn version_to_mode_pre_5() {
    assert_eq!(version_to_api_mode("4.4.13"), ApiMode::XmlRpc);
    assert_eq!(version_to_api_mode("3.6.1"), ApiMode::XmlRpc);
}

#[test]
fn version_to_mode_5_0() {
    assert_eq!(version_to_api_mode("5.0"), ApiMode::Hybrid);
    assert_eq!(version_to_api_mode("5.0.4"), ApiMode::Hybrid);
    assert_eq!(version_to_api_mode("5.0.4.rh103"), ApiMode::Hybrid);
}

#[test]
fn version_to_mode_5_1_plus() {
    assert_eq!(version_to_api_mode("5.1"), ApiMode::Rest);
    assert_eq!(version_to_api_mode("5.1.2"), ApiMode::Rest);
    assert_eq!(version_to_api_mode("6.0"), ApiMode::Rest);
}

#[test]
fn trace_body_preview_caps_long_auth_probe_bodies() {
    let body = "x".repeat(AUTH_PROBE_BODY_TRACE_MAX_BYTES + 1);

    let preview = trace_body_preview(&body);

    assert_eq!(preview.len(), AUTH_PROBE_BODY_TRACE_MAX_BYTES);
    assert_eq!(preview, "x".repeat(AUTH_PROBE_BODY_TRACE_MAX_BYTES));
}

#[test]
fn trace_body_preview_stops_on_utf8_boundary() {
    let mut body = "a".repeat(AUTH_PROBE_BODY_TRACE_MAX_BYTES - 1);
    body.push('é');
    body.push_str("trailing");

    let preview = trace_body_preview(&body);

    assert_eq!(preview, "a".repeat(AUTH_PROBE_BODY_TRACE_MAX_BYTES - 1));
    assert!(preview.len() <= AUTH_PROBE_BODY_TRACE_MAX_BYTES);
}
