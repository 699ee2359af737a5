use bzr::cli::{BugTemplate, TemplateFields};
use bzr::client::{prepare_auth, AuthMode, BugzillaClientConfig, ClientSettings, PreparedAuth};
use bzr::error::BzrError;
use bzr::types::{ApiMode, AuthMethod};

fn config<'a>(credential: Option<&'a str>, method: Option<AuthMethod>) -> BugzillaClientConfig<'a> {
    BugzillaClientConfig {
        base_url: "https://bugzilla.example.com//",
        credential,
        auth_method: method,
        api_mode: ApiMode::Rest,
        email_hint: Some("me@example.com"),
        server_name: "example",
        request_timeout_ms: 30_000,
        retry_max: 2,
    }
}

#[test]
fn client_settings_trim_the_base_url_and_prepare_auth() {
    let s = ClientSettings::from_config(&config(Some("key"), Some(AuthMethod::Header))).unwrap();
    assert_eq!(s.base_url, "https://bugzilla.example.com");
    assert_eq!(s.url("/bug/1"), "https://bugzilla.example.com/rest/bug/1");
    assert_eq!(s.url("version"), "https://bugzilla.example.com/rest/version");
    assert!(matches!(&s.auth, Some(PreparedAuth::Header { bytes, .. }) if bytes.as_slice() == b"key"));
    assert_eq!(s.auth_mode(), AuthMode::ApiKey);
    assert_eq!(s.server_name(), "example");
    let (login, _) = s.current_proof_inputs().unwrap();
    assert_eq!(login, "me@example.com");
}

#[test]
fn client_settings_refuse_mismatched_credentials() {
    match ClientSettings::from_config(&config(Some("key"), None)) {
        Err(BzrError::Config(m)) => assert_eq!(m, "internal: credential provided without detected auth method"),
        _ => panic!("expected a configuration error"),
    }
    match ClientSettings::from_config(&config(None, Some(AuthMethod::QueryParam))) {
        Err(BzrError::Config(m)) => assert_eq!(m, "internal: auth method provided without credential"),
        _ => panic!("expected a configuration error"),
    }
    match prepare_auth(Some("bad\u{7f}"), Some(AuthMethod::Header)) {
        Err(BzrError::Config(m)) => assert_eq!(m, "invalid API key characters"),
        _ => panic!("expected a configuration error"),
    }
    assert!(matches!(prepare_auth(Some("k"), Some(AuthMethod::QueryParam)), Ok(Some(PreparedAuth::QueryParam(k))) if k == "k"));
    let anonymous = ClientSettings::from_config(&config(None, None)).unwrap();
    assert_eq!(anonymous.auth_mode(), AuthMode::Anonymous);
    match anonymous.current_proof_inputs() {
        Err(BzrError::Auth(m)) => assert_eq!(m, "current credential proof requires a configured credential"),
        _ => panic!("expected an auth error"),
    }
}

fn fields() -> TemplateFields {
    TemplateFields {
        product: None,
        component: None,
        version: None,
        priority: None,
        severity: None,
        assignee: None,
        op_sys: None,
        rep_platform: None,
        description: None,
        url: None,
        whiteboard: None,
        target_milestone: None,
        deadline: None,
        cc: vec![],
        keywords: vec![],
        groups: vec![],
        flag: vec![],
    }
}

#[test]
fn template_fields_build_templates() {
    assert!(fields().is_empty_change());
    let mut f = fields();
    f.product = Some("Security".into());
    f.flag = vec!["review?".into()];
    assert!(!f.is_empty_change());
    let t: BugTemplate = f.to_template();
    assert_eq!(t.product.as_deref(), Some("Security"));
    assert_eq!(t.flags, vec!["review?".to_string()]);
    assert!(!t.is_empty());
    let mut g = fields();
    g.cc = vec!["triage@example.com".into()];
    assert!(!g.is_empty_change());
}

#[test]
fn new_trims_trailing_slash_and_keeps_email_hint() {
    let client = ClientSettings::from_config(&BugzillaClientConfig {
        base_url: "https://bugzilla.example.com/",
        credential: Some("test-key"),
        auth_method: Some(AuthMethod::Header),
        api_mode: ApiMode::Rest,
        email_hint: Some("user@example.com"),
        server_name: "prod",
        request_timeout_ms: 30_000,
        retry_max: 0,
    })
    .unwrap();

    assert_eq!(client.base_url, "https://bugzilla.example.com");
    assert_eq!(client.email_hint.as_deref(), Some("user@example.com"));
    assert_eq!(client.server_name(), "prod");
}

#[test]
fn auth_mode_reflects_credential_presence() {
    let credentialed = ClientSettings::from_config(&BugzillaClientConfig {
        base_url: "https://bugzilla.example.com",
        credential: Some("test-api-key"),
        auth_method: Some(AuthMethod::Header),
        api_mode: ApiMode::Rest,
        email_hint: None,
        server_name: "test",
        request_timeout_ms: 30_000,
        retry_max: 0,
    })
    .unwrap();
    assert_eq!(credentialed.auth_mode(), AuthMode::ApiKey);

    let anonymous = ClientSettings::from_config(&BugzillaClientConfig {
        base_url: "https://bugzilla.example.com",
        credential: None,
        auth_method: None,
        api_mode: ApiMode::Rest,
        email_hint: None,
        server_name: "test",
        request_timeout_ms: 30_000,
        retry_max: 0,
    })
    .unwrap();
    assert_eq!(anonymous.auth_mode(), AuthMode::Anonymous);
}
