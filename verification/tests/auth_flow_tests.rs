use bzr::auth::detect::{AuthDetection, AuthStep, HINT_NEEDS_EMAIL, HINT_NO_AUTH, HINT_VALID_LOGIN};
use bzr::auth::header_check::{HeaderCheck, HeaderCheckStep, HeaderLeg, LegReading, ProbeBody, ProbeLeg};
use bzr::auth::probe::{
    classify_valid_login, classify_whoami, current_method_verdict, valid_login_after_probe,
    valid_login_exhausted, version_outcome, whoami_after_header, whoami_after_query,
    BodyReading, CurrentProofReading, ValidLoginOutcome, ValidLoginReading, ValidLoginResult,
    VersionReading, WhoamiOutcome, WhoamiReading,
};
use bzr::auth::{auth_detection_error, MalformedProbeResponse};
use bzr::error::BzrError;
use bzr::json::{JsonMembers, JsonNumber, JsonValue};
use bzr::types::{ApiMode, AuthMethod};

fn malformed(probe: &str, method: AuthMethod, error: &str) -> MalformedProbeResponse {
    MalformedProbeResponse::new(probe, method, error.to_string())
}

fn object(key: &str, value: JsonValue) -> JsonValue {
    JsonValue::Object(Box::new(JsonMembers::Cons(key.to_string(), value, Box::new(JsonMembers::Nil))))
}

#[test]
fn whoami_probe_classification() {
    assert!(matches!(
        classify_whoami(AuthMethod::Header, WhoamiReading::Response { status: 200, body: Ok(42) }),
        WhoamiOutcome::Authenticated(AuthMethod::Header)
    ));
    assert!(matches!(
        classify_whoami(AuthMethod::Header, WhoamiReading::Response { status: 200, body: Ok(0) }),
        WhoamiOutcome::AuthRejected
    ));
    assert!(matches!(
        classify_whoami(AuthMethod::QueryParam, WhoamiReading::Response { status: 404, body: Ok(0) }),
        WhoamiOutcome::NotFound
    ));
    assert!(matches!(
        classify_whoami(AuthMethod::QueryParam, WhoamiReading::Response { status: 401, body: Ok(7) }),
        WhoamiOutcome::AuthRejected
    ));
    match classify_whoami(
        AuthMethod::Header,
        WhoamiReading::Response { status: 200, body: Err("expected value".to_string()) },
    ) {
        WhoamiOutcome::MalformedResponse(m) => assert_eq!(
            m.describe(),
            "whoami header probe returned malformed 200 response: expected value"
        ),
        other => panic!("unexpected {other:?}"),
    }
    assert!(matches!(
        classify_whoami(AuthMethod::Header, WhoamiReading::Transport { tls_certificate: true }),
        WhoamiOutcome::NetworkError { tls_certificate: true }
    ));
}

#[test]
fn whoami_pair_keeps_first_malformed_answer() {
    let first = whoami_after_header(WhoamiOutcome::MalformedResponse(malformed(
        "whoami",
        AuthMethod::Header,
        "first",
    )));
    let kept = match first {
        Err(kept) => kept,
        Ok(o) => panic!("header malformed must go on, got {o:?}"),
    };
    match whoami_after_query(
        kept,
        WhoamiOutcome::MalformedResponse(malformed("whoami", AuthMethod::QueryParam, "second")),
    ) {
        WhoamiOutcome::MalformedResponse(m) => assert_eq!(m.error, "first"),
        other => panic!("unexpected {other:?}"),
    }
    assert!(matches!(
        whoami_after_header(WhoamiOutcome::Authenticated(AuthMethod::Header)),
        Ok(WhoamiOutcome::Authenticated(AuthMethod::Header))
    ));
    assert!(matches!(
        whoami_after_query(None, WhoamiOutcome::AuthRejected),
        WhoamiOutcome::AuthRejected
    ));
}

#[test]
fn valid_login_result_reads_bool_or_one() {
    let t = ValidLoginResult::try_from_json(JsonValue::Bool(true)).unwrap();
    assert!(t.is_valid());
    let one = ValidLoginResult::try_from_json(JsonValue::Number(JsonNumber::Unsigned(1))).unwrap();
    assert!(one.is_valid());
    let two = ValidLoginResult::try_from_json(JsonValue::Number(JsonNumber::Unsigned(2))).unwrap();
    assert!(!two.is_valid());
    assert!(ValidLoginResult::try_from_json(JsonValue::Str("yes".to_string())).is_err());
}

#[test]
fn valid_login_probes_classify_and_combine() {
    assert!(matches!(
        classify_valid_login(
            AuthMethod::Header,
            ValidLoginReading::Response { status: 200, body: BodyReading::Parsed(Ok(ValidLoginResult(true))) }
        ),
        ValidLoginOutcome::Authenticated(AuthMethod::Header)
    ));
    assert!(matches!(
        classify_valid_login(
            AuthMethod::Header,
            ValidLoginReading::Response { status: 200, body: BodyReading::Parsed(Ok(ValidLoginResult(false))) }
        ),
        ValidLoginOutcome::AuthRejected
    ));
    assert!(matches!(
        classify_valid_login(
            AuthMethod::QueryParam,
            ValidLoginReading::Response { status: 500, body: BodyReading::Unreadable { tls_certificate: false } }
        ),
        ValidLoginOutcome::AuthRejected
    ));
    let kept = match valid_login_after_probe(
        None,
        ValidLoginOutcome::MalformedResponse(malformed("valid_login", AuthMethod::Header, "bad")),
    ) {
        Err(kept) => kept,
        Ok(o) => panic!("unexpected {o:?}"),
    };
    let kept = match valid_login_after_probe(kept, ValidLoginOutcome::AuthRejected) {
        Err(kept) => kept,
        Ok(o) => panic!("unexpected {o:?}"),
    };
    match valid_login_exhausted(kept) {
        ValidLoginOutcome::MalformedResponse(m) => assert_eq!(m.method, AuthMethod::Header),
        other => panic!("unexpected {other:?}"),
    }
}

#[test]
fn detection_prefers_whoami_and_header() {
    let (mut d, step) = AuthDetection::start("test-key", false);
    assert!(matches!(step, AuthStep::ProbeWhoami));
    assert!(matches!(
        d.on_whoami(WhoamiOutcome::Authenticated(AuthMethod::Header)),
        AuthStep::Finish(Ok(AuthMethod::Header))
    ));
}

#[test]
fn detection_rejects_key_that_cannot_be_a_header() {
    let (_, step) = AuthDetection::start("bad\nkey", true);
    match step {
        AuthStep::Finish(Err(BzrError::Config(m))) => assert_eq!(m, "invalid API key characters"),
        other => panic!("unexpected {other:?}"),
    }
}

#[test]
fn detection_without_email_explains_the_missing_login() {
    let (mut d, _) = AuthDetection::start("k", false);
    match d.on_whoami(WhoamiOutcome::NotFound) {
        AuthStep::Finish(Err(BzrError::Auth(m))) => assert_eq!(m, HINT_NEEDS_EMAIL),
        other => panic!("unexpected {other:?}"),
    }
}

#[test]
fn detection_falls_back_to_valid_login_and_verifies_header() {
    let (mut d, _) = AuthDetection::start("k", true);
    assert!(matches!(d.on_whoami(WhoamiOutcome::NotFound), AuthStep::ProbeValidLogin));
    assert!(matches!(
        d.on_valid_login(ValidLoginOutcome::Authenticated(AuthMethod::QueryParam)),
        AuthStep::VerifyHeader
    ));
    assert!(matches!(d.on_header_verified(true), AuthStep::Finish(Ok(AuthMethod::Header))));
    assert!(matches!(d.on_header_verified(false), AuthStep::Finish(Ok(AuthMethod::QueryParam))));
}

#[test]
fn detection_reports_the_first_malformed_probe() {
    let (mut d, _) = AuthDetection::start("k", true);
    let step = d.on_whoami(WhoamiOutcome::MalformedResponse(malformed(
        "whoami",
        AuthMethod::Header,
        "expected value at line 1 column 1",
    )));
    assert!(matches!(step, AuthStep::ProbeValidLogin));
    match d.on_valid_login(ValidLoginOutcome::MalformedResponse(malformed(
        "valid_login",
        AuthMethod::Header,
        "later",
    ))) {
        AuthStep::Finish(Err(BzrError::Auth(m))) => {
            assert_eq!(
                m,
                format!("{HINT_NO_AUTH} Last malformed auth probe: whoami header probe returned malformed 200 response: expected value at line 1 column 1.")
            );
        }
        other => panic!("unexpected {other:?}"),
    }
}

#[test]
fn detection_after_valid_login_rejection_names_valid_login() {
    let (mut d, _) = AuthDetection::start("k", true);
    d.on_whoami(WhoamiOutcome::NotFound);
    match d.on_valid_login(ValidLoginOutcome::AuthRejected) {
        AuthStep::Finish(Err(BzrError::Auth(m))) => assert_eq!(m, HINT_VALID_LOGIN),
        other => panic!("unexpected {other:?}"),
    }
}

#[test]
fn detection_transport_failures() {
    let (mut d, _) = AuthDetection::start("k", true);
    assert!(matches!(
        d.on_whoami(WhoamiOutcome::NetworkError { tls_certificate: false }),
        AuthStep::Finish(Ok(AuthMethod::Header))
    ));
    let (mut d, _) = AuthDetection::start("k", true);
    assert!(matches!(
        d.on_whoami(WhoamiOutcome::NetworkError { tls_certificate: true }),
        AuthStep::PropagateTransportError
    ));
}

#[test]
fn auth_detection_error_appends_malformed_probe() {
    match auth_detection_error("hint.", None) {
        BzrError::Auth(m) => assert_eq!(m, "hint."),
        other => panic!("unexpected {other:?}"),
    }
    let m = malformed("valid_login", AuthMethod::QueryParam, "e");
    match auth_detection_error("hint.", Some(&m)) {
        BzrError::Auth(t) => assert_eq!(
            t,
            "hint. Last malformed auth probe: valid_login query_param probe returned malformed 200 response: e."
        ),
        other => panic!("unexpected {other:?}"),
    }
}

fn json_leg(status: u16, text: &str) -> LegReading {
    let body = match text {
        "user" => object("users", JsonValue::Str("alice".to_string())),
        "anon" => object("users", JsonValue::Str("".to_string())),
        "error" => object("error", JsonValue::Bool(true)),
        other => JsonValue::Str(other.to_string()),
    };
    LegReading::Received { status, body: ProbeBody::Json(body) }
}

fn run(legs: Vec<LegReading>) -> (bool, usize) {
    let (mut check, mut step) = HeaderCheck::new();
    let mut sent = 0;
    for leg in legs {
        match step {
            HeaderCheckStep::Conclude(v) => return (v, sent),
            HeaderCheckStep::Send(_) => {
                sent += 1;
                step = check.on_leg(leg);
            }
        }
    }
    match step {
        HeaderCheckStep::Conclude(v) => (v, sent),
        HeaderCheckStep::Send(_) => panic!("check asked for more legs"),
    }
}

#[test]
fn header_check_confirms_only_a_repeated_discrimination() {
    let (confirmed, sent) = run(vec![
        json_leg(200, "user"),
        json_leg(401, "anon"),
        json_leg(200, "user"),
        json_leg(401, "anon"),
    ]);
    assert!(confirmed);
    assert_eq!(sent, 4);
}

#[test]
fn header_check_declines_when_header_changes_nothing() {
    let (confirmed, sent) = run(vec![json_leg(200, "user"), json_leg(200, "user")]);
    assert!(!confirmed);
    assert_eq!(sent, 2);
}

#[test]
fn header_check_declines_on_error_or_inconclusive_legs() {
    assert!(!run(vec![json_leg(200, "error")]).0);
    assert!(!run(vec![json_leg(200, "user"), json_leg(500, "anon")]).0);
    assert!(!run(vec![json_leg(200, "user"), json_leg(401, "anon"), json_leg(200, "other")]).0);
    assert!(!run(vec![
        json_leg(200, "user"),
        json_leg(401, "anon"),
        json_leg(200, "user"),
        json_leg(200, "anon"),
    ])
    .0);
    assert!(!run(vec![LegReading::Failed]).0);
}

#[test]
fn probe_leg_acceptance() {
    let leg = ProbeLeg { status: 200, body: ProbeBody::Text("ok".to_string()) };
    assert!(leg.credential_accepted());
    let leg = ProbeLeg { status: 200, body: ProbeBody::Json(object("error", JsonValue::Null)) };
    assert!(leg.credential_accepted());
    let leg = ProbeLeg { status: 403, body: ProbeBody::Text("no".to_string()) };
    assert!(!leg.credential_accepted());
    assert!(matches!(HeaderCheck::new().1, HeaderCheckStep::Send(HeaderLeg::Header)));
}

#[test]
fn version_probe_outcomes() {
    let (v, m) = version_outcome(VersionReading::Response { status: 200, body: Some(Some("5.0.4".to_string())) });
    assert_eq!(v.as_deref(), Some("5.0.4"));
    assert_eq!(m, ApiMode::Hybrid);
    let (v, m) = version_outcome(VersionReading::Response { status: 200, body: Some(None) });
    assert_eq!(v, None);
    assert_eq!(m, ApiMode::Hybrid);
    assert_eq!(version_outcome(VersionReading::Response { status: 404, body: None }).1, ApiMode::XmlRpc);
    assert_eq!(version_outcome(VersionReading::Transport).1, ApiMode::XmlRpc);
}

#[test]
fn current_credential_proof_verdicts() {
    let ok = CurrentProofReading {
        status: 200,
        status_text: "200 OK".to_string(),
        value: Ok(object("result", JsonValue::Bool(true))),
        parsed: Ok(ValidLoginResult(true)),
    };
    assert!(current_method_verdict(&ok).is_ok());
    let refused = CurrentProofReading {
        status: 401,
        status_text: "401 Unauthorized".to_string(),
        value: Err("x".to_string()),
        parsed: Err("x".to_string()),
    };
    match current_method_verdict(&refused) {
        Err(BzrError::Auth(m)) => assert_eq!(
            m,
            "current credentials received unexpected HTTP status 401 Unauthorized from rest/valid_login"
        ),
        other => panic!("unexpected {other:?}"),
    }
    let error = CurrentProofReading {
        status: 200,
        status_text: "200 OK".to_string(),
        value: Ok(object("error", JsonValue::Bool(true))),
        parsed: Ok(ValidLoginResult(true)),
    };
    match current_method_verdict(&error) {
        Err(BzrError::Auth(m)) => assert!(m.ends_with("top-level error")),
        other => panic!("unexpected {other:?}"),
    }
    let no = CurrentProofReading {
        status: 200,
        status_text: "200 OK".to_string(),
        value: Ok(object("result", JsonValue::Bool(false))),
        parsed: Ok(ValidLoginResult(false)),
    };
    assert!(matches!(current_method_verdict(&no), Err(BzrError::Auth(_))));
}

#[test]
fn valid_login_result_from_bool_true() {
    let v = ValidLoginResult::try_from_json(JsonValue::Bool(true)).unwrap();
    assert!(v.is_valid());
}

#[test]
fn valid_login_result_from_bool_false() {
    let v = ValidLoginResult::try_from_json(JsonValue::Bool(false)).unwrap();
    assert!(!v.is_valid());
}

#[test]
fn valid_login_result_from_integer_1() {
    let v = ValidLoginResult::try_from_json(JsonValue::Number(JsonNumber::Unsigned(1))).unwrap();
    assert!(v.is_valid());
}

#[test]
fn valid_login_result_from_integer_0() {
    let v = ValidLoginResult::try_from_json(JsonValue::Number(JsonNumber::Unsigned(0))).unwrap();
    assert!(!v.is_valid());
}

#[test]
fn valid_login_result_from_string_errors() {
    let result = ValidLoginResult::try_from_json(JsonValue::Str("yes".to_string()));
    assert!(result.is_err());
}
