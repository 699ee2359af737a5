//! What a single auth or version probe's answer means, and how the two
//! probes of one endpoint (header first, then query parameter) combine.

use vstd::prelude::*;

use crate::auth::{version_mode, version_to_api_mode, MalformedProbeResponse};
use crate::error::{is_auth_error, BzrError};
use crate::json::{find_member, member, JsonNumber, JsonValue};
use crate::types::{ApiMode, AuthMethod};

verus! {

/// What a `rest/whoami` probe says about one auth method.
#[derive(Debug)]
pub enum WhoamiOutcome {
    Authenticated(AuthMethod),
    /// The server has no `rest/whoami`.
    NotFound,
    /// The server answered but did not accept the credential.
    AuthRejected,
    /// A 200 whose body does not read as a whoami answer.
    MalformedResponse(MalformedProbeResponse),
    /// The request or the read of its body failed in transport; whether the
    /// failure was a TLS certificate problem decides how it is reported.
    NetworkError { tls_certificate: bool },
}

/// What a `rest/valid_login` probe says about one auth method.
#[derive(Debug)]
pub enum ValidLoginOutcome {
    Authenticated(AuthMethod),
    AuthRejected,
    MalformedResponse(MalformedProbeResponse),
    NetworkError { tls_certificate: bool },
}

/// A whoami probe's answer as the caller read it: a transport failure, or a
/// status with the body parsed as a whoami answer (its `id`, missing read as
/// 0) or the parser's complaint.
pub enum WhoamiReading {
    Transport { tls_certificate: bool },
    Response { status: u16, body: Result<u64, String> },
}

pub open spec fn is_success(status: u16) -> bool {
    200 <= status <= 299
}

/// Classifies one whoami probe: a 2xx with an `id` above 0 authenticates, a
/// 2xx with `id` 0 is an anonymous answer, a 2xx that does not parse is
/// malformed, a 404 means the endpoint is missing, and any other status is a
/// rejection.
pub fn classify_whoami(method: AuthMethod, reading: WhoamiReading) -> (o: WhoamiOutcome)
    ensures
        match reading {
            WhoamiReading::Transport { tls_certificate } => o == (WhoamiOutcome::NetworkError {
                tls_certificate,
            }),
            WhoamiReading::Response { status, body } => if is_success(status) {
                match body {
                    Ok(id) => if id > 0 {
                        o == WhoamiOutcome::Authenticated(method)
                    } else {
                        o == WhoamiOutcome::AuthRejected
                    },
                    Err(e) => o matches WhoamiOutcome::MalformedResponse(m) && m.probe@ == "whoami"@
                        && m.method == method && m.error == e,
                }
            } else if status == 404 {
                o == WhoamiOutcome::NotFound
            } else {
                o == WhoamiOutcome::AuthRejected
            },
        },
{
    match reading {
        WhoamiReading::Transport { tls_certificate } => WhoamiOutcome::NetworkError {
            tls_certificate,
        },
        WhoamiReading::Response { status, body } => {
            if 200 <= status && status <= 299 {
                match body {
                    Ok(id) => if id > 0 {
                        WhoamiOutcome::Authenticated(method)
                    } else {
                        WhoamiOutcome::AuthRejected
                    },
                    Err(e) => WhoamiOutcome::MalformedResponse(
                        MalformedProbeResponse::new("whoami", method, e),
                    ),
                }
            } else if status == 404 {
                WhoamiOutcome::NotFound
            } else {
                WhoamiOutcome::AuthRejected
            }
        },
    }
}

/// What the header probe of `rest/whoami` leaves to do: stop with an
/// outcome (`Ok`), or go on to the query-parameter probe carrying the
/// malformed answer seen so far (`Err`).
pub fn whoami_after_header(outcome: WhoamiOutcome) -> (r: Result<WhoamiOutcome, Option<MalformedProbeResponse>>)
    ensures
        r == match outcome {
            WhoamiOutcome::AuthRejected => Err(None),
            WhoamiOutcome::MalformedResponse(m) => Err(Some(m)),
            other => Ok(other),
        },
{
    match outcome {
        WhoamiOutcome::AuthRejected => Err(None),
        WhoamiOutcome::MalformedResponse(m) => Err(Some(m)),
        other => Ok(other),
    }
}

/// The outcome of `rest/whoami` once the query-parameter probe answered: a
/// rejection or a malformed answer gives way to the first malformed answer
/// seen; anything else stands.
pub fn whoami_after_query(kept: Option<MalformedProbeResponse>, outcome: WhoamiOutcome) -> (o: WhoamiOutcome)
    ensures
        o == match outcome {
            WhoamiOutcome::AuthRejected => match kept {
                Some(m) => WhoamiOutcome::MalformedResponse(m),
                None => WhoamiOutcome::AuthRejected,
            },
            WhoamiOutcome::MalformedResponse(e) => match kept {
                Some(m) => WhoamiOutcome::MalformedResponse(m),
                None => WhoamiOutcome::MalformedResponse(e),
            },
            other => other,
        },
{
    match outcome {
        WhoamiOutcome::AuthRejected => match kept {
            Some(m) => WhoamiOutcome::MalformedResponse(m),
            None => WhoamiOutcome::AuthRejected,
        },
        WhoamiOutcome::MalformedResponse(e) => match kept {
            Some(m) => WhoamiOutcome::MalformedResponse(m),
            None => WhoamiOutcome::MalformedResponse(e),
        },
        other => other,
    }
}

/// `valid_login`'s `result`: `true`/`false`, or an integer that means `true`
/// exactly when it is 1.
pub struct ValidLoginResult(pub bool);

/// What a `result` value reads as, if it reads.
pub open spec fn valid_login_value(v: JsonValue) -> Option<bool> {
    match v {
        JsonValue::Bool(b) => Some(b),
        JsonValue::Number(n) => Some(n == JsonNumber::Unsigned(1)),
        _ => None,
    }
}

impl ValidLoginResult {
    pub fn is_valid(&self) -> (r: bool)
        ensures
            r == self.0,
    {
        self.0
    }

    /// Reads a `result` value; a value of another kind is handed back.
    pub fn try_from_json(v: JsonValue) -> (r: Result<ValidLoginResult, JsonValue>)
        ensures
            match valid_login_value(v) {
                Some(b) => r matches Ok(x) && x.0 == b,
                None => r == Err::<ValidLoginResult, JsonValue>(v),
            },
    {
        match v {
            JsonValue::Bool(b) => Ok(ValidLoginResult(b)),
            JsonValue::Number(n) => {
                let one = match n {
                    JsonNumber::Unsigned(u) => u == 1,
                    _ => false,
                };
                Ok(ValidLoginResult(one))
            },
            other => Err(other),
        }
    }
}

/// The body of a `valid_login` answer as the caller read it.
pub enum BodyReading<T> {
    /// The body could not be read.
    Unreadable { tls_certificate: bool },
    /// The body, parsed, or the parser's complaint.
    Parsed(Result<T, String>),
}

/// A `valid_login` probe's answer: a transport failure, or a status with
/// the body (read only when the status is a success).
pub enum ValidLoginReading {
    Transport { tls_certificate: bool },
    Response { status: u16, body: BodyReading<ValidLoginResult> },
}

/// Classifies one `valid_login` probe: any status other than 2xx is a
/// rejection; a 2xx whose body does not read is malformed; a readable
/// `result` authenticates when it is true and rejects otherwise.
pub fn classify_valid_login(method: AuthMethod, reading: ValidLoginReading) -> (o: ValidLoginOutcome)
    ensures
        match reading {
            ValidLoginReading::Transport { tls_certificate } => o == (ValidLoginOutcome::NetworkError {
                tls_certificate,
            }),
            ValidLoginReading::Response { status, body } => if !is_success(status) {
                o == ValidLoginOutcome::AuthRejected
            } else {
                match body {
                    BodyReading::Unreadable { tls_certificate } => o == (ValidLoginOutcome::NetworkError {
                        tls_certificate,
                    }),
                    BodyReading::Parsed(Ok(result)) => if result.0 {
                        o == ValidLoginOutcome::Authenticated(method)
                    } else {
                        o == ValidLoginOutcome::AuthRejected
                    },
                    BodyReading::Parsed(Err(e)) => o matches ValidLoginOutcome::MalformedResponse(m)
                        && m.probe@ == "valid_login"@ && m.method == method && m.error == e,
                }
            },
        },
{
    match reading {
        ValidLoginReading::Transport { tls_certificate } => ValidLoginOutcome::NetworkError {
            tls_certificate,
        },
        ValidLoginReading::Response { status, body } => {
            if !(200 <= status && status <= 299) {
                return ValidLoginOutcome::AuthRejected;
            }
            match body {
                BodyReading::Unreadable { tls_certificate } => ValidLoginOutcome::NetworkError {
                    tls_certificate,
                },
                BodyReading::Parsed(Ok(result)) => if result.is_valid() {
                    ValidLoginOutcome::Authenticated(method)
                } else {
                    ValidLoginOutcome::AuthRejected
                },
                BodyReading::Parsed(Err(e)) => ValidLoginOutcome::MalformedResponse(
                    MalformedProbeResponse::new("valid_login", method, e),
                ),
            }
        },
    }
}

/// One step over the `valid_login` probes (header, then query parameter):
/// a rejection goes on, a malformed answer goes on keeping the first one
/// seen, and anything else stops with that outcome.
pub fn valid_login_after_probe(
    kept: Option<MalformedProbeResponse>,
    outcome: ValidLoginOutcome,
) -> (r: Result<ValidLoginOutcome, Option<MalformedProbeResponse>>)
    ensures
        r == match outcome {
            ValidLoginOutcome::AuthRejected => Err(kept),
            ValidLoginOutcome::MalformedResponse(e) => Err(
                match kept {
                    Some(m) => Some(m),
                    None => Some(e),
                },
            ),
            other => Ok(other),
        },
{
    match outcome {
        ValidLoginOutcome::AuthRejected => Err(kept),
        ValidLoginOutcome::MalformedResponse(e) => Err(
            match kept {
                Some(m) => Some(m),
                None => Some(e),
            },
        ),
        other => Ok(other),
    }
}

/// The outcome of `valid_login` when both probes went on: the first
/// malformed answer, or a rejection.
pub fn valid_login_exhausted(kept: Option<MalformedProbeResponse>) -> (o: ValidLoginOutcome)
    ensures
        o == match kept {
            Some(m) => ValidLoginOutcome::MalformedResponse(m),
            None => ValidLoginOutcome::AuthRejected,
        },
{
    match kept {
        Some(m) => ValidLoginOutcome::MalformedResponse(m),
        None => ValidLoginOutcome::AuthRejected,
    }
}

/// What `rest/valid_login` answered when the configured credential is proved
/// with its own method: a status, the body as JSON (or the parser's
/// complaint), and the body read as a `valid_login` answer (or the parser's
/// complaint).
pub struct CurrentProofReading {
    pub status: u16,
    pub status_text: String,
    pub value: Result<JsonValue, String>,
    pub parsed: Result<ValidLoginResult, String>,
}

/// Whether a body carries a top-level `error` member.
pub open spec fn has_error_member(v: JsonValue) -> bool {
    match v {
        JsonValue::Object(m) => member(*m, "error"@) is Some,
        _ => false,
    }
}

fn error_with(prefix: &str, detail: &str) -> (e: BzrError)
    ensures
        e matches BzrError::Auth(m) && m@ == prefix@ + detail@,
{
    let mut s = String::from_str(prefix);
    s.append(detail);
    BzrError::Auth(s)
}

/// Proves the configured credential with exactly its current method: a non-2xx
/// status, a body that is not JSON, a top-level `error`, a body that is not a
/// `valid_login` answer and a `false` result are each an auth error.
pub fn current_method_verdict(reading: &CurrentProofReading) -> (r: Result<(), BzrError>)
    ensures
        !is_success(reading.status) ==> is_auth_error(
            r,
            "current credentials received unexpected HTTP status "@ + reading.status_text@
                + " from rest/valid_login"@,
        ),
        is_success(reading.status) ==> match reading.value {
            Err(e) => is_auth_error(
                r,
                "current credentials received invalid response from rest/valid_login: "@ + e@,
            ),
            Ok(v) => if has_error_member(v) {
                is_auth_error(
                    r,
                    "current credentials received invalid response from rest/valid_login: top-level error"@,
                )
            } else {
                match reading.parsed {
                    Err(e) => is_auth_error(
                        r,
                        "current credentials received invalid response from rest/valid_login: "@
                            + e@,
                    ),
                    Ok(p) => if p.0 {
                        r is Ok
                    } else {
                        is_auth_error(r, "current credentials did not confirm via rest/valid_login"@)
                    },
                }
            },
        },
{
    if !(200 <= reading.status && reading.status <= 299) {
        let mut s = String::from_str("current credentials received unexpected HTTP status ");
        s.append(reading.status_text.as_str());
        s.append(" from rest/valid_login");
        return Err(BzrError::Auth(s));
    }
    let invalid = "current credentials received invalid response from rest/valid_login: ";
    match &reading.value {
        Err(e) => return Err(error_with(invalid, e.as_str())),
        Ok(v) => {
            let has_error = match v {
                JsonValue::Object(m) => find_member(m, "error").is_some(),
                _ => false,
            };
            if has_error {
                proof {
                    reveal_strlit("current credentials received invalid response from rest/valid_login: ");
                    reveal_strlit("top-level error");
                    reveal_strlit("current credentials received invalid response from rest/valid_login: top-level error");
                    assert(invalid@ + "top-level error"@ =~= "current credentials received invalid response from rest/valid_login: top-level error"@);
                }
                return Err(error_with(invalid, "top-level error"));
            }
        },
    }
    match &reading.parsed {
        Err(e) => Err(error_with(invalid, e.as_str())),
        Ok(p) => if p.is_valid() {
            Ok(())
        } else {
            Err(BzrError::Auth(String::from_str("current credentials did not confirm via rest/valid_login")))
        },
    }
}

/// What `rest/version` answered: a transport failure, or a status with the
/// body (read only after a 2xx): unreadable, or read as `{"version": ...}`
/// (`None` when it is not one).
pub enum VersionReading {
    Transport,
    Response { status: u16, body: Option<Option<String>> },
}

/// The server version and API mode a version probe gives: no answer, a
/// non-2xx status or an unreadable body means a pre-5.0 server (XML-RPC); a
/// 2xx that is not a version answer means a modern server with an extension
/// (hybrid); a version picks its mode.
pub fn version_outcome(reading: VersionReading) -> (r: (Option<String>, ApiMode))
    ensures
        match reading {
            VersionReading::Response { status, body: Some(Some(v)) } if is_success(status) => r.0
                == Some(v) && r.1 == version_mode(v@),
            VersionReading::Response { status, body: Some(None) } if is_success(status) => r.0 is None
                && r.1 == ApiMode::Hybrid,
            _ => r.0 is None && r.1 == ApiMode::XmlRpc,
        },
{
    match reading {
        VersionReading::Transport => (None, ApiMode::XmlRpc),
        VersionReading::Response { status, body } => {
            if !(200 <= status && status <= 299) {
                return (None, ApiMode::XmlRpc);
            }
            match body {
                None => (None, ApiMode::XmlRpc),
                Some(None) => (None, ApiMode::Hybrid),
                Some(Some(v)) => {
                    let mode = version_to_api_mode(v.as_str());
                    (Some(v), mode)
                },
            }
        },
    }
}

} // verus!
