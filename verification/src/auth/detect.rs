//! The decisions of credentialed auth detection, as a state machine: the
//! caller performs each step (a probe) and hands its outcome back.
//!
//! `rest/whoami` is asked first; on a 404 `rest/valid_login` follows, but
//! only when a login is configured. Within an endpoint header auth is tried
//! before the query parameter. When `valid_login` proves only the query
//! parameter, header auth is re-checked on `rest/user` and preferred when it
//! is confirmed. The first malformed answer seen is kept for the final
//! error.

use vstd::prelude::*;

use crate::auth::probe::{ValidLoginOutcome, WhoamiOutcome};
use crate::auth::{auth_detection_error, detection_message, header_value_ok, MalformedProbeResponse};
use crate::client::header_value;
use crate::error::BzrError;
use crate::types::AuthMethod;

verus! {

/// The hint when `rest/whoami` is missing and no login is configured.
pub const HINT_NEEDS_EMAIL: &'static str = "auth detection failed: Bugzilla 5.3+/BMO-derived servers use native whoami; this Bugzilla 5.0/5.2 server needs an email for the rest/valid_login fallback. Configure a named server by rerunning its complete `bzr config set-server <name> --url <url> --email <email> ...` command, preserving its existing options; or add `--server-email` to an inline `--server-url` invocation.";

/// The hint when `rest/valid_login` did not confirm the credential.
pub const HINT_VALID_LOGIN: &'static str = "auth detection failed: rest/valid_login did not confirm your credentials. Check your API key and email address.";

/// The hint when no probe accepted the credential.
pub const HINT_NO_AUTH: &'static str = "auth detection failed: could not authenticate with the server. Check your API key and server URL.";

/// What the caller does next.
#[derive(Debug)]
pub enum AuthStep {
    /// Probe `rest/whoami`, header first.
    ProbeWhoami,
    /// Probe `rest/valid_login` for the configured login, header first.
    ProbeValidLogin,
    /// `valid_login` proved the query parameter: check on `rest/user`
    /// whether the server honours the header too.
    VerifyHeader,
    /// Detection is over.
    Finish(Result<AuthMethod, BzrError>),
    /// A TLS certificate failure: report the transport error itself, so that
    /// the certificate can be trusted or its pin rotated.
    PropagateTransportError,
}

/// What detection has learned so far.
pub struct AuthDetection {
    /// Whether a login (email) is configured.
    pub has_email: bool,
    /// Whether `rest/whoami` answered 404.
    pub whoami_not_found: bool,
    /// The first malformed probe answer seen.
    pub malformed: Option<MalformedProbeResponse>,
}

/// The hint a failed detection gives.
pub open spec fn detection_hint(s: AuthDetection) -> Seq<char> {
    if s.whoami_not_found && !s.has_email {
        HINT_NEEDS_EMAIL@
    } else if s.whoami_not_found {
        HINT_VALID_LOGIN@
    } else {
        HINT_NO_AUTH@
    }
}

/// Whether `step` ends detection with the auth error that state `s` reports.
pub open spec fn gives_up(step: AuthStep, s: AuthDetection) -> bool {
    step matches AuthStep::Finish(Err(BzrError::Auth(m))) && m@ == detection_message(
        detection_hint(s),
        s.malformed,
    )
}

/// What a transport failure means: a TLS certificate failure is reported,
/// any other one falls back to header auth.
pub open spec fn network_step(tls_certificate: bool) -> AuthStep {
    if tls_certificate {
        AuthStep::PropagateTransportError
    } else {
        AuthStep::Finish(Ok(AuthMethod::Header))
    }
}

/// The malformed answer kept after seeing `e`: the first one stays.
pub open spec fn keep_first(kept: Option<MalformedProbeResponse>, e: MalformedProbeResponse) -> Option<MalformedProbeResponse> {
    match kept {
        Some(m) => Some(m),
        None => Some(e),
    }
}

impl AuthDetection {
    /// Starts detection: an API key that cannot travel in a header is a
    /// configuration error; otherwise `rest/whoami` comes first.
    pub fn start(api_key: &str, has_email: bool) -> (r: (AuthDetection, AuthStep))
        ensures
            r.0.has_email == has_email,
            !r.0.whoami_not_found,
            r.0.malformed is None,
            header_value_ok(api_key@) ==> r.1 == AuthStep::ProbeWhoami,
            !header_value_ok(api_key@) ==> (r.1 matches AuthStep::Finish(Err(BzrError::Config(m)))
                && m@ == "invalid API key characters"@),
    {
        let s = AuthDetection { has_email, whoami_not_found: false, malformed: None };
        if header_value(api_key).is_some() {
            (s, AuthStep::ProbeWhoami)
        } else {
            (s, AuthStep::Finish(Err(BzrError::Config(String::from_str("invalid API key characters")))))
        }
    }

    fn give_up(&mut self) -> (step: AuthStep)
        ensures
            *final(self) == *old(self),
            gives_up(step, *old(self)),
    {
        let hint = if self.whoami_not_found && !self.has_email {
            HINT_NEEDS_EMAIL
        } else if self.whoami_not_found {
            HINT_VALID_LOGIN
        } else {
            HINT_NO_AUTH
        };
        let e = auth_detection_error(hint, self.malformed.as_ref());
        AuthStep::Finish(Err(e))
    }

    /// Takes the outcome of `rest/whoami`.
    pub fn on_whoami(&mut self, outcome: WhoamiOutcome) -> (step: AuthStep)
        ensures
            final(self).has_email == old(self).has_email,
            old(self).malformed is Some ==> final(self).malformed == old(self).malformed,
            match outcome {
                WhoamiOutcome::Authenticated(m) => step == AuthStep::Finish(Ok(m)),
                WhoamiOutcome::NetworkError { tls_certificate } => step == network_step(
                    tls_certificate,
                ),
                _ => {
                    &&& final(self).whoami_not_found == (old(self).whoami_not_found
                        || outcome is NotFound)
                    &&& final(self).malformed == match outcome {
                        WhoamiOutcome::MalformedResponse(e) => keep_first(old(self).malformed, e),
                        _ => old(self).malformed,
                    }
                    &&& if final(self).has_email {
                        step == AuthStep::ProbeValidLogin
                    } else {
                        gives_up(step, *final(self))
                    }
                },
            },
    {
        match outcome {
            WhoamiOutcome::Authenticated(m) => return AuthStep::Finish(Ok(m)),
            WhoamiOutcome::NetworkError { tls_certificate } => {
                return if tls_certificate {
                    AuthStep::PropagateTransportError
                } else {
                    AuthStep::Finish(Ok(AuthMethod::Header))
                };
            },
            WhoamiOutcome::NotFound => {
                self.whoami_not_found = true;
            },
            WhoamiOutcome::AuthRejected => {},
            WhoamiOutcome::MalformedResponse(e) => {
                if self.malformed.is_none() {
                    self.malformed = Some(e);
                }
            },
        }
        if self.has_email {
            AuthStep::ProbeValidLogin
        } else {
            self.give_up()
        }
    }

    /// Takes the outcome of `rest/valid_login`.
    pub fn on_valid_login(&mut self, outcome: ValidLoginOutcome) -> (step: AuthStep)
        ensures
            final(self).has_email == old(self).has_email,
            final(self).whoami_not_found == old(self).whoami_not_found,
            old(self).malformed is Some ==> final(self).malformed == old(self).malformed,
            match outcome {
                ValidLoginOutcome::Authenticated(AuthMethod::QueryParam) => step
                    == AuthStep::VerifyHeader,
                ValidLoginOutcome::Authenticated(AuthMethod::Header) => step == AuthStep::Finish(
                    Ok(AuthMethod::Header),
                ),
                ValidLoginOutcome::NetworkError { tls_certificate } => step == network_step(
                    tls_certificate,
                ),
                _ => {
                    &&& final(self).malformed == match outcome {
                        ValidLoginOutcome::MalformedResponse(e) => keep_first(
                            old(self).malformed,
                            e,
                        ),
                        _ => old(self).malformed,
                    }
                    &&& gives_up(step, *final(self))
                },
            },
    {
        match outcome {
            ValidLoginOutcome::Authenticated(AuthMethod::QueryParam) => AuthStep::VerifyHeader,
            ValidLoginOutcome::Authenticated(AuthMethod::Header) => AuthStep::Finish(
                Ok(AuthMethod::Header),
            ),
            ValidLoginOutcome::NetworkError { tls_certificate } => if tls_certificate {
                AuthStep::PropagateTransportError
            } else {
                AuthStep::Finish(Ok(AuthMethod::Header))
            },
            ValidLoginOutcome::AuthRejected => self.give_up(),
            ValidLoginOutcome::MalformedResponse(e) => {
                if self.malformed.is_none() {
                    self.malformed = Some(e);
                }
                self.give_up()
            },
        }
    }

    /// Takes the verdict of the `rest/user` check: header auth when it was
    /// confirmed, the query parameter that `valid_login` proved otherwise.
    pub fn on_header_verified(&self, confirmed: bool) -> (step: AuthStep)
        ensures
            step == AuthStep::Finish(
                Ok(
                    if confirmed {
                        AuthMethod::Header
                    } else {
                        AuthMethod::QueryParam
                    },
                ),
            ),
    {
        if confirmed {
            AuthStep::Finish(Ok(AuthMethod::Header))
        } else {
            AuthStep::Finish(Ok(AuthMethod::QueryParam))
        }
    }
}

} // verus!
