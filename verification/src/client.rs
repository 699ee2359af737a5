//! The settings a Bugzilla client is built from, checked: how its
//! credential travels, its base URL, and the inputs of a credential proof.
//! The HTTP stack itself is built by the caller.

use vstd::prelude::*;

use crate::auth::header_value_ok;
use crate::error::{is_auth_error, BzrError};
use crate::types::{ApiMode, AuthMethod};

verus! {

#[verifier::external_type_specification]
#[verifier::external_body]
pub struct ExHeaderValue(reqwest::header::HeaderValue);

/// `reqwest::header::HeaderValue::from_str`: a header value exactly when no
/// byte of the text is a control character other than a tab, or DEL; with
/// it, the bytes it holds (`HeaderValue::as_bytes`), which are the text's
/// UTF-8 bytes as given.
#[verifier::external_body]
pub(crate) fn header_value(value: &str) -> (r: Option<(reqwest::header::HeaderValue, Vec<u8>)>)
    ensures
        r is Some <==> header_value_ok(value@),
        r matches Some((_, bytes)) ==> bytes@ == vstd::utf8::encode_utf8(value@),
{
    match reqwest::header::HeaderValue::from_str(value) {
        Ok(v) => {
            let bytes = v.as_bytes().to_vec();
            Some((v, bytes))
        },
        Err(_) => None,
    }
}

/// How the credential is attached to requests: as a header value, with the
/// bytes it holds, or as a query parameter.
#[derive(Debug)]
pub enum PreparedAuth {
    Header { value: reqwest::header::HeaderValue, bytes: Vec<u8> },
    QueryParam(String),
}

/// What a request does with the first answer it gets.
#[derive(Clone, Copy, Debug, PartialEq, Eq, Structural)]
pub enum FirstAnswerStep {
    /// Send the request once more, with the other form of the credential.
    RetryWithAlternateAuth,
    /// Check the answer as it stands.
    CheckAnswer,
}

/// A request the server refused with 401 is sent once more, with the other
/// form of the credential, when it can be sent again; any other answer is
/// checked as it stands.
pub fn after_first_answer(status: u16, can_resend: bool) -> (r: FirstAnswerStep)
    ensures
        r == if status == 401 && can_resend {
            FirstAnswerStep::RetryWithAlternateAuth
        } else {
            FirstAnswerStep::CheckAnswer
        },
{
    if status == 401 && can_resend {
        FirstAnswerStep::RetryWithAlternateAuth
    } else {
        FirstAnswerStep::CheckAnswer
    }
}

/// The answer to a resent request stands in for the refused one unless it
/// is itself a client or server error; else the refused answer is checked.
pub fn retried_answer_stands(status: u16) -> (r: bool)
    ensures
        r == !(400 <= status && status <= 599),
{
    !(400 <= status && status <= 599)
}

/// The other form of the credential that a resent request carries: a
/// client that sends the key as a header resends it as a query parameter;
/// one that sends it as a query parameter resends it as a header, an empty
/// one when the key is no valid header value.
pub fn alternate_auth(auth: &PreparedAuth, api_key: &str) -> (r: PreparedAuth)
    ensures
        match auth {
            PreparedAuth::Header { .. } => r matches PreparedAuth::QueryParam(k) && k@ == api_key@,
            PreparedAuth::QueryParam(_) => r matches PreparedAuth::Header { bytes, .. } && bytes@ == if header_value_ok(
                api_key@,
            ) {
                vstd::utf8::encode_utf8(api_key@)
            } else {
                Seq::empty()
            },
        },
{
    match auth {
        PreparedAuth::Header { .. } => PreparedAuth::QueryParam(String::from_str(api_key)),
        PreparedAuth::QueryParam(_) => match header_value(api_key) {
            Some((value, bytes)) => PreparedAuth::Header { value, bytes },
            None => {
                let empty = "";
                proof {
                    reveal_strlit("");
                    assert(vstd::utf8::encode_utf8(empty@) =~= Seq::<u8>::empty());
                }
                match header_value(empty) {
                    Some((value, bytes)) => PreparedAuth::Header { value, bytes },
                    None => PreparedAuth::QueryParam(String::from_str(api_key)),
                }
            },
        },
    }
}

/// Where a group lookup is asked.
#[derive(Clone, Copy, Debug, PartialEq, Eq, Structural)]
pub enum GroupLookupStep {
    /// Ask over XML-RPC.
    AskXmlRpc,
    /// Ask over REST.
    AskRest,
    /// Report the failure of the REST lookup.
    GiveUp,
}

/// A group lookup starts over XML-RPC in XML-RPC mode and over REST
/// otherwise.
pub fn group_lookup_start(mode: ApiMode) -> (r: GroupLookupStep)
    ensures
        r == if mode == ApiMode::XmlRpc {
            GroupLookupStep::AskXmlRpc
        } else {
            GroupLookupStep::AskRest
        },
{
    match mode {
        ApiMode::XmlRpc => GroupLookupStep::AskXmlRpc,
        _ => GroupLookupStep::AskRest,
    }
}

/// After a failed REST group lookup: a server that blocks the REST call
/// (API error 32610) is asked over XML-RPC in any mode, and so is one whose
/// REST call failed in transport in hybrid mode; any other failure stands.
pub fn group_lookup_after_rest_failure(mode: ApiMode, api_code: Option<i64>, transport_failure: bool) -> (r:
    GroupLookupStep)
    ensures
        r == if api_code == Some(32610i64) || (mode == ApiMode::Hybrid && transport_failure) {
            GroupLookupStep::AskXmlRpc
        } else {
            GroupLookupStep::GiveUp
        },
{
    let blocked = match api_code {
        Some(code) => code == 32610,
        None => false,
    };
    if blocked || (mode == ApiMode::Hybrid && transport_failure) {
        GroupLookupStep::AskXmlRpc
    } else {
        GroupLookupStep::GiveUp
    }
}

/// The largest attachment a server takes, in bytes: asked only with a
/// credential, from its `maxattachmentsize` parameter in kibibytes (the
/// product saturating at `u64::MAX`); unknown without a credential or when
/// the parameter could not be read.
pub fn attachment_size_limit(has_credential: bool, max_kib: Option<u64>) -> (r: Option<u64>)
    ensures
        r == if !has_credential {
            None
        } else {
            match max_kib {
                Some(k) => Some(if k * 1024 <= u64::MAX {
                    (k * 1024) as u64
                } else {
                    u64::MAX
                }),
                None => None,
            }
        },
{
    if !has_credential {
        return None;
    }
    match max_kib {
        Some(k) => Some(
            if k <= u64::MAX / 1024 {
                k * 1024
            } else {
                u64::MAX
            },
        ),
        None => None,
    }
}

/// Whether a connection carries a credential.
#[derive(Clone, Copy, Debug, PartialEq, Eq, Structural)]
pub enum AuthMode {
    ApiKey,
    Anonymous,
}

/// What a client is built from.
pub struct BugzillaClientConfig<'a> {
    pub base_url: &'a str,
    pub credential: Option<&'a str>,
    pub auth_method: Option<AuthMethod>,
    pub api_mode: ApiMode,
    pub email_hint: Option<&'a str>,
    pub server_name: &'a str,
    /// The request timeout, in milliseconds.
    pub request_timeout_ms: u64,
    pub retry_max: u32,
}

/// `s` without the `c` characters at its end.
pub open spec fn trim_end_char(s: Seq<char>, c: char) -> Seq<char>
    decreases s.len(),
{
    if s.len() > 0 && s.last() == c {
        trim_end_char(s.drop_last(), c)
    } else {
        s
    }
}

/// `s` without the `c` characters at its start.
pub open spec fn trim_start_char(s: Seq<char>, c: char) -> Seq<char>
    decreases s.len(),
{
    if s.len() > 0 && s[0] == c {
        trim_start_char(s.drop_first(), c)
    } else {
        s
    }
}

/// `str::trim_end_matches` with one character.
pub fn trim_end_matches_char(s: &str, c: char) -> (r: String)
    ensures
        r@ == trim_end_char(s@, c),
{
    let chars = crate::text::chars_of(s);
    let mut end = chars.len();
    assert(chars@.take(end as int) =~= s@);
    while end > 0 && chars[end - 1] == c
        invariant
            end <= chars@.len(),
            chars@ == s@,
            trim_end_char(s@, c) == trim_end_char(chars@.take(end as int), c),
        decreases end,
    {
        assert(chars@.take(end as int).drop_last() =~= chars@.take(end - 1));
        end = end - 1;
    }
    assert(trim_end_char(chars@.take(end as int), c) == chars@.take(end as int));
    let r = String::from_str(s.substring_char(0, end));
    assert(r@ =~= chars@.take(end as int));
    r
}

/// `str::trim_start_matches` with one character.
pub fn trim_start_matches_char(s: &str, c: char) -> (r: String)
    ensures
        r@ == trim_start_char(s@, c),
{
    let chars = crate::text::chars_of(s);
    let n = chars.len();
    let mut start: usize = 0;
    assert(chars@.subrange(0, n as int) =~= s@);
    while start < n && chars[start] == c
        invariant
            start <= n == chars@.len(),
            chars@ == s@,
            trim_start_char(s@, c) == trim_start_char(chars@.subrange(start as int, n as int), c),
        decreases n - start,
    {
        assert(chars@.subrange(start as int, n as int).drop_first() =~= chars@.subrange(
            start + 1,
            n as int,
        ));
        start = start + 1;
    }
    let r = String::from_str(s.substring_char(start, n));
    assert(r@ =~= chars@.subrange(start as int, n as int));
    r
}

/// What preparing the credential gives, as messages: `Ok(None)` for no
/// credential, `Ok(Some(m))` for a credential sent with method `m`, or the
/// configuration error's message.
pub open spec fn auth_plan(credential: Option<Seq<char>>, method: Option<AuthMethod>) -> Result<Option<AuthMethod>, Seq<char>> {
    match (credential, method) {
        (Some(k), Some(AuthMethod::Header)) => if header_value_ok(k) {
            Ok(Some(AuthMethod::Header))
        } else {
            Err("invalid API key characters"@)
        },
        (Some(_), Some(AuthMethod::QueryParam)) => Ok(Some(AuthMethod::QueryParam)),
        (None, None) => Ok(None),
        (Some(_), None) => Err("internal: credential provided without detected auth method"@),
        (None, Some(_)) => Err("internal: auth method provided without credential"@),
    }
}

pub open spec fn opt_str_view(o: Option<&str>) -> Option<Seq<char>> {
    match o {
        Some(s) => Some(s@),
        None => None,
    }
}

/// The method a prepared credential is sent with.
pub open spec fn prepared_method(a: Option<PreparedAuth>) -> Option<AuthMethod> {
    match a {
        Some(PreparedAuth::Header { .. }) => Some(AuthMethod::Header),
        Some(PreparedAuth::QueryParam(_)) => Some(AuthMethod::QueryParam),
        None => None,
    }
}

/// What a prepared credential carries is the configured credential: its
/// UTF-8 bytes in a header, or its text as a query parameter.
pub open spec fn prepared_credential(a: Option<PreparedAuth>, credential: Option<&str>) -> bool {
    match a {
        Some(PreparedAuth::Header { bytes, .. }) => credential matches Some(k) && bytes@
            == vstd::utf8::encode_utf8(k@),
        Some(PreparedAuth::QueryParam(k)) => Some(k@) == opt_str_view(credential),
        None => true,
    }
}

/// Prepares how the credential travels: a header needs a key that is a
/// valid header value; a credential and an auth method come together or not
/// at all.
pub fn prepare_auth(credential: Option<&str>, method: Option<AuthMethod>) -> (r: Result<Option<PreparedAuth>, BzrError>)
    ensures
        match auth_plan(opt_str_view(credential), method) {
            Ok(m) => r matches Ok(a) && prepared_method(a) == m && prepared_credential(a, credential),
            Err(msg) => r matches Err(BzrError::Config(m)) && m@ == msg,
        },
{
    match (credential, method) {
        (Some(key), Some(AuthMethod::Header)) => match header_value(key) {
            Some((value, bytes)) => Ok(Some(PreparedAuth::Header { value, bytes })),
            None => Err(BzrError::Config(String::from_str("invalid API key characters"))),
        },
        (Some(key), Some(AuthMethod::QueryParam)) => Ok(
            Some(PreparedAuth::QueryParam(String::from_str(key))),
        ),
        (None, None) => Ok(None),
        (Some(_), None) => Err(
            BzrError::Config(
                String::from_str("internal: credential provided without detected auth method"),
            ),
        ),
        (None, Some(_)) => Err(
            BzrError::Config(String::from_str("internal: auth method provided without credential")),
        ),
    }
}

/// The checked settings of a client.
pub struct ClientSettings {
    pub base_url: String,
    pub auth: Option<PreparedAuth>,
    pub api_key: Option<String>,
    pub api_mode: ApiMode,
    pub email_hint: Option<String>,
    pub server_name: String,
    pub retry_max: u32,
}

pub open spec fn opt_string_view(o: Option<String>) -> Option<Seq<char>> {
    match o {
        Some(s) => Some(s@),
        None => None,
    }
}

fn own(o: Option<&str>) -> (r: Option<String>)
    ensures
        opt_string_view(r) == opt_str_view(o),
{
    match o {
        Some(s) => Some(String::from_str(s)),
        None => None,
    }
}

impl ClientSettings {
    /// Checks a configuration: its credential is prepared as `prepare_auth`
    /// says, and the base URL loses its trailing slashes.
    pub fn from_config(config: &BugzillaClientConfig) -> (r: Result<ClientSettings, BzrError>)
        ensures
            match auth_plan(opt_str_view(config.credential), config.auth_method) {
                Ok(m) => r matches Ok(s) && prepared_method(s.auth) == m && prepared_credential(
                    s.auth,
                    config.credential,
                ) && s.base_url@
                    == trim_end_char(config.base_url@, '/') && opt_string_view(s.api_key)
                    == opt_str_view(config.credential) && s.api_mode == config.api_mode
                    && opt_string_view(s.email_hint) == opt_str_view(config.email_hint)
                    && s.server_name@ == config.server_name@ && s.retry_max == config.retry_max,
                Err(msg) => r matches Err(BzrError::Config(m)) && m@ == msg,
            },
    {
        let auth = match prepare_auth(config.credential, config.auth_method) {
            Ok(a) => a,
            Err(e) => return Err(e),
        };
        Ok(ClientSettings {
            base_url: trim_end_matches_char(config.base_url, '/'),
            auth,
            api_key: own(config.credential),
            api_mode: config.api_mode,
            email_hint: own(config.email_hint),
            server_name: String::from_str(config.server_name),
            retry_max: config.retry_max,
        })
    }

    /// The configured server name.
    pub fn server_name(&self) -> (s: &str)
        ensures
            s@ == self.server_name@,
    {
        self.server_name.as_str()
    }

    /// Whether the connection carries a credential.
    pub fn auth_mode(&self) -> (m: AuthMode)
        ensures
            m == if self.api_key is Some {
                AuthMode::ApiKey
            } else {
                AuthMode::Anonymous
            },
    {
        if self.api_key.is_some() {
            AuthMode::ApiKey
        } else {
            AuthMode::Anonymous
        }
    }

    /// The REST URL of `path`: the base URL, `/rest/`, and the path without
    /// its leading slashes.
    pub fn url(&self, path: &str) -> (u: String)
        ensures
            u@ == self.base_url@ + "/rest/"@ + trim_start_char(path@, '/'),
    {
        let mut u = String::from_str(self.base_url.as_str());
        u.append("/rest/");
        let p = trim_start_matches_char(path, '/');
        u.append(p.as_str());
        u
    }

    /// What proving the current credential needs: a non-empty login, a
    /// non-empty credential and a prepared auth method, in that order.
    pub fn current_proof_inputs(&self) -> (r: Result<(&str, &PreparedAuth), BzrError>)
        ensures
            !(self.email_hint matches Some(l) && l@.len() > 0) ==> is_auth_error(
                r,
                "current credential proof requires a configured email for rest/valid_login"@,
            ),
            (self.email_hint matches Some(l) && l@.len() > 0) && !(self.api_key matches Some(k)
                && k@.len() > 0) ==> is_auth_error(
                r,
                "current credential proof requires a configured credential"@,
            ),
            (self.email_hint matches Some(l) && l@.len() > 0) && (self.api_key matches Some(k)
                && k@.len() > 0) && self.auth is None ==> is_auth_error(
                r,
                "current credential proof requires a configured auth method"@,
            ),
            (self.email_hint matches Some(l) && l@.len() > 0) && (self.api_key matches Some(k)
                && k@.len() > 0) && self.auth is Some ==> (r matches Ok((l, a)) && Some(l@)
                == opt_string_view(self.email_hint) && Some(*a) == self.auth),
    {
        let login = match &self.email_hint {
            Some(l) => {
                if l.unicode_len() == 0 {
                    return Err(BzrError::Auth(String::from_str("current credential proof requires a configured email for rest/valid_login")));
                }
                l.as_str()
            },
            None => return Err(BzrError::Auth(String::from_str("current credential proof requires a configured email for rest/valid_login"))),
        };
        match &self.api_key {
            Some(k) => {
                if k.unicode_len() == 0 {
                    return Err(BzrError::Auth(String::from_str("current credential proof requires a configured credential")));
                }
            },
            None => return Err(BzrError::Auth(String::from_str("current credential proof requires a configured credential"))),
        }
        match &self.auth {
            Some(a) => Ok((login, a)),
            None => Err(BzrError::Auth(String::from_str("current credential proof requires a configured auth method"))),
        }
    }
}

} // verus!
