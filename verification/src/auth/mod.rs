//! Authentication and API-mode detection: what each probe's answer means,
//! and the decisions that chain the probes together. The probes themselves
//! (requests over the network) are made by the caller, which hands each
//! answer back as a plain value and performs the step it is told to take.

pub mod detect;
pub mod header_check;
pub mod probe;

use vstd::prelude::*;

use crate::error::BzrError;
use crate::text::{
    chars_of, find_char, lemma_split_first_two, parse_u32_range, parse_unsigned, split,
    utf8_len, utf8_prefix_chars,
};
use crate::types::{ApiMode, AuthMethod};
use crate::redact::{key_cut, redact, redact_api_key, safe_key_cut};

verus! {

/// The settings that detection found: the auth method (none for anonymous
/// detection), the API mode, and the server version when the version probe
/// answered.
#[derive(Debug)]
pub struct DetectedServerSettings {
    pub auth_method: Option<AuthMethod>,
    pub api_mode: ApiMode,
    pub server_version: Option<String>,
}

/// The `i`-th `.`-separated part of a version string, read as a `u32`.
pub open spec fn version_part(v: Seq<char>, i: int) -> Option<nat> {
    let parts = split(v, '.');
    if 0 <= i < parts.len() {
        parse_unsigned(parts[i], u32::MAX as nat)
    } else {
        None
    }
}

/// The API mode a Bugzilla version calls for: below 5.0 XML-RPC, 5.0 hybrid,
/// 5.1 and later REST; a version whose major part does not read is hybrid.
pub open spec fn version_mode(v: Seq<char>) -> ApiMode {
    match version_part(v, 0) {
        None => ApiMode::Hybrid,
        Some(major) => if major < 5 {
            ApiMode::XmlRpc
        } else if major == 5 {
            match version_part(v, 1) {
                Some(minor) => if minor < 1 {
                    ApiMode::Hybrid
                } else {
                    ApiMode::Rest
                },
                None => ApiMode::Hybrid,
            }
        } else {
            ApiMode::Rest
        },
    }
}

/// How far along the move to REST a mode is: XML-RPC, then hybrid, then
/// REST.
pub open spec fn mode_rank(m: ApiMode) -> int {
    match m {
        ApiMode::XmlRpc => 0,
        ApiMode::Hybrid => 1,
        ApiMode::Rest => 2,
    }
}

/// The mode of a version whose major and minor parts read as numbers:
/// XML-RPC below 5, hybrid for 5.0, REST for 5.1 and every later 5.x and
/// for 6 and above; and the mode never moves back toward XML-RPC as the
/// version grows.
pub proof fn lemma_version_mode_order(v: Seq<char>, w: Seq<char>)
    requires
        version_part(v, 0) is Some,
        version_part(v, 1) is Some,
        version_part(w, 0) is Some,
        version_part(w, 1) is Some,
    ensures
        ({
            let (major, minor) = (version_part(v, 0)->0, version_part(v, 1)->0);
            &&& major < 5 ==> version_mode(v) == ApiMode::XmlRpc
            &&& major == 5 && minor == 0 ==> version_mode(v) == ApiMode::Hybrid
            &&& major == 5 && minor >= 1 ==> version_mode(v) == ApiMode::Rest
            &&& major > 5 ==> version_mode(v) == ApiMode::Rest
        }),
        ({
            let (a, b) = (version_part(v, 0)->0, version_part(v, 1)->0);
            let (c, d) = (version_part(w, 0)->0, version_part(w, 1)->0);
            (a < c || (a == c && b <= d)) ==> mode_rank(version_mode(v)) <= mode_rank(version_mode(w))
        }),
{
}

/// Parses a Bugzilla version string ("5.0.4", "5.1.2", "5.0.4.rh103", ...)
/// and picks the API mode for it.
pub fn version_to_api_mode(version: &str) -> (m: ApiMode)
    ensures
        m == version_mode(version@),
{
    let c = chars_of(version);
    proof {
        lemma_split_first_two(c@, '.');
    }
    let e0 = find_char(&c, 0, '.');
    let major = parse_u32_range(&c, 0, e0);
    let minor = if e0 < c.len() {
        let e1 = find_char(&c, e0 + 1, '.');
        parse_u32_range(&c, e0 + 1, e1)
    } else {
        None
    };
    assert(split(c@, '.')[0] == c@.subrange(0, e0 as int));
    match major {
        None => ApiMode::Hybrid,
        Some(major) => {
            if major < 5 {
                ApiMode::XmlRpc
            } else if major == 5 {
                match minor {
                    Some(minor) => if minor < 1 {
                        ApiMode::Hybrid
                    } else {
                        ApiMode::Rest
                    },
                    None => ApiMode::Hybrid,
                }
            } else {
                ApiMode::Rest
            }
        },
    }
}

/// Whether `http` accepts a byte in a header value: visible ASCII, a space
/// or a tab, or any byte from 0x80 up.
pub open spec fn header_byte_ok(b: u8) -> bool {
    (b >= 32 && b != 127) || b == 9
}

/// Whether the text can be sent as a header value.
pub open spec fn header_value_ok(s: Seq<char>) -> bool {
    let bytes = vstd::utf8::encode_utf8(s);
    forall|i: int| 0 <= i < bytes.len() ==> #[trigger] header_byte_ok(bytes[i])
}

/// The most bytes of a probe body that a trace line carries.
pub const AUTH_PROBE_BODY_TRACE_MAX_BYTES: usize = 2048;

/// Bounds a probe response body for trace logging, with the API key
/// removed: the longest prefix that fits in `AUTH_PROBE_BODY_TRACE_MAX_BYTES`
/// bytes, never cutting a character, is moved back before any key parameter
/// it would split, then every `Bugzilla_api_key=` value in it is redacted.
/// Query-parameter probes carry the key in the URL, which error pages echo.
pub fn trace_body_preview(body: &str) -> (r: String)
    ensures
        exists|k: int|
            #[trigger] crate::response::longest_fit(body@, k, AUTH_PROBE_BODY_TRACE_MAX_BYTES as nat) && r@
                == redact(body@.take(key_cut(body@, k))),
{
    let c = chars_of(body);
    let k = utf8_prefix_chars(&c, AUTH_PROBE_BODY_TRACE_MAX_BYTES);
    let end = safe_key_cut(&c, k);
    let prefix = body.substring_char(0, end);
    assert(prefix@ =~= body@.take(end as int));
    assert(crate::response::longest_fit(body@, k as int, AUTH_PROBE_BODY_TRACE_MAX_BYTES as nat));
    redact_api_key(prefix)
}

/// How an auth method names itself in messages.
pub open spec fn auth_method_name(m: AuthMethod) -> Seq<char> {
    match m {
        AuthMethod::Header => "header"@,
        AuthMethod::QueryParam => "query_param"@,
    }
}

pub fn auth_method_str(m: AuthMethod) -> (s: &'static str)
    ensures
        s@ == auth_method_name(m),
{
    match m {
        AuthMethod::Header => "header",
        AuthMethod::QueryParam => "query_param",
    }
}

/// A probe that answered 200 with a body that does not read: which probe,
/// with which auth method, and what the parser said.
#[derive(Debug)]
pub struct MalformedProbeResponse {
    pub probe: String,
    pub method: AuthMethod,
    pub error: String,
}

/// How a malformed probe response reads in a message.
pub open spec fn malformed_text(m: MalformedProbeResponse) -> Seq<char> {
    m.probe@ + " "@ + auth_method_name(m.method) + " probe returned malformed 200 response: "@
        + m.error@
}

impl MalformedProbeResponse {
    pub fn new(probe: &str, method: AuthMethod, error: String) -> (r: Self)
        ensures
            r.probe@ == probe@,
            r.method == method,
            r.error == error,
    {
        MalformedProbeResponse { probe: String::from_str(probe), method, error }
    }

    /// The response as a message.
    pub fn describe(&self) -> (s: String)
        ensures
            s@ == malformed_text(*self),
    {
        let mut s = String::from_str(self.probe.as_str());
        s.append(" ");
        s.append(auth_method_str(self.method));
        s.append(" probe returned malformed 200 response: ");
        s.append(self.error.as_str());
        s
    }
}

/// The message of a failed detection: the hint, then the first malformed
/// probe response, if one was seen.
pub open spec fn detection_message(hint: Seq<char>, malformed: Option<MalformedProbeResponse>) -> Seq<char> {
    match malformed {
        Some(m) => hint + " Last malformed auth probe: "@ + malformed_text(m) + "."@,
        None => hint,
    }
}

/// The error a failed detection reports.
pub fn auth_detection_error(hint: &str, malformed: Option<&MalformedProbeResponse>) -> (e: BzrError)
    ensures
        e matches BzrError::Auth(m) && m@ == detection_message(
            hint@,
            match malformed {
                Some(x) => Some(*x),
                None => None,
            },
        ),
{
    let mut message = String::from_str(hint);
    match malformed {
        Some(m) => {
            message.append(" Last malformed auth probe: ");
            let d = m.describe();
            message.append(d.as_str());
            message.append(".");
        },
        None => {},
    }
    BzrError::Auth(message)
}

} // verus!
