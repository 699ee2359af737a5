//! What the server-description requests decide: the status transitions a
//! server reports, and which transport asks for the server's extensions,
//! with the error when both transports refuse it.

use vstd::prelude::*;

use crate::error::BzrError;
use crate::fields::{status_transitions, summary_of, transition_sources};
use crate::types::{ApiMode, FieldValue, StatusTransitionSummary};

verus! {

/// The status transitions a server reports, from its answer for the `status`
/// field: a server with no such field has none, any other failure stands.
pub fn server_status_transitions(answer: Result<Vec<FieldValue>, BzrError>) -> (r: Result<
    Vec<StatusTransitionSummary>,
    BzrError,
>)
    ensures
        match answer {
            Ok(values) => r matches Ok(t) && t@.len() == transition_sources(values@).len() && forall|
                i: int,
            |
                0 <= i < t@.len() ==> summary_of(#[trigger] t@[i], transition_sources(values@)[i]),
            Err(BzrError::NotFound { .. }) => r matches Ok(t) && t@.len() == 0,
            Err(e) => r == Err::<Vec<StatusTransitionSummary>, BzrError>(e),
        },
{
    match answer {
        Ok(values) => Ok(status_transitions(values)),
        Err(BzrError::NotFound { .. }) => Ok(Vec::new()),
        Err(e) => Err(e),
    }
}

/// Where a request for the server's extensions stands.
#[derive(Debug)]
pub enum ExtensionsStep {
    /// Ask over REST.
    AskRest,
    /// Ask over XML-RPC; after a failed REST request in hybrid mode, with
    /// the text of its error.
    AskXmlRpc(Option<String>),
    /// The last answer stands, success or failure.
    Answer,
}

/// The extensions are asked over XML-RPC in XML-RPC mode and over REST
/// otherwise.
pub fn extensions_start(mode: ApiMode) -> (r: ExtensionsStep)
    ensures
        mode == ApiMode::XmlRpc ==> r matches ExtensionsStep::AskXmlRpc(None),
        mode != ApiMode::XmlRpc ==> r is AskRest,
{
    match mode {
        ApiMode::XmlRpc => ExtensionsStep::AskXmlRpc(None),
        _ => ExtensionsStep::AskRest,
    }
}

/// After the REST request: in hybrid mode any REST failure, whatever its
/// kind, has the extensions asked again over XML-RPC; otherwise the REST
/// answer stands.
pub fn extensions_after_rest(mode: ApiMode, rest_error: Option<&str>) -> (r: ExtensionsStep)
    ensures
        match rest_error {
            Some(e) => if mode == ApiMode::Hybrid {
                r matches ExtensionsStep::AskXmlRpc(Some(t)) && t@ == e@
            } else {
                r is Answer
            },
            None => r is Answer,
        },
{
    match rest_error {
        Some(e) => if mode == ApiMode::Hybrid {
            ExtensionsStep::AskXmlRpc(Some(String::from_str(e)))
        } else {
            ExtensionsStep::Answer
        },
        None => ExtensionsStep::Answer,
    }
}

/// After the XML-RPC request: when it failed after REST had failed, the
/// error names both attempts; otherwise the XML-RPC answer stands (`None`).
pub fn extensions_after_xmlrpc(rest_error: Option<&str>, xmlrpc_error: Option<&str>) -> (r: Option<BzrError>)
    ensures
        match (rest_error, xmlrpc_error) {
            (Some(a), Some(b)) => r matches Some(BzrError::XmlRpc(m)) && m@ == "REST probe failed ("@ + a@
                + "); XML-RPC probe also failed ("@ + b@ + ")"@,
            _ => r is None,
        },
{
    match (rest_error, xmlrpc_error) {
        (Some(a), Some(b)) => Some(extensions_fallback_error(a, b)),
        _ => None,
    }
}

/// The error when the REST extensions probe failed with `rest` and the
/// XML-RPC one then failed with `xmlrpc`: it names both attempts.
pub fn extensions_fallback_error(rest: &str, xmlrpc: &str) -> (e: BzrError)
    ensures
        e matches BzrError::XmlRpc(m) && m@ == "REST probe failed ("@ + rest@
            + "); XML-RPC probe also failed ("@ + xmlrpc@ + ")"@,
{
    let mut m = String::from_str("REST probe failed (");
    m.append(rest);
    m.append("); XML-RPC probe also failed (");
    m.append(xmlrpc);
    m.append(")");
    BzrError::XmlRpc(m)
}

} // verus!
