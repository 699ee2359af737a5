//! Decisions of single-record lookups: picking an attachment out of the
//! envelopes different Bugzilla versions answer with, and the retry chain of
//! a bug lookup (direct endpoint, then search, then XML-RPC).

use vstd::prelude::*;

use crate::attachment::{decimal_chars, decimal_string};
use crate::error::BzrError;
use crate::search::{annotate_search_fallback, fallback_note};
use crate::text::str_eq;
use crate::types::{ApiMode, Attachment, Bug};

verus! {

/// The `attachments` member of a by-ID attachment answer, with its entries
/// already read as attachments (or the reader's complaint about the first
/// entry that does not read).
pub enum AttachmentsMember {
    Missing,
    /// An object keyed by attachment ID.
    Object(Result<Vec<(String, Attachment)>, String>),
    /// An array of attachments.
    Array(Result<Vec<Attachment>, String>),
    /// Any other value.
    Other,
}

/// The first position from `from` on whose key is `key`.
pub open spec fn key_position(s: Seq<(String, Attachment)>, key: Seq<char>, from: int) -> Option<int>
    decreases s.len() - from,
{
    if from < 0 || from >= s.len() {
        None
    } else if s[from].0@ == key {
        Some(from)
    } else {
        key_position(s, key, from + 1)
    }
}

/// The first position from `from` on whose attachment has ID `id`.
pub open spec fn id_position(s: Seq<Attachment>, id: u64, from: int) -> Option<int>
    decreases s.len() - from,
{
    if from < 0 || from >= s.len() {
        None
    } else if s[from].id == id {
        Some(from)
    } else {
        id_position(s, id, from + 1)
    }
}

/// Whether `r` is a deserialization error with message `msg`.
pub open spec fn is_deserialize_error<T>(r: Result<T, BzrError>, msg: Seq<char>) -> bool {
    r matches Err(BzrError::Deserialize(m)) && m@ == msg
}

/// Whether `r` says that attachment `id` was not found.
pub open spec fn is_attachment_not_found<T>(r: Result<T, BzrError>, id: u64) -> bool {
    r matches Err(BzrError::NotFound { resource, id: i }) && resource@ == "attachment"@ && i@
        == decimal_chars(id as nat)
}

fn not_found(resource: &str, id: u64) -> (e: BzrError)
    ensures
        e matches BzrError::NotFound { resource: r, id: i } && r@ == resource@ && i@ == decimal_chars(
            id as nat,
        ),
{
    BzrError::NotFound { resource: String::from_str(resource), id: decimal_string(id) }
}

fn deserialize_error(prefix: &str, detail: &str) -> (e: BzrError)
    ensures
        e matches BzrError::Deserialize(m) && m@ == prefix@ + detail@,
{
    let mut m = String::from_str(prefix);
    m.append(detail);
    BzrError::Deserialize(m)
}

/// Picks attachment `attachment_id` out of a by-ID answer: from an object by
/// its key (whose attachment must carry that ID), from an array by ID.
pub fn select_attachment(member: AttachmentsMember, attachment_id: u64) -> (r: Result<Attachment, BzrError>)
    ensures
        match member {
            AttachmentsMember::Missing => is_deserialize_error(
                r,
                "attachment by-ID response: missing `attachments` member"@,
            ),
            AttachmentsMember::Other => is_deserialize_error(
                r,
                "attachment by-ID response: `attachments` must be an object or array"@,
            ),
            AttachmentsMember::Object(Err(e)) => is_deserialize_error(
                r,
                "attachment by-ID `attachments` object entry: "@ + e@,
            ),
            AttachmentsMember::Array(Err(e)) => is_deserialize_error(
                r,
                "attachment by-ID `attachments` array: "@ + e@,
            ),
            AttachmentsMember::Object(Ok(entries)) => match key_position(
                entries@,
                decimal_chars(attachment_id as nat),
                0,
            ) {
                None => is_attachment_not_found(r, attachment_id),
                Some(i) => if entries@[i].1.id == attachment_id {
                    r == Ok::<Attachment, BzrError>(entries@[i].1)
                } else {
                    is_deserialize_error(
                        r,
                        "attachment by-ID `attachments` object key "@ + decimal_chars(
                            attachment_id as nat,
                        ) + " contains ID "@ + decimal_chars(entries@[i].1.id as nat),
                    )
                },
            },
            AttachmentsMember::Array(Ok(list)) => match id_position(list@, attachment_id, 0) {
                None => is_attachment_not_found(r, attachment_id),
                Some(i) => r == Ok::<Attachment, BzrError>(list@[i]),
            },
        },
{
    match member {
        AttachmentsMember::Missing => Err(BzrError::Deserialize(String::from_str("attachment by-ID response: missing `attachments` member"))),
        AttachmentsMember::Other => Err(BzrError::Deserialize(String::from_str("attachment by-ID response: `attachments` must be an object or array"))),
        AttachmentsMember::Object(Err(e)) => Err(deserialize_error("attachment by-ID `attachments` object entry: ", e.as_str())),
        AttachmentsMember::Array(Err(e)) => Err(deserialize_error("attachment by-ID `attachments` array: ", e.as_str())),
        AttachmentsMember::Object(Ok(mut entries)) => {
            let key = decimal_string(attachment_id);
            let ghost s = entries@;
            let mut i: usize = 0;
            while i < entries.len()
                invariant
                    i <= entries@.len(),
                    entries@ == s,
                    key@ == decimal_chars(attachment_id as nat),
                    key_position(s, key@, 0) == key_position(s, key@, i as int),
                ensures
                    i <= entries@.len(),
                    entries@ == s,
                    key_position(s, key@, 0) == key_position(s, key@, i as int),
                    i < entries@.len() ==> s[i as int].0@ == key@,
                decreases entries@.len() - i,
            {
                if str_eq(entries[i].0.as_str(), key.as_str()) {
                    break;
                }
                i = i + 1;
            }
            if i == entries.len() {
                return Err(not_found("attachment", attachment_id));
            }
            assert(key_position(s, key@, i as int) == Some(i as int));
            let (_, attachment) = entries.remove(i);
            if attachment.id != attachment_id {
                let mut m = String::from_str("attachment by-ID `attachments` object key ");
                m.append(key.as_str());
                m.append(" contains ID ");
                let shown = decimal_string(attachment.id);
                m.append(shown.as_str());
                return Err(BzrError::Deserialize(m));
            }
            Ok(attachment)
        },
        AttachmentsMember::Array(Ok(mut list)) => {
            let ghost s = list@;
            let mut i: usize = 0;
            while i < list.len()
                invariant
                    i <= list@.len(),
                    list@ == s,
                    id_position(s, attachment_id, 0) == id_position(s, attachment_id, i as int),
                ensures
                    i <= list@.len(),
                    list@ == s,
                    id_position(s, attachment_id, 0) == id_position(s, attachment_id, i as int),
                    i < list@.len() ==> s[i as int].id == attachment_id,
                decreases list@.len() - i,
            {
                if list[i].id == attachment_id {
                    break;
                }
                i = i + 1;
            }
            if i == list.len() {
                return Err(not_found("attachment", attachment_id));
            }
            assert(id_position(s, attachment_id, i as int) == Some(i as int));
            Ok(list.remove(i))
        },
    }
}

/// The Bugzilla code of an internal server error, on which a direct bug
/// lookup is retried.
pub const BUGZILLA_INTERNAL_ERROR: i64 = 100500;

/// What the direct bug lookup's answer calls for.
#[derive(Debug)]
pub enum DirectLookup {
    /// The bug.
    Found(Bug),
    /// The direct endpoint failed with an internal error: ask the search
    /// endpoint, keeping that error.
    RetryViaSearch(BzrError),
    /// The lookup failed.
    Failed(BzrError),
}

/// Whether an error is an internal-error API error.
pub open spec fn is_internal_error(e: BzrError) -> bool {
    e matches BzrError::Api { code, .. } && code == BUGZILLA_INTERNAL_ERROR
}

/// Decides on the direct lookup's answer (its rows, or its error): an
/// internal error is retried via search, any other error fails, and the
/// first row is the bug; no row means the bug was not found.
pub fn direct_lookup_outcome(answer: Result<Vec<Bug>, BzrError>, id: &str) -> (d: DirectLookup)
    ensures
        match answer {
            Err(e) => if is_internal_error(e) {
                d == DirectLookup::RetryViaSearch(e)
            } else {
                d == DirectLookup::Failed(e)
            },
            Ok(rows) => if rows@.len() > 0 {
                d == DirectLookup::Found(rows@[0])
            } else {
                d matches DirectLookup::Failed(BzrError::NotFound { resource, id: i }) && resource@
                    == "bug"@ && i@ == id@
            },
        },
{
    match answer {
        Err(e) => {
            let internal = match &e {
                BzrError::Api { code, .. } => *code == BUGZILLA_INTERNAL_ERROR,
                _ => false,
            };
            if internal {
                DirectLookup::RetryViaSearch(e)
            } else {
                DirectLookup::Failed(e)
            }
        },
        Ok(mut rows) => {
            if rows.len() > 0 {
                DirectLookup::Found(rows.remove(0))
            } else {
                DirectLookup::Failed(BzrError::NotFound { resource: String::from_str("bug"), id: String::from_str(id) })
            }
        },
    }
}

/// Decides on the search retry's rows: the first row is the bug; no row
/// re-surfaces the error that forced the retry, noting that the fallback
/// came back empty, since search omits what the account may not see.
pub fn search_fallback_outcome(rows: Vec<Bug>, original: BzrError, id: &str) -> (r: Result<Bug, BzrError>)
    ensures
        rows@.len() > 0 ==> r == Ok::<Bug, BzrError>(rows@[0]),
        rows@.len() == 0 ==> match original {
            BzrError::Api { code, message } => r matches Err(BzrError::Api { code: c, message: m })
                && c == code && m@ == message@ + fallback_note(id@),
            other => r == Err::<Bug, BzrError>(other),
        },
{
    let mut rows = rows;
    if rows.len() > 0 {
        Ok(rows.remove(0))
    } else {
        Err(annotate_search_fallback(original, id))
    }
}

/// How a bug lookup runs in a mode: XML-RPC alone, REST alone, or REST with
/// an XML-RPC retry.
pub open spec fn retries_via_xmlrpc(mode: ApiMode, e: BzrError, transport_failure: bool) -> bool {
    mode == ApiMode::Hybrid && (transport_failure || is_internal_error(e))
}

/// Whether a hybrid-mode bug lookup that failed with `e` is retried over
/// XML-RPC: after a transport failure, or an internal error that the search
/// retry did not get past.
pub fn hybrid_retries_bug_lookup(mode: ApiMode, e: &BzrError, transport_failure: bool) -> (r: bool)
    ensures
        r == retries_via_xmlrpc(mode, *e, transport_failure),
{
    match mode {
        ApiMode::Hybrid => transport_failure || match e {
            BzrError::Api { code, .. } => *code == BUGZILLA_INTERNAL_ERROR,
            _ => false,
        },
        _ => false,
    }
}

} // verus!
