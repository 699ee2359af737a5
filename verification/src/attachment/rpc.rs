//! The XML-RPC acceptance rule of attachment responses, as a run over the
//! input: what each element, text run, comment or payload does to the open
//! elements and to the retained body, and when the document is refused.

use vstd::prelude::*;

use super::codec::{xml_markup_spec, MarkupModel};
use super::json::is_ws;
use super::marker_for;
use super::xml::{
    cdata_end, cdata_open, child_allowed, holds_scalar_text, markup_end, raw_text, tag_of, tag_text,
    trim_xml_ws, xml_payload_feed, xml_payload_kept, TagModel,
};

verus! {

/// The open elements of a document and what has been seen inside them, as
/// values.
pub ghost struct XmlModel {
    /// Open elements, outermost first.
    pub stack: Seq<TagModel>,
    /// For each open element, its last child so far.
    pub children: Seq<Option<TagModel>>,
    /// For each open member: unknown until its name is read, then whether it
    /// names the payload.
    pub members: Seq<Option<bool>>,
    /// For each open struct, the member names read so far.
    pub keys: Seq<Seq<Seq<u8>>>,
    /// Where in the retained body the text of the open `name` element begins.
    pub name_start: Option<int>,
    /// Whether the root element has been opened.
    pub root_seen: bool,
}

/// Nothing open, no root seen.
pub open spec fn initial_model() -> XmlModel {
    XmlModel {
        stack: Seq::empty(),
        children: Seq::empty(),
        members: Seq::empty(),
        keys: Seq::empty(),
        name_start: None,
        root_seen: false,
    }
}

/// The innermost open element.
pub open spec fn model_top(m: XmlModel) -> Option<TagModel> {
    if m.stack.len() > 0 {
        Some(m.stack.last())
    } else {
        None
    }
}

/// Opening `name` inside the current element: refused where XML-RPC does
/// not place it there, or where it repeats or reorders the children of an
/// element whose children are fixed; recorded as that element's last child.
pub open spec fn child_step(m: XmlModel, name: TagModel) -> Option<XmlModel> {
    if m.stack.len() == 0 {
        Some(m)
    } else {
        let parent = m.stack.last();
        if !child_allowed(parent, name) {
            None
        } else if parent == TagModel::Struct || parent == TagModel::Data {
            Some(m)
        } else {
            let prev = m.children.last();
            let pair = parent == TagModel::Member && name == TagModel::Value;
            let follows_name = pair && prev == Some(TagModel::Name);
            if (prev is Some || pair) && !follows_name {
                None
            } else {
                Some(XmlModel { children: m.children.drop_last().push(Some(name)), ..m })
            }
        }
    }
}

/// Text inside the current element: only in scalars, and directly inside a
/// `value` only as its sole content.
pub open spec fn text_step(m: XmlModel) -> Option<XmlModel> {
    match model_top(m) {
        None => None,
        Some(TagModel::Value) => match m.children.last() {
            Some(TagModel::Text) => Some(m),
            Some(_) => None,
            None => Some(XmlModel { children: m.children.drop_last().push(Some(TagModel::Text)), ..m }),
        },
        Some(t) => if holds_scalar_text(t) {
            Some(m)
        } else {
            None
        },
    }
}

/// Whether the innermost open element is the `value` of a `data` member.
pub open spec fn in_data(m: XmlModel) -> bool {
    m.members.len() > 0 && m.members.last() == Some(true) && model_top(m) == Some(TagModel::Value)
}

/// The member name that the open `name` element holds, once the body has been
/// read up to its closing tag: its text, trimmed.
pub open spec fn model_member_name(m: XmlModel, body: Seq<u8>) -> Option<Seq<u8>> {
    match m.name_start {
        Some(start) => if 0 <= start <= body.len() {
            match raw_text(body.subrange(start, body.len() as int), 0) {
                Some(t) => Some(trim_xml_ws(t)),
                None => None,
            }
        } else {
            None
        },
        None => None,
    }
}

/// The bytes "data", the name of the payload member.
pub open spec fn data_member() -> Seq<u8> {
    seq![100u8, 97, 116, 97]
}

/// Closing `name`: it must be the innermost open element. Closing a member
/// name records it in its struct (refusing a repeat) and marks whether the
/// member is the payload; closing a struct or member drops what was kept
/// for it.
pub open spec fn end_step(m: XmlModel, name: TagModel, body: Seq<u8>) -> Option<XmlModel> {
    if model_top(m) != Some(name) {
        None
    } else {
        let popped = XmlModel { stack: m.stack.drop_last(), children: m.children.drop_last(), ..m };
        if name == TagModel::Name {
            match model_member_name(m, body) {
                None => None,
                Some(f) => if m.keys.len() > 0 && m.keys.last().contains(f) {
                    None
                } else {
                    Some(
                        XmlModel {
                            name_start: None,
                            keys: if m.keys.len() > 0 {
                                m.keys.drop_last().push(m.keys.last().push(f))
                            } else {
                                m.keys
                            },
                            members: if m.members.len() > 0 {
                                m.members.drop_last().push(Some(f == data_member()))
                            } else {
                                m.members
                            },
                            ..popped
                        },
                    )
                },
            }
        } else {
            Some(
                XmlModel {
                    keys: if name == TagModel::Struct && m.keys.len() > 0 {
                        m.keys.drop_last()
                    } else {
                        m.keys
                    },
                    members: if name == TagModel::Member && m.members.len() > 0 {
                        m.members.drop_last()
                    } else {
                        m.members
                    },
                    ..popped
                },
            )
        }
    }
}

/// Opening `name` as a new innermost element whose text, for a member name,
/// begins at `body_len` in the retained body.
pub open spec fn open_step(m: XmlModel, name: TagModel, body_len: int) -> XmlModel {
    XmlModel {
        stack: m.stack.push(name),
        children: m.children.push(None),
        keys: if name == TagModel::Struct {
            m.keys.push(Seq::empty())
        } else {
            m.keys
        },
        members: if name == TagModel::Member {
            m.members.push(None)
        } else {
            m.members
        },
        name_start: if name == TagModel::Name {
            Some(body_len)
        } else {
            m.name_start
        },
        ..m
    }
}

/// Leaving the `value` whose content was a payload.
pub open spec fn leave_value(m: XmlModel) -> XmlModel {
    XmlModel { stack: m.stack.drop_last(), children: m.children.drop_last(), ..m }
}

/// What one step of the scan does.
pub ghost enum DocStep {
    /// The input has ended.
    Finish,
    /// The document is refused here.
    Fail,
    /// The scan goes on at a position, with the open elements, the retained
    /// body and the number of payloads so far.
    Next(int, XmlModel, Seq<u8>, nat),
}

/// The bytes "value".
pub open spec fn value_tag() -> Seq<u8> {
    seq![118u8, 97, 108, 117, 101]
}

/// A payload whose content begins at `p`, closed by `closing`: where the scan
/// goes on and what the body becomes, when it is well formed and the body
/// stays within `limit`.
pub open spec fn payload_step(
    s: Seq<u8>,
    limit: u64,
    p: int,
    closing: Seq<u8>,
    starts_cdata: bool,
    body: Seq<u8>,
    n: nat,
) -> Option<(int, Seq<u8>)> {
    let kept = xml_payload_kept(s, p, closing, starts_cdata, limit);
    let marker = marker_for(n);
    match xml_payload_feed(s, p, closing, starts_cdata, limit) {
        Some((end, _)) => if body.len() + kept.0.len() + marker.len() + kept.1.len() <= limit {
            Some((end, body + kept.0 + marker + kept.1))
        } else {
            None
        },
        None => None,
    }
}

/// The step of the scan at `pos`.
#[verifier::opaque]
pub open spec fn doc_step(s: Seq<u8>, limit: u64, pos: int, m: XmlModel, body: Seq<u8>, n: nat) -> DocStep {
    if pos < 0 || pos >= s.len() {
        DocStep::Finish
    } else if s[pos] != 60u8 {
        let b = s[pos];
        let m1 = if is_ws(b) {
            Some(m)
        } else {
            text_step(m)
        };
        match m1 {
            None => DocStep::Fail,
            Some(m1) => if in_data(m1) && !is_ws(b) {
                match payload_step(s, limit, pos, value_tag(), false, body, n) {
                    Some((end, body2)) => DocStep::Next(end, leave_value(m1), body2, n + 1),
                    None => DocStep::Fail,
                }
            } else if body.len() + 1 <= limit {
                DocStep::Next(pos + 1, m1, body.push(b), n)
            } else {
                DocStep::Fail
            },
        }
    } else {
        match markup_end(s, pos, limit) {
            None => DocStep::Fail,
            Some(e) => if e <= pos || e > s.len() || body.len() + (e - pos) > limit {
                DocStep::Fail
            } else {
                markup_step(s, limit, pos, e, m, body, n)
            },
        }
    }
}

/// The step of the scan for the markup token `s[pos..e]`.
#[verifier::opaque]
pub open spec fn markup_step(s: Seq<u8>, limit: u64, pos: int, e: int, m: XmlModel, body: Seq<u8>, n: nat) -> DocStep {
    let token = s.subrange(pos, e);
    let body1 = body + token;
    if token == cdata_open() {
        match text_step(m) {
            None => DocStep::Fail,
            Some(m1) => if in_data(m1) {
                match payload_step(s, limit, e, value_tag(), true, body, n) {
                    Some((end, body2)) => DocStep::Next(end, leave_value(m1), body2, n + 1),
                    None => DocStep::Fail,
                }
            } else {
                match cdata_end(s, e) {
                    Some(c) => if body1.len() + (c - e) <= limit {
                        DocStep::Next(c, m1, body1 + s.subrange(e, c), n)
                    } else {
                        DocStep::Fail
                    },
                    None => DocStep::Fail,
                }
            },
        }
    } else {
        match xml_markup_spec(token) {
            Some(MarkupModel::Start(name)) => {
                let tag = tag_of(name);
                match child_step(m, tag) {
                    None => DocStep::Fail,
                    Some(m1) => if m1.stack.len() == 0 && (m1.root_seen || tag != TagModel::MethodResponse) {
                        DocStep::Fail
                    } else {
                        let m2 = if m1.stack.len() == 0 {
                            XmlModel { root_seen: true, ..m1 }
                        } else {
                            m1
                        };
                        if m2.stack.len() >= 128 {
                            DocStep::Fail
                        } else if in_data(m2) && (tag == TagModel::Base64 || tag == TagModel::Str) {
                            match payload_step(s, limit, e, name, false, body1, n) {
                                Some((end, body2)) => DocStep::Next(end, m2, body2, n + 1),
                                None => DocStep::Fail,
                            }
                        } else {
                            DocStep::Next(e, open_step(m2, tag, body1.len() as int), body1, n)
                        }
                    },
                }
            },
            Some(MarkupModel::End(name)) => match end_step(m, tag_of(name), body1) {
                Some(m1) => DocStep::Next(e, m1, body1, n),
                None => DocStep::Fail,
            },
            Some(MarkupModel::Empty(name)) => {
                let tag = tag_of(name);
                if m.stack.len() == 0 {
                    DocStep::Fail
                } else {
                    match child_step(m, tag) {
                        None => DocStep::Fail,
                        Some(m1) => {
                            let in_data_member = m1.members.len() > 0 && m1.members.last() == Some(true);
                            let top = m1.stack.last();
                            let payload_tag = tag == TagModel::Base64 || tag == TagModel::Str;
                            if in_data_member && ((top == TagModel::Value && payload_tag) || (tag
                                == TagModel::Value && top == TagModel::Member)) {
                                let open = tag_text(name, false);
                                let close = tag_text(name, true);
                                let marker = marker_for(n);
                                if body.len() + open.len() + marker.len() + close.len() <= limit {
                                    DocStep::Next(e, m1, body + open + marker + close, n + 1)
                                } else {
                                    DocStep::Fail
                                }
                            } else {
                                DocStep::Next(e, m1, body1, n)
                            }
                        },
                    }
                }
            },
            Some(MarkupModel::Comment) => DocStep::Next(e, m, body1, n),
            Some(MarkupModel::Decl) => DocStep::Next(e, m, body1, n),
            Some(MarkupModel::PI) => DocStep::Next(e, m, body1, n),
            _ => DocStep::Fail,
        }
    }
}

/// How a scan ends.
pub ghost enum DocEnd {
    /// The input ended with the root element opened and every element
    /// closed; the retained body.
    Accepted(Seq<u8>),
    /// The input ended before that.
    Truncated,
    /// A step refused the document.
    Refused,
}

/// The scan from `pos` on.
pub open spec fn doc_run(s: Seq<u8>, limit: u64, pos: int, m: XmlModel, body: Seq<u8>, n: nat) -> DocEnd
    decreases s.len() - pos,
{
    match doc_step(s, limit, pos, m, body, n) {
        DocStep::Finish => if m.root_seen && m.stack.len() == 0 {
            DocEnd::Accepted(body)
        } else {
            DocEnd::Truncated
        },
        DocStep::Fail => DocEnd::Refused,
        DocStep::Next(p2, m2, b2, n2) => if p2 <= pos || p2 > s.len() {
            DocEnd::Refused
        } else {
            doc_run(s, limit, p2, m2, b2, n2)
        },
    }
}

/// A step that goes on forward leaves the outcome of the scan as it was.
pub proof fn lemma_doc_run_next(s: Seq<u8>, limit: u64, pos: int, m: XmlModel, body: Seq<u8>, n: nat)
    requires
        doc_step(s, limit, pos, m, body, n) matches DocStep::Next(p2, m2, b2, n2) && pos < p2 <= s.len(),
    ensures
        doc_step(s, limit, pos, m, body, n) matches DocStep::Next(p2, m2, b2, n2) && doc_run(s, limit, pos, m, body, n)
            == doc_run(s, limit, p2, m2, b2, n2),
{
}

/// Where the input ends, the scan ends as its open elements say.
pub proof fn lemma_doc_run_finish(s: Seq<u8>, limit: u64, pos: int, m: XmlModel, body: Seq<u8>, n: nat)
    requires
        doc_step(s, limit, pos, m, body, n) == DocStep::Finish,
    ensures
        doc_run(s, limit, pos, m, body, n) == if m.root_seen && m.stack.len() == 0 {
            DocEnd::Accepted(body)
        } else {
            DocEnd::Truncated
        },
{
}

/// A refused step refuses the document.
pub proof fn lemma_doc_run_fail(s: Seq<u8>, limit: u64, pos: int, m: XmlModel, body: Seq<u8>, n: nat)
    requires
        doc_step(s, limit, pos, m, body, n) == DocStep::Fail,
    ensures
        doc_run(s, limit, pos, m, body, n) == DocEnd::Refused,
{
}

/// How the scan of a whole document that starts at `pos` with the body
/// `body` retained and `n` payloads already found ends.
pub open spec fn xml_outcome(s: Seq<u8>, limit: u64, pos: int, body: Seq<u8>, n: nat) -> DocEnd {
    doc_run(s, limit, pos, initial_model(), body, n)
}

} // verus!
