//! The calls into base64, quick-xml and serde_json that attachment
//! extraction makes, each with the contract that the library relies on.

use vstd::prelude::*;

use base64::Engine;
use quick_xml::events::Event;

verus! {

/// What the standard base64 engine gives for one four-byte quartet: the
/// decoded bytes, or the text of its decoding error.
pub uninterp spec fn base64_quartet_spec(quartet: Seq<u8>) -> Result<Seq<u8>, Seq<char>>;

/// What the standard base64 engine decodes `input` to, `None` on any error.
pub uninterp spec fn base64_decode_spec(input: Seq<u8>) -> Option<Seq<u8>>;

/// What the standard (padded) base64 engine encodes `input` to.
pub uninterp spec fn base64_encode_spec(input: Seq<u8>) -> Seq<u8>;

/// `base64::engine::general_purpose::STANDARD.decode_slice` on one quartet,
/// into a three-byte buffer. The contract names the result and states that at
/// most three bytes come back, the size of the buffer the call writes into.
#[verifier::external_body]
pub(crate) fn decode_quartet(quartet: &[u8]) -> (r: Result<Vec<u8>, String>)
    ensures
        match r {
            Ok(v) => base64_quartet_spec(quartet@) == Ok::<Seq<u8>, Seq<char>>(v@) && v@.len() <= 3,
            Err(e) => base64_quartet_spec(quartet@) == Err::<Seq<u8>, Seq<char>>(e@),
        },
{
    let mut decoded = [0u8; 3];
    match base64::engine::general_purpose::STANDARD.decode_slice(quartet, &mut decoded) {
        Ok(length) => Ok(decoded[..length].to_vec()),
        Err(error) => Err(error.to_string()),
    }
}

/// `base64::engine::general_purpose::STANDARD.decode`, `None` on error.
#[verifier::external_body]
pub(crate) fn decode_base64(input: &[u8]) -> (r: Option<Vec<u8>>)
    ensures
        match r {
            Some(v) => base64_decode_spec(input@) == Some(v@),
            None => base64_decode_spec(input@) is None,
        },
{
    base64::engine::general_purpose::STANDARD.decode(input).ok()
}

/// `base64::engine::general_purpose::STANDARD.encode`. The engine's decoder
/// accepts what its encoder produces and gives the original bytes back.
#[verifier::external_body]
pub(crate) fn encode_base64(input: &[u8]) -> (r: Vec<u8>)
    ensures
        r@ == base64_encode_spec(input@),
        base64_decode_spec(r@) == Some(input@),
{
    base64::engine::general_purpose::STANDARD.encode(input).into_bytes()
}

/// What `serde_json::from_slice::<String>` gives for a complete JSON string
/// token (quotes included), as UTF-8 bytes; `None` when it is refused.
pub uninterp spec fn json_string_spec(token: Seq<u8>) -> Option<Seq<u8>>;

/// `serde_json::from_slice::<String>` on a JSON string token. Unescaping
/// never lengthens a string, and the two quotes are dropped.
#[verifier::external_body]
pub(crate) fn decode_json_string(token: &[u8]) -> (r: Option<Vec<u8>>)
    ensures
        match r {
            Some(v) => json_string_spec(token@) == Some(v@) && v@.len() + 2 <= token@.len(),
            None => json_string_spec(token@) is None,
        },
{
    serde_json::from_slice::<String>(token).ok().map(String::into_bytes)
}

/// The first event quick-xml reads from one markup token, reduced to what the
/// extractor distinguishes. Element names are raw bytes.
pub enum Markup {
    Start(Vec<u8>),
    End(Vec<u8>),
    Empty(Vec<u8>),
    Comment,
    Decl,
    PI,
    DocType,
    Other,
}

/// The model of [`Markup`], with names as byte sequences.
pub ghost enum MarkupModel {
    Start(Seq<u8>),
    End(Seq<u8>),
    Empty(Seq<u8>),
    Comment,
    Decl,
    PI,
    DocType,
    Other,
}

impl View for Markup {
    type V = MarkupModel;

    open spec fn view(&self) -> MarkupModel {
        match self {
            Markup::Start(n) => MarkupModel::Start(n@),
            Markup::End(n) => MarkupModel::End(n@),
            Markup::Empty(n) => MarkupModel::Empty(n@),
            Markup::Comment => MarkupModel::Comment,
            Markup::Decl => MarkupModel::Decl,
            Markup::PI => MarkupModel::PI,
            Markup::DocType => MarkupModel::DocType,
            Markup::Other => MarkupModel::Other,
        }
    }
}

/// What quick-xml reads first from `token` with unmatched end tags allowed;
/// `None` when it reports an error.
pub uninterp spec fn xml_markup_spec(token: Seq<u8>) -> Option<MarkupModel>;

/// `quick_xml::Reader::read_event` on a fresh reader over one markup token,
/// with `allow_unmatched_ends` set; the event is mapped variant for variant.
#[verifier::external_body]
pub(crate) fn read_markup(token: &[u8]) -> (r: Option<Markup>)
    ensures
        match r {
            Some(m) => xml_markup_spec(token@) == Some(m@),
            None => xml_markup_spec(token@) is None,
        },
{
    let mut parser = quick_xml::Reader::from_reader(token);
    parser.config_mut().allow_unmatched_ends = true;
    let event = parser.read_event().ok()?;
    Some(match event {
        Event::Start(tag) => Markup::Start(tag.name().0.into()),
        Event::End(tag) => Markup::End(tag.name().0.into()),
        Event::Empty(tag) => Markup::Empty(tag.name().0.into()),
        Event::Comment(_) => Markup::Comment,
        Event::Decl(_) => Markup::Decl,
        Event::PI(_) => Markup::PI,
        Event::DocType(_) => Markup::DocType,
        _ => Markup::Other,
    })
}

/// What `quick_xml::escape::unescape` gives for an entity reference (its bytes
/// read as UTF-8), as UTF-8 bytes; `None` when either step refuses it.
pub uninterp spec fn xml_unescape_spec(entity: Seq<u8>) -> Option<Seq<u8>>;

/// `std::str::from_utf8` then `quick_xml::escape::unescape` on one entity
/// reference such as `&amp;` or `&#81;`. A reference is never shorter than
/// the UTF-8 text it stands for.
#[verifier::external_body]
pub(crate) fn unescape_entity(entity: &[u8]) -> (r: Option<Vec<u8>>)
    ensures
        match r {
            Some(v) => xml_unescape_spec(entity@) == Some(v@) && v@.len() <= entity@.len(),
            None => xml_unescape_spec(entity@) is None,
        },
{
    let text = std::str::from_utf8(entity).ok()?;
    quick_xml::escape::unescape(text).ok().map(|value| value.into_owned().into_bytes())
}

} // verus!
