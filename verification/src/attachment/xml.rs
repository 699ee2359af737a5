//! The XML-RPC side of attachment extraction: the element placement rules of
//! an XML-RPC response, checked while the document is scanned, and the
//! streaming of every `data` member's value through the base64 decoder.

use vstd::prelude::*;

use super::codec::{read_markup, unescape_entity, xml_markup_spec, xml_unescape_spec, Markup, MarkupModel};
use super::json::{bytes_eq, contains_key, is_ascii_whitespace};
use super::{
    copy_range, lemma_non_ws_push, lemma_ran_chain, lemma_ran_none, lemma_ran_output, non_ws, text_byte,
    Decoder, Reader,
};
use crate::error::{invalid, is_integrity_error, BzrError};
use super::rpc::{
    child_step, doc_run, doc_step, end_step, lemma_doc_run_fail, lemma_doc_run_finish, lemma_doc_run_next, in_data, initial_model, leave_value, markup_step, model_member_name,
    open_step, text_step, value_tag, xml_outcome, DocEnd, DocStep, XmlModel,
};

verus! {

/// The element names that XML-RPC placement rules speak of, the marker for
/// text content, and every other name.
pub enum Tag {
    MethodResponse,
    Params,
    Param,
    Fault,
    Value,
    Member,
    Name,
    Struct,
    Array,
    Data,
    Str,
    Int,
    I4,
    Boolean,
    Double,
    DateTime,
    Base64,
    Text,
    Other(Vec<u8>),
}

/// The model of [`Tag`].
pub ghost enum TagModel {
    MethodResponse,
    Params,
    Param,
    Fault,
    Value,
    Member,
    Name,
    Struct,
    Array,
    Data,
    Str,
    Int,
    I4,
    Boolean,
    Double,
    DateTime,
    Base64,
    Text,
    Other(Seq<u8>),
}

impl View for Tag {
    type V = TagModel;

    open spec fn view(&self) -> TagModel {
        match self {
            Tag::MethodResponse => TagModel::MethodResponse,
            Tag::Params => TagModel::Params,
            Tag::Param => TagModel::Param,
            Tag::Fault => TagModel::Fault,
            Tag::Value => TagModel::Value,
            Tag::Member => TagModel::Member,
            Tag::Name => TagModel::Name,
            Tag::Struct => TagModel::Struct,
            Tag::Array => TagModel::Array,
            Tag::Data => TagModel::Data,
            Tag::Str => TagModel::Str,
            Tag::Int => TagModel::Int,
            Tag::I4 => TagModel::I4,
            Tag::Boolean => TagModel::Boolean,
            Tag::Double => TagModel::Double,
            Tag::DateTime => TagModel::DateTime,
            Tag::Base64 => TagModel::Base64,
            Tag::Text => TagModel::Text,
            Tag::Other(n) => TagModel::Other(n@),
        }
    }
}

/// The tag an element name stands for.
pub open spec fn tag_of(name: Seq<u8>) -> TagModel {
    if name == seq![109u8, 101, 116, 104, 111, 100, 82, 101, 115, 112, 111, 110, 115, 101] {
        TagModel::MethodResponse
    } else if name == seq![112u8, 97, 114, 97, 109, 115] {
        TagModel::Params
    } else if name == seq![112u8, 97, 114, 97, 109] {
        TagModel::Param
    } else if name == seq![102u8, 97, 117, 108, 116] {
        TagModel::Fault
    } else if name == seq![118u8, 97, 108, 117, 101] {
        TagModel::Value
    } else if name == seq![109u8, 101, 109, 98, 101, 114] {
        TagModel::Member
    } else if name == seq![110u8, 97, 109, 101] {
        TagModel::Name
    } else if name == seq![115u8, 116, 114, 117, 99, 116] {
        TagModel::Struct
    } else if name == seq![97u8, 114, 114, 97, 121] {
        TagModel::Array
    } else if name == seq![100u8, 97, 116, 97] {
        TagModel::Data
    } else if name == seq![115u8, 116, 114, 105, 110, 103] {
        TagModel::Str
    } else if name == seq![105u8, 110, 116] {
        TagModel::Int
    } else if name == seq![105u8, 52] {
        TagModel::I4
    } else if name == seq![98u8, 111, 111, 108, 101, 97, 110] {
        TagModel::Boolean
    } else if name == seq![100u8, 111, 117, 98, 108, 101] {
        TagModel::Double
    } else if name == seq![100u8, 97, 116, 101, 84, 105, 109, 101, 46, 105, 115, 111, 56, 54, 48, 49] {
        TagModel::DateTime
    } else if name == seq![98u8, 97, 115, 101, 54, 52] {
        TagModel::Base64
    } else {
        TagModel::Other(name)
    }
}

/// The tag for an element name.
pub fn classify(name: &[u8]) -> (t: Tag)
    ensures
        t@ == tag_of(name@),
{
    if bytes_eq(name, &[109u8, 101, 116, 104, 111, 100, 82, 101, 115, 112, 111, 110, 115, 101]) {
        Tag::MethodResponse
    } else if bytes_eq(name, &[112u8, 97, 114, 97, 109, 115]) {
        Tag::Params
    } else if bytes_eq(name, &[112u8, 97, 114, 97, 109]) {
        Tag::Param
    } else if bytes_eq(name, &[102u8, 97, 117, 108, 116]) {
        Tag::Fault
    } else if bytes_eq(name, &[118u8, 97, 108, 117, 101]) {
        Tag::Value
    } else if bytes_eq(name, &[109u8, 101, 109, 98, 101, 114]) {
        Tag::Member
    } else if bytes_eq(name, &[110u8, 97, 109, 101]) {
        Tag::Name
    } else if bytes_eq(name, &[115u8, 116, 114, 117, 99, 116]) {
        Tag::Struct
    } else if bytes_eq(name, &[97u8, 114, 114, 97, 121]) {
        Tag::Array
    } else if bytes_eq(name, &[100u8, 97, 116, 97]) {
        Tag::Data
    } else if bytes_eq(name, &[115u8, 116, 114, 105, 110, 103]) {
        Tag::Str
    } else if bytes_eq(name, &[105u8, 110, 116]) {
        Tag::Int
    } else if bytes_eq(name, &[105u8, 52]) {
        Tag::I4
    } else if bytes_eq(name, &[98u8, 111, 111, 108, 101, 97, 110]) {
        Tag::Boolean
    } else if bytes_eq(name, &[100u8, 111, 117, 98, 108, 101]) {
        Tag::Double
    } else if bytes_eq(name, &[100u8, 97, 116, 101, 84, 105, 109, 101, 46, 105, 115, 111, 56, 54, 48, 49]) {
        Tag::DateTime
    } else if bytes_eq(name, &[98u8, 97, 115, 101, 54, 52]) {
        Tag::Base64
    } else {
        Tag::Other(slice_to_vec(name))
    }
}

fn slice_to_vec(s: &[u8]) -> (v: Vec<u8>)
    ensures
        v@ == s@,
{
    let mut v: Vec<u8> = Vec::new();
    let mut i: usize = 0;
    while i < s.len()
        invariant
            i <= s@.len(),
            v@ == s@.take(i as int),
        decreases s@.len() - i,
    {
        v.push(s[i]);
        i = i + 1;
        assert(s@.take(i as int) =~= s@.take(i - 1).push(s@[i - 1]));
    }
    assert(s@.take(i as int) =~= s@);
    v
}

} // verus!

verus! {

/// Whether XML-RPC lets an element `name` stand directly inside `parent`.
pub open spec fn child_allowed(parent: TagModel, name: TagModel) -> bool {
    match parent {
        TagModel::MethodResponse => name == TagModel::Params || name == TagModel::Fault,
        TagModel::Params => name == TagModel::Param,
        TagModel::Param => name == TagModel::Value,
        TagModel::Fault => name == TagModel::Value,
        TagModel::Member => name == TagModel::Value || name == TagModel::Name,
        TagModel::Value => name == TagModel::Str || name == TagModel::Int || name == TagModel::I4
            || name == TagModel::Boolean || name == TagModel::Double || name == TagModel::DateTime
            || name == TagModel::Base64 || name == TagModel::Array || name == TagModel::Struct,
        TagModel::Struct => name == TagModel::Member,
        TagModel::Array => name == TagModel::Data,
        TagModel::Data => name == TagModel::Value,
        _ => false,
    }
}

/// Whether text may stand directly inside an element with this tag.
pub open spec fn holds_scalar_text(t: TagModel) -> bool {
    t == TagModel::Name || t == TagModel::Str || t == TagModel::Int || t == TagModel::I4
        || t == TagModel::Boolean || t == TagModel::Double || t == TagModel::DateTime
        || t == TagModel::Base64
}

/// A copy of a tag.
pub fn tag_clone(t: &Tag) -> (r: Tag)
    ensures
        r@ == t@,
{
    match t {
        Tag::MethodResponse => Tag::MethodResponse,
        Tag::Params => Tag::Params,
        Tag::Param => Tag::Param,
        Tag::Fault => Tag::Fault,
        Tag::Value => Tag::Value,
        Tag::Member => Tag::Member,
        Tag::Name => Tag::Name,
        Tag::Struct => Tag::Struct,
        Tag::Array => Tag::Array,
        Tag::Data => Tag::Data,
        Tag::Str => Tag::Str,
        Tag::Int => Tag::Int,
        Tag::I4 => Tag::I4,
        Tag::Boolean => Tag::Boolean,
        Tag::Double => Tag::Double,
        Tag::DateTime => Tag::DateTime,
        Tag::Base64 => Tag::Base64,
        Tag::Text => Tag::Text,
        Tag::Other(n) => Tag::Other(slice_to_vec(n.as_slice())),
    }
}

/// Whether two tags are the same.
pub fn tags_eq(a: &Tag, b: &Tag) -> (r: bool)
    ensures
        r == (a@ == b@),
{
    match (a, b) {
        (Tag::Other(x), Tag::Other(y)) => bytes_eq(x.as_slice(), y.as_slice()),
        (Tag::Other(_), _) => false,
        (_, Tag::Other(_)) => false,
        _ => tag_code(a) == tag_code(b),
    }
}

/// A number for each tag that names no other element.
fn tag_code(t: &Tag) -> (c: u8)
    requires
        !(t is Other),
    ensures
        forall|u: Tag| !(u is Other) && #[trigger] tag_code_spec(&u) == c ==> u@ == t@,
        c == tag_code_spec(t),
{
    match t {
        Tag::MethodResponse => 0,
        Tag::Params => 1,
        Tag::Param => 2,
        Tag::Fault => 3,
        Tag::Value => 4,
        Tag::Member => 5,
        Tag::Name => 6,
        Tag::Struct => 7,
        Tag::Array => 8,
        Tag::Data => 9,
        Tag::Str => 10,
        Tag::Int => 11,
        Tag::I4 => 12,
        Tag::Boolean => 13,
        Tag::Double => 14,
        Tag::DateTime => 15,
        Tag::Base64 => 16,
        Tag::Text => 17,
        Tag::Other(_) => 18,
    }
}

spec fn tag_code_spec(t: &Tag) -> u8 {
    match t {
        Tag::MethodResponse => 0,
        Tag::Params => 1,
        Tag::Param => 2,
        Tag::Fault => 3,
        Tag::Value => 4,
        Tag::Member => 5,
        Tag::Name => 6,
        Tag::Struct => 7,
        Tag::Array => 8,
        Tag::Data => 9,
        Tag::Str => 10,
        Tag::Int => 11,
        Tag::I4 => 12,
        Tag::Boolean => 13,
        Tag::Double => 14,
        Tag::DateTime => 15,
        Tag::Base64 => 16,
        Tag::Text => 17,
        Tag::Other(_) => 18,
    }
}

/// The open elements of the document and what has been seen inside them.
pub struct XmlState {
    /// Open elements, outermost first.
    pub stack: Vec<Tag>,
    /// For each open element, its last child so far.
    pub last_children: Vec<Option<Tag>>,
    /// For each open member: unknown until its name is read, then whether it
    /// names the payload.
    pub members: Vec<Option<bool>>,
    /// For each open struct, the member names read so far.
    pub struct_keys: Vec<Vec<Vec<u8>>>,
    /// Where in the body the text of the open `name` element begins.
    pub name_start: Option<usize>,
    /// Whether the root element has been opened.
    pub root_seen: bool,
}

pub open spec fn opt_tag(t: Option<Tag>) -> Option<TagModel> {
    match t {
        Some(x) => Some(x@),
        None => None,
    }
}

impl XmlState {
    pub open spec fn inv(&self) -> bool {
        &&& self.stack@.len() == self.last_children@.len()
        &&& self.stack@.len() <= 128
    }

    /// The state as values.
    pub open spec fn model(&self) -> XmlModel {
        XmlModel {
            stack: self.stack@.map_values(|t: Tag| t@),
            children: self.last_children@.map_values(|t: Option<Tag>| opt_tag(t)),
            members: self.members@,
            keys: self.struct_keys@.map_values(|ks: Vec<Vec<u8>>| key_views(ks@)),
            name_start: match self.name_start {
                Some(x) => Some(x as int),
                None => None,
            },
            root_seen: self.root_seen,
        }
    }

    pub open spec fn top(&self) -> Option<TagModel> {
        if self.stack@.len() > 0 {
            Some(self.stack@.last()@)
        } else {
            None
        }
    }

    pub open spec fn last_child(&self) -> Option<TagModel> {
        if self.last_children@.len() > 0 {
            opt_tag(self.last_children@.last())
        } else {
            None
        }
    }

    /// A fresh state: nothing open, no root seen.
    pub fn new() -> (s: XmlState)
        ensures
            s.inv(),
            s.stack@.len() == 0,
            s.last_children@.len() == 0,
            s.members@.len() == 0,
            s.struct_keys@.len() == 0,
            s.name_start is None,
            !s.root_seen,
            s.model() == initial_model(),
    {
        let st = XmlState {
            stack: Vec::new(),
            last_children: Vec::new(),
            members: Vec::new(),
            struct_keys: Vec::new(),
            name_start: None,
            root_seen: false,
        };
        assert(st.model() =~= initial_model()) by {
            assert(st.model().stack =~= Seq::<TagModel>::empty());
            assert(st.model().children =~= Seq::<Option<TagModel>>::empty());
            assert(st.model().members =~= Seq::<Option<bool>>::empty());
            assert(st.model().keys =~= Seq::<Seq<Seq<u8>>>::empty());
        }
        st
    }

    /// Checks that `name` may open inside the current element, and records it
    /// as that element's latest child where order matters.
    pub fn validate_child(&mut self, name: &Tag) -> (r: Result<(), BzrError>)
        requires
            old(self).inv(),
        ensures
            final(self).inv(),
            final(self).stack@ == old(self).stack@,
            final(self).members@ == old(self).members@,
            final(self).struct_keys@ == old(self).struct_keys@,
            final(self).name_start == old(self).name_start,
            final(self).root_seen == old(self).root_seen,
            final(self).last_children@.len() == old(self).last_children@.len(),
            r is Ok <==> child_step(old(self).model(), name@) is Some,
            r is Ok ==> final(self).model() == child_step(old(self).model(), name@)->0,
            match old(self).top() {
                None => r is Ok && final(self).last_children@ == old(self).last_children@,
                Some(parent) => if !child_allowed(parent, name@) {
                    is_integrity_error(r, "invalid XML-RPC element placement"@)
                } else if parent == TagModel::Struct || parent == TagModel::Data {
                    r is Ok && final(self).last_children@ == old(self).last_children@
                } else {
                    let prev = old(self).last_child();
                    let pair = parent == TagModel::Member && name@ == TagModel::Value;
                    let follows_name = pair && prev == Some(TagModel::Name);
                    if (prev is Some || pair) && !follows_name {
                        is_integrity_error(r, "duplicate or out-of-order XML-RPC child"@)
                    } else {
                        &&& r is Ok
                        &&& final(self).last_child() == Some(name@)
                        &&& final(self).last_children@.drop_last() == old(self).last_children@.drop_last()
                    }
                },
            },
    {
        let n = self.stack.len();
        if n == 0 {
            return Ok(());
        }
        let parent = &self.stack[n - 1];
        let valid = match parent {
            Tag::MethodResponse => matches!(name, Tag::Params) || matches!(name, Tag::Fault),
            Tag::Params => matches!(name, Tag::Param),
            Tag::Param => matches!(name, Tag::Value),
            Tag::Fault => matches!(name, Tag::Value),
            Tag::Member => matches!(name, Tag::Value) || matches!(name, Tag::Name),
            Tag::Value => matches!(name, Tag::Str) || matches!(name, Tag::Int) || matches!(name, Tag::I4)
                || matches!(name, Tag::Boolean) || matches!(name, Tag::Double) || matches!(
                name,
                Tag::DateTime
            ) || matches!(name, Tag::Base64) || matches!(name, Tag::Array) || matches!(name, Tag::Struct),
            Tag::Struct => matches!(name, Tag::Member),
            Tag::Array => matches!(name, Tag::Data),
            Tag::Data => matches!(name, Tag::Value),
            _ => false,
        };
        if !valid {
            return Err(invalid("invalid XML-RPC element placement"));
        }
        if matches!(parent, Tag::Struct) || matches!(parent, Tag::Data) {
            return Ok(());
        }
        let pair = matches!(parent, Tag::Member) && matches!(name, Tag::Value);
        let prev_is_some = self.last_children[n - 1].is_some();
        let prev_is_name = match &self.last_children[n - 1] {
            Some(Tag::Name) => true,
            _ => false,
        };
        let follows_name = pair && prev_is_name;
        if (prev_is_some || pair) && !follows_name {
            return Err(invalid("duplicate or out-of-order XML-RPC child"));
        }
        let ghost before = self.last_children@;
        let ghost m0 = self.model();
        self.last_children.set(n - 1, Some(tag_clone(name)));
        assert(self.last_children@.drop_last() =~= before.drop_last());
        assert(self.model().children =~= m0.children.drop_last().push(Some(name@)));
        assert(self.model() == child_step(m0, name@)->0);
        Ok(())
    }

    /// Checks that text may stand in the current element; directly inside a
    /// `value` it must be the only content.
    pub fn validate_text(&mut self) -> (r: Result<(), BzrError>)
        requires
            old(self).inv(),
        ensures
            final(self).inv(),
            final(self).stack@ == old(self).stack@,
            final(self).members@ == old(self).members@,
            final(self).struct_keys@ == old(self).struct_keys@,
            final(self).name_start == old(self).name_start,
            final(self).root_seen == old(self).root_seen,
            final(self).last_children@.len() == old(self).last_children@.len(),
            r is Ok <==> text_step(old(self).model()) is Some,
            r is Ok ==> final(self).model() == text_step(old(self).model())->0,
            match old(self).top() {
                Some(TagModel::Value) => match old(self).last_child() {
                    Some(TagModel::Text) => r is Ok && final(self).last_children@
                        == old(self).last_children@,
                    Some(_) => is_integrity_error(r, "mixed XML-RPC value content"@),
                    None => r is Ok && final(self).last_child() == Some(TagModel::Text),
                },
                Some(t) => (r is Ok <==> holds_scalar_text(t)) && (r is Err ==> is_integrity_error(
                    r,
                    "text outside XML-RPC scalar value"@,
                )) && final(self).last_children@ == old(self).last_children@,
                None => is_integrity_error(r, "text outside XML-RPC scalar value"@),
            },
    {
        let n = self.stack.len();
        if n == 0 {
            return Err(invalid("text outside XML-RPC scalar value"));
        }
        match &self.stack[n - 1] {
            Tag::Value => {
                match &self.last_children[n - 1] {
                    Some(Tag::Text) => Ok(()),
                    Some(_) => Err(invalid("mixed XML-RPC value content")),
                    None => {
                        let ghost m0 = self.model();
                        self.last_children.set(n - 1, Some(Tag::Text));
                        assert(self.model().children =~= m0.children.drop_last().push(Some(TagModel::Text)));
                        Ok(())
                    },
                }
            },
            Tag::Name | Tag::Str | Tag::Int | Tag::I4 | Tag::Boolean | Tag::Double | Tag::DateTime
            | Tag::Base64 => Ok(()),
            _ => Err(invalid("text outside XML-RPC scalar value")),
        }
    }

    /// Whether the innermost open element is the `value` of a `data` member.
    pub fn in_data_value(&self) -> (r: bool)
        ensures
            r == (self.members@.len() > 0 && self.members@.last() == Some(true) && self.top()
                == Some(TagModel::Value)),
            r == in_data(self.model()),
    {
        let m = self.members.len();
        let n = self.stack.len();
        m > 0 && self.members[m - 1] == Some(true) && n > 0 && matches!(self.stack[n - 1], Tag::Value)
    }

    /// Closes the innermost element, which must be `name`. Closing a member
    /// name records it in its struct (refusing a repeat) and marks whether the
    /// member is the payload.
    pub fn end(&mut self, name: &Tag, body: &[u8]) -> (r: Result<(), BzrError>)
        requires
            old(self).inv(),
        ensures
            final(self).inv(),
            final(self).root_seen == old(self).root_seen,
            old(self).top() != Some(name@) ==> r is Err,
            r is Ok <==> end_ok(*old(self), name@, body@),
            r is Ok <==> end_step(old(self).model(), name@, body@) is Some,
            final(self).stack@ == if old(self).stack@.len() > 0 {
                old(self).stack@.drop_last()
            } else {
                old(self).stack@
            },
            final(self).last_children@ == if old(self).last_children@.len() > 0 {
                old(self).last_children@.drop_last()
            } else {
                old(self).last_children@
            },
            old(self).top() != Some(name@) ==> is_integrity_error(r, "mismatched attachment XML tag"@),
            old(self).top() == Some(name@) && name@ == TagModel::Name && member_name(*old(self), body@) is None
                ==> is_integrity_error(r, "invalid XML-RPC member name"@),
            old(self).top() == Some(name@) && name@ == TagModel::Name && member_name(*old(self), body@) is Some
                && old(self).struct_keys@.len() > 0 && key_views(old(self).struct_keys@.last()@).contains(
                member_name(*old(self), body@)->0,
            ) ==> is_integrity_error(r, "duplicate XML-RPC member"@),
            r is Ok ==> final(self).model() == end_step(old(self).model(), name@, body@)->0,
            r is Ok ==> final(self).stack@ == old(self).stack@.drop_last(),
            r is Ok ==> old(self).stack@.len() > 0,
            r is Ok ==> final(self).last_children@ == old(self).last_children@.drop_last(),
            r is Ok ==> final(self).name_start == if name@ == TagModel::Name {
                None
            } else {
                old(self).name_start
            },
            r is Ok ==> final(self).members@ == if name@ == TagModel::Member && old(self).members@.len() > 0 {
                old(self).members@.drop_last()
            } else if name@ == TagModel::Name && old(self).members@.len() > 0 {
                old(self).members@.drop_last().push(Some(member_name(*old(self), body@) == Some(data_name())))
            } else {
                old(self).members@
            },
            r is Ok && name@ == TagModel::Struct && old(self).struct_keys@.len() > 0 ==> final(self).struct_keys@
                == old(self).struct_keys@.drop_last(),
            r is Ok && name@ == TagModel::Name && old(self).struct_keys@.len() > 0 ==> {
                &&& final(self).struct_keys@.len() == old(self).struct_keys@.len()
                &&& final(self).struct_keys@.drop_last() == old(self).struct_keys@.drop_last()
                &&& key_views(final(self).struct_keys@.last()@) == key_views(old(self).struct_keys@.last()@).push(
                    member_name(*old(self), body@)->0,
                )
            },
            r is Ok && !(name@ == TagModel::Struct) && !(name@ == TagModel::Name && old(self).struct_keys@.len()
                > 0) ==> final(self).struct_keys@ == old(self).struct_keys@,
    {
        let ghost old_stack = self.stack@;
        let ghost old_state = *self;
        let ghost m0 = self.model();
        proof {
            lemma_model_member_name(old_state, body@);
            if m0.stack.len() > 0 {
                assert(m0.stack.last() == old_stack.last()@);
            }
            if old_state.struct_keys@.len() > 0 {
                assert(m0.keys.last() == key_views(old_state.struct_keys@.last()@));
            }
        }
        self.last_children.pop();
        let popped = self.stack.pop();
        let matched = match &popped {
            Some(t) => tags_eq(t, name),
            None => false,
        };
        if !matched {
            return Err(invalid("mismatched attachment XML tag"));
        }
        assert(self.stack@ == old_stack.drop_last());
        if matches!(name, Tag::Name) {
            let start = match self.name_start {
                Some(s) => s,
                None => return Err(invalid("invalid XML-RPC member name")),
            };
            self.name_start = None;
            if start > body.len() {
                return Err(invalid("invalid XML-RPC member name"));
            }
            let fragment = copy_range(&slice_to_vec(body), start, body.len());
            let field = match xml_text(fragment.as_slice()) {
                Ok(f) => f,
                Err(e) => return Err(e),
            };
            assert(member_name(old_state, body@) == Some(field@));
            let is_data = bytes_eq(field.as_slice(), &[100u8, 97, 116, 97]);
            proof {
                assert([100u8, 97, 116, 97]@ =~= data_name());
            }
            match self.struct_keys.pop() {
                Some(mut keys) => {
                    let ghost kv = keys@;
                    if contains_key(&keys, field.as_slice()) {
                        proof {
                            let i = choose|i: int| 0 <= i < keys@.len() && #[trigger] keys@[i]@ == field@;
                            assert(key_views(kv)[i] == field@);
                        }
                        return Err(invalid("duplicate XML-RPC member"));
                    }
                    proof {
                        assert(!key_views(kv).contains(field@)) by {
                            if key_views(kv).contains(field@) {
                                let i = choose|i: int| 0 <= i < key_views(kv).len() && key_views(kv)[i] == field@;
                                assert(keys@[i]@ == field@);
                            }
                        }
                    }
                    let ghost fv = field@;
                    keys.push(field);
                    assert(key_views(keys@) =~= key_views(kv).push(fv));
                    self.struct_keys.push(keys);
                },
                None => {},
            }
            match self.members.pop() {
                Some(_) => {
                    self.members.push(Some(is_data));
                },
                None => {},
            }
        }
        if matches!(name, Tag::Struct) {
            self.struct_keys.pop();
        }
        if matches!(name, Tag::Member) {
            self.members.pop();
        }
        proof {
            let m1 = end_step(m0, name@, body@)->0;
            assert(self.model().stack =~= m1.stack);
            assert(self.model().children =~= m1.children);
            assert(self.model().members =~= m1.members);
            assert(self.model().keys =~= m1.keys);
        }
        Ok(())
    }
}

/// The bytes "data", the name of the payload member.
pub open spec fn data_name() -> Seq<u8> {
    seq![100u8, 97, 116, 97]
}

/// The member names of a struct, as bytes.
pub open spec fn key_views(keys: Seq<Vec<u8>>) -> Seq<Seq<u8>> {
    keys.map_values(|k: Vec<u8>| k@)
}

/// The name that the open `name` element holds, once the body has been read
/// up to its closing tag: its text from where it began, trimmed.
pub open spec fn member_name(st: XmlState, body: Seq<u8>) -> Option<Seq<u8>> {
    match st.name_start {
        Some(start) => if start <= body.len() {
            match raw_text(body.subrange(start as int, body.len() as int), 0) {
                Some(t) => Some(trim_xml_ws(t)),
                None => None,
            }
        } else {
            None
        },
        None => None,
    }
}

/// The member name a state holds is the one its model holds.
pub proof fn lemma_model_member_name(st: XmlState, body: Seq<u8>)
    ensures
        member_name(st, body) == model_member_name(st.model(), body),
        member_name(st, body) is Some ==> member_name(st, body)->0 == model_member_name(st.model(), body)->0,
{
}

/// Whether closing `name` succeeds: it is the innermost open element, and a
/// member name has text that its struct has not seen yet.
pub open spec fn end_ok(st: XmlState, name: TagModel, body: Seq<u8>) -> bool {
    &&& st.top() == Some(name)
    &&& name == TagModel::Name ==> match member_name(st, body) {
        Some(f) => !(st.struct_keys@.len() > 0 && key_views(st.struct_keys@.last()@).contains(f)),
        None => false,
    }
}


/// Whether a byte is XML white space: a space, tab, line feed or carriage
/// return.
pub open spec fn is_xml_ws(b: u8) -> bool {
    b == 32 || b == 9 || b == 10 || b == 13
}

pub open spec fn trim_ws_start(s: Seq<u8>) -> Seq<u8>
    decreases s.len(),
{
    if s.len() > 0 && is_xml_ws(s[0]) {
        trim_ws_start(s.drop_first())
    } else {
        s
    }
}

pub open spec fn trim_ws_end(s: Seq<u8>) -> Seq<u8>
    decreases s.len(),
{
    if s.len() > 0 && is_xml_ws(s.last()) {
        trim_ws_end(s.drop_last())
    } else {
        s
    }
}

/// `s` without the XML white space around it.
pub open spec fn trim_xml_ws(s: Seq<u8>) -> Seq<u8> {
    trim_ws_end(trim_ws_start(s))
}

/// `bytes` without the XML white space around it.
pub fn trim_xml_whitespace(bytes: &Vec<u8>) -> (r: Vec<u8>)
    ensures
        r@ == trim_xml_ws(bytes@),
{
    let n = bytes.len();
    let mut a: usize = 0;
    assert(bytes@.subrange(0, n as int) =~= bytes@);
    while a < n && (bytes[a] == 32u8 || bytes[a] == 9u8 || bytes[a] == 10u8 || bytes[a] == 13u8)
        invariant
            a <= n == bytes@.len(),
            trim_ws_start(bytes@) == trim_ws_start(bytes@.subrange(a as int, n as int)),
        decreases n - a,
    {
        assert(bytes@.subrange(a as int, n as int).drop_first() =~= bytes@.subrange(a + 1, n as int));
        a = a + 1;
    }
    assert(trim_ws_start(bytes@.subrange(a as int, n as int)) == bytes@.subrange(a as int, n as int));
    let mut b = n;
    while b > a && (bytes[b - 1] == 32u8 || bytes[b - 1] == 9u8 || bytes[b - 1] == 10u8 || bytes[b - 1] == 13u8)
        invariant
            a <= b <= n == bytes@.len(),
            trim_ws_end(bytes@.subrange(a as int, n as int)) == trim_ws_end(bytes@.subrange(a as int, b as int)),
        decreases b - a,
    {
        assert(bytes@.subrange(a as int, b as int).drop_last() =~= bytes@.subrange(a as int, b - 1));
        b = b - 1;
    }
    assert(trim_ws_end(bytes@.subrange(a as int, b as int)) == bytes@.subrange(a as int, b as int));
    copy_range(bytes, a, b)
}

/// Whether `pat` stands in `f` at `j`.
pub open spec fn occurs_at(f: Seq<u8>, j: int, pat: Seq<u8>) -> bool {
    0 <= j && j + pat.len() <= f.len() && f.subrange(j, j + pat.len()) == pat
}

/// The first position from `j` on where `pat` stands in `f`.
pub open spec fn find_pattern(f: Seq<u8>, j: int, pat: Seq<u8>) -> Option<int>
    decreases f.len() - j,
{
    if j < 0 || j >= f.len() {
        None
    } else if occurs_at(f, j, pat) {
        Some(j)
    } else {
        find_pattern(f, j + 1, pat)
    }
}

/// The first `;` from `j` on.
pub open spec fn semicolon_from(f: Seq<u8>, j: int) -> Option<int>
    decreases f.len() - j,
{
    if j < 0 || j >= f.len() {
        None
    } else if f[j] == 59u8 {
        Some(j)
    } else {
        semicolon_from(f, j + 1)
    }
}

/// `a` put in front of a text, when there is one.
pub open spec fn text_prepend(a: Seq<u8>, rest: Option<Seq<u8>>) -> Option<Seq<u8>> {
    match rest {
        Some(t) => Some(a + t),
        None => None,
    }
}

/// The text of a member name fragment from `i` on, up to its closing tag:
/// character data as it stands, entity references unescaped, the content of
/// CDATA sections, comments left out; none for other markup, an unclosed
/// section or comment, or an entity reference without `;` or that does not
/// unescape. The end of the fragment ends the text.
pub open spec fn raw_text(f: Seq<u8>, i: int) -> Option<Seq<u8>>
    decreases f.len() - i,
{
    if i < 0 || i >= f.len() {
        Some(Seq::empty())
    } else if f[i] == 60u8 {
        if occurs_at(f, i, cdata_open()) {
            match find_pattern(f, i + 9, seq![93u8, 93, 62]) {
                None => None,
                Some(j) => if j < i + 9 || j + 3 > f.len() {
                    None
                } else {
                    text_prepend(f.subrange(i + 9, j), raw_text(f, j + 3))
                },
            }
        } else if occurs_at(f, i, seq![60u8, 33, 45, 45]) {
            match find_pattern(f, i + 4, seq![45u8, 45, 62]) {
                None => None,
                Some(j) => if j < i + 4 || j + 3 > f.len() {
                    None
                } else {
                    raw_text(f, j + 3)
                },
            }
        } else if occurs_at(f, i, seq![60u8, 47]) {
            Some(Seq::empty())
        } else {
            None
        }
    } else if f[i] == 38u8 {
        match semicolon_from(f, i + 1) {
            None => None,
            Some(j) => if j <= i || j >= f.len() {
                None
            } else {
                match xml_unescape_spec(f.subrange(i, j + 1)) {
                    Some(v) => text_prepend(v, raw_text(f, j + 1)),
                    None => None,
                }
            },
        }
    } else {
        text_prepend(seq![f[i]], raw_text(f, i + 1))
    }
}

pub proof fn lemma_text_prepend_assoc(a: Seq<u8>, b: Seq<u8>, rest: Option<Seq<u8>>)
    ensures
        text_prepend(a, text_prepend(b, rest)) == text_prepend(a + b, rest),
{
    if let Some(t) = rest {
        assert(a + (b + t) =~= (a + b) + t);
    }
}

/// The text content of a member name: character data, entity references
/// (unescaped), and CDATA sections, up to the closing tag, comments skipped,
/// with the white space around it trimmed.
pub fn xml_text(fragment: &[u8]) -> (r: Result<Vec<u8>, BzrError>)
    ensures
        match raw_text(fragment@, 0) {
            Some(t) => r matches Ok(v) && v@ == trim_xml_ws(t),
            None => is_integrity_error(r, "invalid XML-RPC member name"@),
        },
{
    match xml_raw_text(fragment) {
        Ok(t) => Ok(trim_xml_whitespace(&t)),
        Err(e) => Err(e),
    }
}

fn xml_raw_text(fragment: &[u8]) -> (r: Result<Vec<u8>, BzrError>)
    ensures
        match raw_text(fragment@, 0) {
            Some(t) => r matches Ok(v) && v@ == t,
            None => is_integrity_error(r, "invalid XML-RPC member name"@),
        },
{
    let ghost f = fragment@;
    let mut out: Vec<u8> = Vec::new();
    let mut i: usize = 0;
    let n = fragment.len();
    proof {
        if let Some(t) = raw_text(f, 0) {
            assert(Seq::<u8>::empty() + t =~= t);
        }
    }
    while i < n
        invariant
            i <= n == fragment@.len(),
            f == fragment@,
            raw_text(f, 0) == text_prepend(out@, raw_text(f, i as int)),
        decreases n - i,
    {
        let b = fragment[i];
        let ghost out_i = out@;
        if b == 60u8 {
            if starts_at(fragment, i, &[60u8, 33, 91, 67, 68, 65, 84, 65, 91]) {
                proof {
                    assert([60u8, 33, 91, 67, 68, 65, 84, 65, 91]@ =~= cdata_open());
                }
                let mut j = i + 9;
                while j < n && !starts_at(fragment, j, &[93u8, 93, 62])
                    invariant
                        i + 9 <= j <= n,
                        n == fragment@.len(),
                        f == fragment@,
                        i < n,
                        fragment@[i as int] == 60u8,
                        out@ == out_i + f.subrange(i + 9, j as int),
                        find_pattern(f, i + 9, seq![93u8, 93, 62]) == find_pattern(f, j as int, seq![93u8, 93, 62]),
                    decreases n - j,
                {
                    proof {
                        assert([93u8, 93, 62]@ =~= seq![93u8, 93, 62]);
                    }
                    out.push(fragment[j]);
                    j = j + 1;
                    assert(f.subrange(i + 9, j as int) =~= f.subrange(i + 9, j - 1).push(f[j - 1]));
                }
                if j >= n {
                    return Err(invalid("invalid XML-RPC member name"));
                }
                proof {
                    assert([93u8, 93, 62]@ =~= seq![93u8, 93, 62]);
                    lemma_text_prepend_assoc(out_i, f.subrange(i + 9, j as int), raw_text(f, j + 3));
                }
                i = j + 3;
            } else if starts_at(fragment, i, &[60u8, 33, 45, 45]) {
                proof {
                    assert([60u8, 33, 91, 67, 68, 65, 84, 65, 91]@ =~= cdata_open());
                    assert([60u8, 33, 45, 45]@ =~= seq![60u8, 33, 45, 45]);
                }
                let mut j = i + 4;
                while j < n && !starts_at(fragment, j, &[45u8, 45, 62])
                    invariant
                        i + 4 <= j <= n,
                        n == fragment@.len(),
                        f == fragment@,
                        find_pattern(f, i + 4, seq![45u8, 45, 62]) == find_pattern(f, j as int, seq![45u8, 45, 62]),
                    decreases n - j,
                {
                    proof {
                        assert([45u8, 45, 62]@ =~= seq![45u8, 45, 62]);
                    }
                    j = j + 1;
                }
                if j >= n {
                    return Err(invalid("invalid XML-RPC member name"));
                }
                proof {
                    assert([45u8, 45, 62]@ =~= seq![45u8, 45, 62]);
                }
                i = j + 3;
            } else if starts_at(fragment, i, &[60u8, 47]) {
                proof {
                    assert([60u8, 33, 91, 67, 68, 65, 84, 65, 91]@ =~= cdata_open());
                    assert([60u8, 33, 45, 45]@ =~= seq![60u8, 33, 45, 45]);
                    assert([60u8, 47]@ =~= seq![60u8, 47]);
                    assert(out@ + Seq::<u8>::empty() =~= out@);
                }
                return Ok(out);
            } else {
                proof {
                    assert([60u8, 33, 91, 67, 68, 65, 84, 65, 91]@ =~= cdata_open());
                    assert([60u8, 33, 45, 45]@ =~= seq![60u8, 33, 45, 45]);
                    assert([60u8, 47]@ =~= seq![60u8, 47]);
                }
                return Err(invalid("invalid XML-RPC member name"));
            }
        } else if b == 38u8 {
            let mut j = i + 1;
            while j < n && fragment[j] != 59u8
                invariant
                    i < j <= n,
                    n == fragment@.len(),
                    f == fragment@,
                    semicolon_from(f, i + 1) == semicolon_from(f, j as int),
                decreases n - j,
            {
                j = j + 1;
            }
            if j >= n {
                return Err(invalid("invalid XML-RPC member name"));
            }
            let entity = copy_range(&slice_to_vec(fragment), i, j + 1);
            match unescape_entity(entity.as_slice()) {
                Some(v) => {
                    let mut k: usize = 0;
                    while k < v.len()
                        invariant
                            k <= v@.len(),
                            out@ == out_i + v@.take(k as int),
                        decreases v@.len() - k,
                    {
                        out.push(v[k]);
                        k = k + 1;
                        assert(v@.take(k as int) =~= v@.take(k - 1).push(v@[k - 1]));
                    }
                    proof {
                        assert(v@.take(k as int) =~= v@);
                        lemma_text_prepend_assoc(out_i, v@, raw_text(f, j + 1));
                    }
                },
                None => return Err(invalid("invalid XML-RPC member name")),
            }
            i = j + 1;
        } else {
            out.push(b);
            proof {
                lemma_text_prepend_assoc(out_i, seq![b], raw_text(f, i + 1));
                assert(out_i + seq![b] =~= out@);
            }
            i = i + 1;
        }
    }
    proof {
        assert(out@ + Seq::<u8>::empty() =~= out@);
    }
    Ok(out)
}

/// Whether `pattern` occurs in `bytes` at `at`.
pub fn starts_at(bytes: &[u8], at: usize, pattern: &[u8]) -> (r: bool)
    ensures
        r == (at + pattern@.len() <= bytes@.len() && bytes@.subrange(at as int, at + pattern@.len())
            == pattern@),
{
    if at > bytes.len() || pattern.len() > bytes.len() - at {
        return false;
    }
    let blen = bytes.len();
    let mut k: usize = 0;
    while k < pattern.len()
        invariant
            k <= pattern@.len(),
            blen == bytes@.len(),
            at + pattern@.len() <= bytes@.len(),
            forall|j: int| 0 <= j < k ==> bytes@[at + j] == pattern@[j],
        decreases pattern@.len() - k,
    {
        assert(at + k < blen);
        if bytes[at + k] != pattern[k] {
            assert(bytes@.subrange(at as int, at + pattern@.len())[k as int] != pattern@[k as int]);
            return false;
        }
        k = k + 1;
    }
    assert(bytes@.subrange(at as int, at + pattern@.len()) =~= pattern@);
    true
}

} // verus!

verus! {

/// The bytes that open a CDATA section.
pub open spec fn cdata_open() -> Seq<u8> {
    seq![60u8, 33, 91, 67, 68, 65, 84, 65, 91]
}

/// Whether `s` ends with `suffix`.
pub open spec fn ends_with(s: Seq<u8>, suffix: Seq<u8>) -> bool {
    suffix.len() <= s.len() && s.subrange(s.len() - suffix.len(), s.len() as int) == suffix
}

/// Where the markup token that begins at `p` ends, read up to its byte at `i`
/// with `quote` open: the opening of a CDATA section, a whole comment or
/// processing instruction, or up to the `>` outside quotes; none once the
/// token outgrows `limit` or the input ends.
pub open spec fn markup_from(s: Seq<u8>, p: int, i: int, quote: Option<u8>, limit: u64) -> Option<int>
    decreases s.len() - i,
{
    if i < p + 1 || i >= s.len() {
        None
    } else {
        let b = s[i];
        let t = s.subrange(p, i + 1);
        if t.len() > limit {
            None
        } else if t == cdata_open() {
            Some(i + 1)
        } else if t.len() >= 4 && t.take(4) == seq![60u8, 33, 45, 45] {
            if ends_with(t, seq![45u8, 45, 62]) {
                Some(i + 1)
            } else {
                markup_from(s, p, i + 1, quote, limit)
            }
        } else if t.len() >= 2 && t.take(2) == seq![60u8, 63] {
            if ends_with(t, seq![63u8, 62]) {
                Some(i + 1)
            } else {
                markup_from(s, p, i + 1, quote, limit)
            }
        } else if quote == Some(b) {
            markup_from(s, p, i + 1, None, limit)
        } else if quote is None && (b == 39u8 || b == 34u8) {
            markup_from(s, p, i + 1, Some(b), limit)
        } else if quote is None && b == 62u8 {
            Some(i + 1)
        } else {
            markup_from(s, p, i + 1, quote, limit)
        }
    }
}

/// A markup token ends past the byte it is read up to.
pub proof fn lemma_markup_from_after(s: Seq<u8>, p: int, i: int, quote: Option<u8>, limit: u64)
    ensures
        markup_from(s, p, i, quote, limit) matches Some(e) ==> e > i,
    decreases s.len() - i,
{
    if p + 1 <= i < s.len() {
        lemma_markup_from_after(s, p, i + 1, quote, limit);
        lemma_markup_from_after(s, p, i + 1, None, limit);
        lemma_markup_from_after(s, p, i + 1, Some(s[i]), limit);
    }
}

/// Where the markup token that begins at `p` ends.
pub open spec fn markup_end(s: Seq<u8>, p: int, limit: u64) -> Option<int> {
    if 0 <= p < s.len() {
        markup_from(s, p, p + 1, None, limit)
    } else {
        None
    }
}

/// Where the CDATA section whose content begins at `p` ends (past its
/// `]]>`), its content read up to `x`.
pub open spec fn cdata_close(s: Seq<u8>, p: int, x: int) -> Option<int>
    decreases s.len() - x,
{
    if x < p || x >= s.len() {
        None
    } else if x >= p + 2 && s[x - 2] == 93u8 && s[x - 1] == 93u8 && s[x] == 62u8 {
        Some(x + 1)
    } else {
        cdata_close(s, p, x + 1)
    }
}

/// A CDATA section ends past the byte it is read up to.
pub proof fn lemma_cdata_close_after(s: Seq<u8>, p: int, x: int)
    ensures
        cdata_close(s, p, x) matches Some(c) ==> c > x,
    decreases s.len() - x,
{
    if p <= x < s.len() {
        lemma_cdata_close_after(s, p, x + 1);
    }
}

/// Where the CDATA section whose content begins at `p` ends.
pub open spec fn cdata_end(s: Seq<u8>, p: int) -> Option<int> {
    cdata_close(s, p, p)
}

/// Where the entity reference that begins at `p` ends (past its `;`), read
/// up to its byte at `x`: none past 32 bytes.
pub open spec fn entity_close(s: Seq<u8>, p: int, x: int) -> Option<int>
    decreases s.len() - x,
{
    if x < p || x >= s.len() {
        None
    } else if s[x] == 59u8 {
        Some(x + 1)
    } else if x - p + 1 >= 32 {
        None
    } else {
        entity_close(s, p, x + 1)
    }
}

/// Where the entity reference that begins at `p` ends.
pub open spec fn entity_end(s: Seq<u8>, p: int) -> Option<int> {
    if 0 <= p {
        entity_close(s, p, p)
    } else {
        None
    }
}

/// The text bytes the entity reference `s[p..e]` gives the decoder.
pub open spec fn entity_text(s: Seq<u8>, p: int, e: int) -> Seq<u8> {
    match xml_unescape_spec(s.subrange(p, e)) {
        Some(v) => non_ws(v),
        None => Seq::empty(),
    }
}

/// `fed` put in front of the text of a payload's remainder.
pub open spec fn prepend(fed: Seq<u8>, rest: Option<(int, Seq<u8>)>) -> Option<(int, Seq<u8>)> {
    match rest {
        Some((end, f)) => Some((end, fed + f)),
        None => None,
    }
}

pub proof fn lemma_prepend_empty(rest: Option<(int, Seq<u8>)>)
    ensures
        prepend(Seq::empty(), rest) == rest,
{
    if let Some((end, f)) = rest {
        assert(Seq::<u8>::empty() + f =~= f);
    }
}

pub proof fn lemma_prepend_assoc(a: Seq<u8>, b: Seq<u8>, rest: Option<(int, Seq<u8>)>)
    ensures
        prepend(a, prepend(b, rest)) == prepend(a + b, rest),
{
    if let Some((end, f)) = rest {
        assert(a + (b + f) =~= (a + b) + f);
    }
}

/// Where the content of a payload element that goes on at `x` ends (past the
/// closing tag `closing`), and the text it gives the decoder: text bytes and
/// unescaped entity references without their whitespace, the content of
/// CDATA sections likewise; comments give nothing; other markup, or the end
/// of the input, ends it without a result.
pub open spec fn xml_feed(s: Seq<u8>, x: int, closing: Seq<u8>, limit: u64) -> Option<(int, Seq<u8>)>
    decreases s.len() - x,
{
    if x < 0 || x >= s.len() {
        None
    } else if s[x] == 60u8 {
        match markup_end(s, x, limit) {
            None => None,
            Some(e) => if e <= x || e > s.len() {
                None
            } else if s.subrange(x, e) == cdata_open() {
                match cdata_end(s, e) {
                    None => None,
                    Some(c) => if c < e + 3 || c > s.len() {
                        None
                    } else {
                        prepend(non_ws(s.subrange(e, c - 3)), xml_feed(s, c, closing, limit))
                    },
                }
            } else {
                match xml_markup_spec(s.subrange(x, e)) {
                    Some(MarkupModel::End(n)) => if n == closing {
                        Some((e, Seq::empty()))
                    } else {
                        None
                    },
                    Some(MarkupModel::Comment) => xml_feed(s, e, closing, limit),
                    _ => None,
                }
            },
        }
    } else if s[x] == 38u8 {
        match entity_end(s, x) {
            None => None,
            Some(e) => if e <= x || e > s.len() || xml_unescape_spec(s.subrange(x, e)) is None {
                None
            } else {
                prepend(entity_text(s, x, e), xml_feed(s, e, closing, limit))
            },
        }
    } else {
        prepend(text_byte(s[x]), xml_feed(s, x + 1, closing, limit))
    }
}

/// Where the content of the payload element that begins at `p` ends, and the
/// text it gives the decoder, when it opens with the content of a CDATA
/// section (`starts_cdata`) or not.
pub open spec fn xml_payload_feed(s: Seq<u8>, p: int, closing: Seq<u8>, starts_cdata: bool, limit: u64)
    -> Option<(int, Seq<u8>)>
{
    if starts_cdata {
        match cdata_end(s, p) {
            None => None,
            Some(c) => if c < p + 3 || c > s.len() {
                None
            } else {
                prepend(non_ws(s.subrange(p, c - 3)), xml_feed(s, c, closing, limit))
            },
        }
    } else {
        xml_feed(s, p, closing, limit)
    }
}

/// What the content of a payload element that goes on at `x` leaves in the
/// retained body: its comments, in order, and its closing tag. Meaningful
/// where `xml_feed` gives a result.
pub open spec fn xml_kept(s: Seq<u8>, x: int, closing: Seq<u8>, limit: u64) -> (Seq<u8>, Seq<u8>)
    decreases s.len() - x,
{
    if x < 0 || x >= s.len() {
        (Seq::empty(), Seq::empty())
    } else if s[x] == 60u8 {
        match markup_end(s, x, limit) {
            None => (Seq::empty(), Seq::empty()),
            Some(e) => if e <= x || e > s.len() {
                (Seq::empty(), Seq::empty())
            } else if s.subrange(x, e) == cdata_open() {
                match cdata_end(s, e) {
                    None => (Seq::empty(), Seq::empty()),
                    Some(c) => if c < e + 3 || c > s.len() {
                        (Seq::empty(), Seq::empty())
                    } else {
                        xml_kept(s, c, closing, limit)
                    },
                }
            } else {
                match xml_markup_spec(s.subrange(x, e)) {
                    Some(MarkupModel::Comment) => {
                        let rest = xml_kept(s, e, closing, limit);
                        (s.subrange(x, e) + rest.0, rest.1)
                    },
                    _ => (Seq::empty(), s.subrange(x, e)),
                }
            },
        }
    } else if s[x] == 38u8 {
        match entity_end(s, x) {
            None => (Seq::empty(), Seq::empty()),
            Some(e) => if e <= x || e > s.len() {
                (Seq::empty(), Seq::empty())
            } else {
                xml_kept(s, e, closing, limit)
            },
        }
    } else {
        xml_kept(s, x + 1, closing, limit)
    }
}

/// What the payload element content that begins at `p` leaves in the
/// retained body: its comments and its closing tag.
pub open spec fn xml_payload_kept(s: Seq<u8>, p: int, closing: Seq<u8>, starts_cdata: bool, limit: u64) -> (
    Seq<u8>,
    Seq<u8>,
) {
    if starts_cdata {
        match cdata_end(s, p) {
            None => (Seq::empty(), Seq::empty()),
            Some(c) => xml_kept(s, c, closing, limit),
        }
    } else {
        xml_kept(s, p, closing, limit)
    }
}

/// The span of the payload element content that begins at `p`: it lies
/// within `out`, holds what the text decodes to, and records its error.
pub open spec fn xml_payload_span(
    s: Seq<u8>,
    out: Seq<u8>,
    span: super::Span,
    p: int,
    closing: Seq<u8>,
    starts_cdata: bool,
    limit: u64,
) -> bool {
    match xml_payload_feed(s, p, closing, starts_cdata, limit) {
        Some((end, f)) => {
            let (q, pd, e, o) = super::decode_run(Seq::empty(), false, None, f);
            &&& span.offset + span.length <= out.len()
            &&& out.subrange(span.offset as int, span.offset + span.length) == o
            &&& super::opt_text(span.error) == super::json::payload_error(q, e)
        },
        None => false,
    }
}

/// What one span of an XML document stands for: the content of a payload
/// element from its start (with its closing tag's name, and whether it opens
/// with the content of a CDATA section), or an empty payload element.
pub type XmlPayload = (int, Seq<u8>, bool, bool);

/// The span of one payload of an XML document within output `out`.
pub open spec fn xml_span(s: Seq<u8>, out: Seq<u8>, span: super::Span, d: XmlPayload, limit: u64) -> bool {
    if d.3 {
        &&& span.length == 0
        &&& span.error is None
        &&& span.offset <= out.len()
    } else {
        xml_payload_span(s, out, span, d.0, d.1, d.2, limit)
    }
}

/// From output `out0` and spans `spans0` to `out` and `spans`: both only
/// grew, and the new spans are those of the payloads `payloads`, in order.
pub open spec fn xml_payloads_decoded(
    s: Seq<u8>,
    limit: u64,
    out0: Seq<u8>,
    spans0: Seq<super::Span>,
    out: Seq<u8>,
    spans: Seq<super::Span>,
    payloads: Seq<XmlPayload>,
) -> bool {
    &&& spans.len() == spans0.len() + payloads.len()
    &&& spans.take(spans0.len() as int) == spans0
    &&& out0.len() <= out.len()
    &&& out.take(out0.len() as int) == out0
    &&& forall|k: int|
        0 <= k < payloads.len() ==> #[trigger] xml_span(s, out, spans[spans0.len() + k], payloads[k], limit)
}

/// A span that lies within `out1` keeps its bytes when `out1` grows.
pub proof fn lemma_xml_span_grow(s: Seq<u8>, out1: Seq<u8>, out2: Seq<u8>, span: super::Span, d: XmlPayload, limit: u64)
    requires
        xml_span(s, out1, span, d, limit),
        out1.len() <= out2.len(),
        out2.take(out1.len() as int) == out1,
    ensures
        xml_span(s, out2, span, d, limit),
{
    if !d.3 {
        assert(span.offset + span.length <= out1.len());
        assert(out2.subrange(span.offset as int, span.offset + span.length) =~= out1.subrange(
            span.offset as int,
            span.offset + span.length,
        )) by {
            assert forall|i: int| span.offset <= i < span.offset + span.length implies out2[i] == out1[i] by {
                assert(out2.take(out1.len() as int)[i] == out1[i]);
            }
        }
    }
}

pub proof fn lemma_xml_payloads_none(s: Seq<u8>, limit: u64, out: Seq<u8>, spans: Seq<super::Span>)
    ensures
        xml_payloads_decoded(s, limit, out, spans, out, spans, Seq::empty()),
{
    assert(spans.take(spans.len() as int) =~= spans);
    assert(out.take(out.len() as int) =~= out);
}

/// Two runs of decoding, one after the other, are one run.
pub proof fn lemma_xml_payloads_chain(
    s: Seq<u8>,
    limit: u64,
    out0: Seq<u8>,
    spans0: Seq<super::Span>,
    out1: Seq<u8>,
    spans1: Seq<super::Span>,
    out2: Seq<u8>,
    spans2: Seq<super::Span>,
    a: Seq<XmlPayload>,
    b: Seq<XmlPayload>,
)
    requires
        xml_payloads_decoded(s, limit, out0, spans0, out1, spans1, a),
        xml_payloads_decoded(s, limit, out1, spans1, out2, spans2, b),
    ensures
        xml_payloads_decoded(s, limit, out0, spans0, out2, spans2, a + b),
{
    let n0 = spans0.len() as int;
    let n1 = spans1.len() as int;
    assert(spans2.take(n0) =~= spans0) by {
        assert forall|i: int| 0 <= i < n0 implies spans2[i] == spans0[i] by {
            assert(spans2.take(n1)[i] == spans1[i]);
            assert(spans1.take(n0)[i] == spans0[i]);
        }
    }
    assert(out2.take(out0.len() as int) =~= out0) by {
        assert forall|i: int| 0 <= i < out0.len() implies out2[i] == out0[i] by {
            assert(out2.take(out1.len() as int)[i] == out1[i]);
            assert(out1.take(out0.len() as int)[i] == out0[i]);
        }
    }
    assert forall|k: int| 0 <= k < (a + b).len() implies #[trigger] xml_span(
        s,
        out2,
        spans2[n0 + k],
        (a + b)[k],
        limit,
    ) by {
        if k < a.len() {
            assert(xml_span(s, out1, spans1[n0 + k], a[k], limit));
            assert(spans2.take(n1)[n0 + k] == spans1[n0 + k]);
            lemma_xml_span_grow(s, out1, out2, spans1[n0 + k], a[k], limit);
        } else {
            let j = k - a.len();
            assert(xml_span(s, out2, spans2[n1 + j], b[j], limit));
            assert(n1 + j == n0 + k);
        }
    }
}

/// The spans of a whole XML document are those of some list of its payloads.
pub open spec fn xml_extracted(s: Seq<u8>, limit: u64, data: Seq<u8>, spans: Seq<super::Span>) -> bool {
    exists|payloads: Seq<XmlPayload>| #[trigger] xml_document_spans(s, limit, data, spans, payloads)
}

/// A document read from its start decodes into its document spans.
pub proof fn lemma_xml_document_spans(
    s: Seq<u8>,
    limit: u64,
    data: Seq<u8>,
    spans: Seq<super::Span>,
    payloads: Seq<XmlPayload>,
)
    requires
        xml_payloads_decoded(s, limit, Seq::empty(), Seq::empty(), data, spans, payloads),
    ensures
        xml_document_spans(s, limit, data, spans, payloads),
{
    assert forall|k: int| 0 <= k < spans.len() implies #[trigger] xml_span(s, data, spans[k], payloads[k], limit) by {
        assert(xml_span(s, data, spans[0 + k], payloads[k], limit));
    }
}

/// From output `out0` and spans `spans0` to `out` and `spans`, the new
/// spans are those of some list of payloads.
#[verifier::opaque]
pub open spec fn xml_decoded_from(
    s: Seq<u8>,
    limit: u64,
    out0: Seq<u8>,
    spans0: Seq<super::Span>,
    out: Seq<u8>,
    spans: Seq<super::Span>,
) -> bool {
    exists|d: Seq<XmlPayload>| #[trigger] xml_payloads_decoded(s, limit, out0, spans0, out, spans, d)
}

/// Nothing decoded is nothing changed.
pub proof fn lemma_xml_decoded_none(s: Seq<u8>, limit: u64, out: Seq<u8>, spans: Seq<super::Span>)
    ensures
        xml_decoded_from(s, limit, out, spans, out, spans),
{
    reveal(xml_decoded_from);
    lemma_xml_payloads_none(s, limit, out, spans);
}

/// What `xml_decoded_from` says: some list of payloads.
pub proof fn lemma_xml_decoded_exists(
    s: Seq<u8>,
    limit: u64,
    out0: Seq<u8>,
    spans0: Seq<super::Span>,
    out: Seq<u8>,
    spans: Seq<super::Span>,
)
    requires
        xml_decoded_from(s, limit, out0, spans0, out, spans),
    ensures
        exists|d: Seq<XmlPayload>| #[trigger] xml_payloads_decoded(s, limit, out0, spans0, out, spans, d),
{
    reveal(xml_decoded_from);
}

/// Two runs of decoding, one after the other, are one run.
pub proof fn lemma_xml_exists_chain(
    s: Seq<u8>,
    limit: u64,
    out0: Seq<u8>,
    spans0: Seq<super::Span>,
    out1: Seq<u8>,
    spans1: Seq<super::Span>,
    out2: Seq<u8>,
    spans2: Seq<super::Span>,
)
    requires
        xml_decoded_from(s, limit, out0, spans0, out1, spans1),
        xml_decoded_from(s, limit, out1, spans1, out2, spans2),
    ensures
        xml_decoded_from(s, limit, out0, spans0, out2, spans2),
{
    reveal(xml_decoded_from);
    let a = choose|d: Seq<XmlPayload>| #[trigger] xml_payloads_decoded(s, limit, out0, spans0, out1, spans1, d);
    let b = choose|d: Seq<XmlPayload>| #[trigger] xml_payloads_decoded(s, limit, out1, spans1, out2, spans2, d);
    lemma_xml_payloads_chain(s, limit, out0, spans0, out1, spans1, out2, spans2, a, b);
    assert(xml_payloads_decoded(s, limit, out0, spans0, out2, spans2, a + b));
}

/// One payload's span added, as a run of decoding.
pub proof fn lemma_xml_one(
    s: Seq<u8>,
    limit: u64,
    out0: Seq<u8>,
    spans0: Seq<super::Span>,
    out: Seq<u8>,
    spans: Seq<super::Span>,
    d: XmlPayload,
)
    requires
        spans.len() == spans0.len() + 1,
        spans.take(spans0.len() as int) == spans0,
        out0.len() <= out.len(),
        out.take(out0.len() as int) == out0,
        xml_span(s, out, spans[spans0.len() as int], d, limit),
    ensures
        xml_payloads_decoded(s, limit, out0, spans0, out, spans, seq![d]),
{
    assert(seq![d][0] == d);
    assert(spans0.len() + 0 == spans0.len());
}

/// The spans of a whole XML document: one for each of `payloads`, in order.
pub open spec fn xml_document_spans(
    s: Seq<u8>,
    limit: u64,
    data: Seq<u8>,
    spans: Seq<super::Span>,
    payloads: Seq<XmlPayload>,
) -> bool {
    &&& spans.len() == payloads.len()
    &&& forall|k: int| 0 <= k < spans.len() ==> #[trigger] xml_span(s, data, spans[k], payloads[k], limit)
}

pub fn vec_ends_with(s: &Vec<u8>, suffix: &[u8]) -> (r: bool)
    ensures
        r == ends_with(s@, suffix@),
{
    if suffix.len() > s.len() {
        return false;
    }
    starts_at(s.as_slice(), s.len() - suffix.len(), suffix)
}

impl Reader {
    /// Reads one markup token that starts at the next `<`: up to the `>` that
    /// is not inside a quoted attribute, or a whole comment or processing
    /// instruction, or just the opening of a CDATA section. The bytes are
    /// retained when `keep`.
    pub fn xml_markup(&mut self, keep: bool) -> (r: Result<Vec<u8>, BzrError>)
        requires
            old(self).inv(),
        ensures
            final(self).inv(),
            final(self).same_sink(old(self)),
            final(self).position >= old(self).position,
            r matches Ok(t) ==> {
                &&& t@.len() >= 2
                &&& markup_end(old(self).input@, old(self).position as int, old(self).limit) == Some(
                    final(self).position as int,
                )
                &&& final(self).position == old(self).position + t@.len()
                &&& t@ == old(self).input@.subrange(old(self).position as int, final(self).position as int)
                &&& final(self).body@ == if keep { old(self).body@ + t@ } else { old(self).body@ }
            },
            r is Err ==> match markup_end(old(self).input@, old(self).position as int, old(self).limit) {
                None => true,
                Some(e) => keep && old(self).body@.len() + (e - old(self).position) > old(self).limit,
            },
    {
        proof {
            lemma_markup_from_after(old(self).input@, old(self).position as int, old(self).position + 1, None, old(self).limit);
        }
        let first = match self.required(keep) {
            Ok(b) => b,
            Err(e) => return Err(e),
        };
        let mut token: Vec<u8> = Vec::new();
        token.push(first);
        let mut quote: Option<u8> = None;
        let ghost s = self.input@;
        let ghost p = old(self).position as int;
        loop
            invariant
                s == self.input@,
                p == old(self).position,
                markup_end(s, p, self.limit) == markup_from(s, p, self.position as int, quote, self.limit),
                self.inv(),
                self.same_sink(old(self)),
                self.position == old(self).position + token@.len(),
                token@.len() >= 1,
                token@ == old(self).input@.subrange(old(self).position as int, self.position as int),
                self.body@ == if keep { old(self).body@ + token@ } else { old(self).body@ },
            decreases self.input@.len() - self.position,
        {
            let ghost prev = self.position;
            proof {
                lemma_markup_from_after(s, p, self.position as int, quote, self.limit);
            }
            let byte = match self.required(keep) {
                Ok(b) => b,
                Err(e) => return Err(e),
            };
            let ghost x = self.position - 1;
            token.push(byte);
            assert(token@ =~= old(self).input@.subrange(old(self).position as int, self.position as int));
            assert(s[x] == byte);
            if token.len() as u64 > self.limit {
                return Err(BzrError::ResponseTooLarge {
                    operation: String::from_str("attachment response metadata"),
                    limit_bytes: self.limit,
                    status: None,
                });
            }
            if bytes_eq(token.as_slice(), &[60u8, 33, 91, 67, 68, 65, 84, 65, 91]) {
                return Ok(token);
            }
            if starts_at(token.as_slice(), 0, &[60u8, 33, 45, 45]) {
                if vec_ends_with(&token, &[45u8, 45, 62]) {
                    return Ok(token);
                }
            } else if starts_at(token.as_slice(), 0, &[60u8, 63]) {
                if vec_ends_with(&token, &[63u8, 62]) {
                    return Ok(token);
                }
            } else if quote == Some(byte) {
                quote = None;
            } else if quote.is_none() && (byte == 39u8 || byte == 34u8) {
                quote = Some(byte);
            } else if quote.is_none() && byte == 62u8 {
                return Ok(token);
            }
        }
    }

    /// Skips (and retains) the rest of a CDATA section outside payload data.
    pub fn xml_cdata_skip(&mut self) -> (r: Result<(), BzrError>)
        requires
            old(self).inv(),
        ensures
            final(self).inv(),
            final(self).same_sink(old(self)),
            final(self).position >= old(self).position,
            r is Ok ==> final(self).position >= old(self).position + 3,
            r is Ok ==> cdata_end(old(self).input@, old(self).position as int) == Some(
                final(self).position as int,
            ),
            r is Ok ==> final(self).body@ == old(self).body@ + old(self).input@.subrange(
                old(self).position as int,
                final(self).position as int,
            ),
            r is Err ==> match cdata_end(old(self).input@, old(self).position as int) {
                None => true,
                Some(c) => old(self).body@.len() + (c - old(self).position) > old(self).limit,
            },
    {
        let ghost s = self.input@;
        let ghost p0 = self.position as int;
        let mut pending: Vec<u8> = Vec::new();
        assert(s.subrange(p0, p0) =~= Seq::<u8>::empty());
        assert(self.body@ + Seq::<u8>::empty() =~= self.body@);
        loop
            invariant
                self.inv(),
                self.same_sink(old(self)),
                self.position >= old(self).position + pending@.len(),
                pending@.len() <= 3,
                s == self.input@,
                p0 == old(self).position,
                pending@.len() == if self.position - p0 < 3 { self.position - p0 } else { 3 },
                pending@ == s.subrange(self.position - pending@.len(), self.position as int),
                cdata_end(s, p0) == cdata_close(s, p0, self.position as int),
                self.body@ == old(self).body@ + s.subrange(p0, self.position as int),
            decreases self.input@.len() - self.position,
        {
            let ghost x = self.position as int;
            proof {
                lemma_cdata_close_after(s, p0, x);
            }
            let byte = match self.required(true) {
                Ok(b) => b,
                Err(e) => return Err(e),
            };
            assert(s.subrange(p0, x + 1) =~= s.subrange(p0, x).push(byte));
            pending.push(byte);
            let ghost w = x + 1 - pending@.len();
            assert(pending@ =~= s.subrange(w, x + 1));
            let closed = vec_ends_with(&pending, &[93u8, 93, 62]);
            proof {
                assert([93u8, 93, 62]@ =~= seq![93u8, 93, 62]);
                if x >= p0 + 2 {
                    assert(pending@.subrange(pending@.len() - 3, pending@.len() as int) =~= s.subrange(
                        x - 2,
                        x + 1,
                    ));
                }
                if closed {
                    assert(s[x - 2] == 93u8 && s[x - 1] == 93u8 && s[x] == 62u8) by {
                        assert(pending@.subrange(pending@.len() - 3, pending@.len() as int)[0] == s[x - 2]);
                        assert(pending@.subrange(pending@.len() - 3, pending@.len() as int)[1] == s[x - 1]);
                        assert(pending@.subrange(pending@.len() - 3, pending@.len() as int)[2] == s[x]);
                    }
                } else if x >= p0 + 2 {
                    assert(!(s[x - 2] == 93u8 && s[x - 1] == 93u8 && s[x] == 62u8)) by {
                        if s[x - 2] == 93u8 && s[x - 1] == 93u8 && s[x] == 62u8 {
                            assert(s.subrange(x - 2, x + 1) =~= seq![93u8, 93, 62]);
                        }
                    }
                }
            }
            if closed {
                return Ok(());
            }
            if pending.len() > 3 {
                pending.remove(0);
                assert(pending@ =~= s.subrange(w + 1, x + 1));
            }
        }
    }

    /// Feeds the rest of a CDATA section inside payload data to `decoder`,
    /// skipping whitespace.
    pub fn xml_cdata_decode(&mut self, decoder: &mut Decoder, offset: u64) -> (r: Result<(), BzrError>)
        requires
            old(self).inv(),
            super::spans_end(old(self).spans@) == offset,
            offset <= old(self).output@.len(),
            old(decoder).inv(),
            old(self).output@.len() + old(decoder).pending@.len() <= old(self).position,
        ensures
            final(self).inv(),
            final(self).advanced_from(old(self)),
            final(self).spans@ == old(self).spans@,
            final(self).body@ == old(self).body@,
            final(decoder).inv(),
            final(self).output@.len() + final(decoder).pending@.len() <= final(self).position,
            r is Ok ==> final(self).position >= old(self).position + 3,
            r is Err ==> cdata_end(old(self).input@, old(self).position as int) is None,
            r is Ok ==> cdata_end(old(self).input@, old(self).position as int) == Some(
                final(self).position as int,
            ),
            r is Ok ==> final(decoder).ran(
                final(self).output@,
                old(decoder),
                old(self).output@,
                non_ws(old(self).input@.subrange(old(self).position as int, final(self).position - 3)),
            ),
    {
        let ghost s = self.input@;
        let ghost p0 = self.position as int;
        let mut pending: Vec<u8> = Vec::new();
        proof {
            lemma_ran_none(*decoder, self.output@);
        }
        loop
            invariant
                self.inv(),
                self.advanced_from(old(self)),
                self.spans@ == old(self).spans@,
                self.body@ == old(self).body@,
                decoder.inv(),
                pending@.len() <= 3,
                self.output@.len() + decoder.pending@.len() + pending@.len() <= self.position,
                self.position >= old(self).position + pending@.len(),
                s == self.input@,
                p0 == old(self).position,
                pending@.len() == if self.position - p0 < 3 { self.position - p0 } else { 3 },
                pending@ == s.subrange(self.position - pending@.len(), self.position as int),
                cdata_end(s, p0) == cdata_close(s, p0, self.position as int),
                decoder.ran(
                    self.output@,
                    old(decoder),
                    old(self).output@,
                    non_ws(s.subrange(p0, self.position - pending@.len())),
                ),
            decreases self.input@.len() - self.position,
        {
            let ghost x = self.position as int;
            let byte = match self.required(false) {
                Ok(b) => b,
                Err(e) => return Err(e),
            };
            pending.push(byte);
            let ghost w = x + 1 - pending@.len();
            assert(pending@ =~= s.subrange(w, x + 1));
            let closed = vec_ends_with(&pending, &[93u8, 93, 62]);
            proof {
                assert([93u8, 93, 62]@ =~= seq![93u8, 93, 62]);
                if x >= p0 + 2 {
                    assert(pending@.subrange(pending@.len() - 3, pending@.len() as int) =~= s.subrange(
                        x - 2,
                        x + 1,
                    ));
                }
                if closed {
                    assert(s[x - 2] == 93u8 && s[x - 1] == 93u8 && s[x] == 62u8) by {
                        assert(pending@.subrange(pending@.len() - 3, pending@.len() as int)[0] == s[x - 2]);
                        assert(pending@.subrange(pending@.len() - 3, pending@.len() as int)[1] == s[x - 1]);
                        assert(pending@.subrange(pending@.len() - 3, pending@.len() as int)[2] == s[x]);
                    }
                } else if x >= p0 + 2 {
                    assert(!(s[x - 2] == 93u8 && s[x - 1] == 93u8 && s[x] == 62u8)) by {
                        if s[x - 2] == 93u8 && s[x - 1] == 93u8 && s[x] == 62u8 {
                            assert(s.subrange(x - 2, x + 1) =~= seq![93u8, 93, 62]);
                        }
                    }
                }
            }
            if closed {
                let keep = pending.len() - 3;
                let mut k: usize = 0;
                while k < keep
                    invariant
                        self.inv(),
                        self.advanced_from(old(self)),
                        self.spans@ == old(self).spans@,
                        self.body@ == old(self).body@,
                        decoder.inv(),
                        k <= keep <= pending@.len(),
                        keep == pending@.len() - 3,
                        self.position >= old(self).position + 3,
                        self.position >= p0 + 3,
                        self.output@.len() + decoder.pending@.len() + (pending@.len() - k) <= self.position,
                        s == self.input@,
                        self.position == x + 1,
                        pending@ == s.subrange(w, x + 1),
                        0 <= p0 <= w,
                        w + pending@.len() == x + 1,
                        x + 1 <= s.len(),
                        decoder.ran(self.output@, old(decoder), old(self).output@, non_ws(s.subrange(p0, w + k))),
                    decreases keep - k,
                {
                    let b = pending[k];
                    let ghost d1 = *decoder;
                    let ghost out1 = self.output@;
                    decoder.push_text(b, self);
                    proof {
                        assert(pending@[k as int] == s.subrange(w, x + 1)[k as int]);
                        assert(b == s[w + k]);
                        lemma_ran_chain(
                            *old(decoder),
                            old(self).output@,
                            d1,
                            out1,
                            *decoder,
                            self.output@,
                            non_ws(s.subrange(p0, w + k)),
                            text_byte(b),
                        );
                        assert(s.subrange(p0, w + k + 1) =~= s.subrange(p0, w + k).push(b));
                        lemma_non_ws_push(s.subrange(p0, w + k), b);
                    }
                    k = k + 1;
                }
                return Ok(());
            }
            if pending.len() > 3 {
                let b = pending.remove(0);
                let ghost d1 = *decoder;
                let ghost out1 = self.output@;
                decoder.push_text(b, self);
                proof {
                    assert(b == s[w]);
                    lemma_ran_chain(
                        *old(decoder),
                        old(self).output@,
                        d1,
                        out1,
                        *decoder,
                        self.output@,
                        non_ws(s.subrange(p0, w)),
                        text_byte(b),
                    );
                    assert(s.subrange(p0, w + 1) =~= s.subrange(p0, w).push(b));
                    lemma_non_ws_push(s.subrange(p0, w), b);
                    assert(pending@ =~= s.subrange(w + 1, x + 1));
                }
            }
        }
    }

    /// Streams the content of a payload element up to its closing tag
    /// `closing`: text, entity references and CDATA sections are fed to a
    /// fresh decoder, comments are retained, anything else is refused. The
    /// span is recorded and the closing tag retained after its marker.
    #[verifier::rlimit(60)]
    pub fn xml_payload(&mut self, closing: &[u8], starts_cdata: bool) -> (r: Result<(), BzrError>)
        requires
            old(self).inv(),
            old(self).settled(),
        ensures
            final(self).inv(),
            final(self).advanced_from(old(self)),
            r is Ok ==> final(self).settled(),
            r is Ok ==> final(self).position > old(self).position,
            r is Ok ==> final(self).spans@.len() == old(self).spans@.len() + 1,
            r is Ok ==> xml_payload_span(
                old(self).input@,
                final(self).output@,
                final(self).spans@[old(self).spans@.len() as int],
                old(self).position as int,
                closing@,
                starts_cdata,
                old(self).limit,
            ),
            r is Ok ==> (xml_payload_feed(
                old(self).input@,
                old(self).position as int,
                closing@,
                starts_cdata,
                old(self).limit,
            ) matches Some((end, _)) && final(self).position == end),
            r is Ok ==> final(self).output@.take(old(self).output@.len() as int) == old(self).output@,
            r is Ok ==> final(self).spans@.take(old(self).spans@.len() as int) == old(self).spans@,
            ({
                let kept = xml_payload_kept(
                    old(self).input@,
                    old(self).position as int,
                    closing@,
                    starts_cdata,
                    old(self).limit,
                );
                let marker = super::marker_for(old(self).spans@.len() as nat);
                &&& r is Ok <==> (xml_payload_feed(
                    old(self).input@,
                    old(self).position as int,
                    closing@,
                    starts_cdata,
                    old(self).limit,
                ) is Some && old(self).body@.len() + kept.0.len() + marker.len() + kept.1.len() <= old(self).limit)
                &&& r is Ok ==> final(self).body@ == old(self).body@ + kept.0 + marker + kept.1
            }),
    {
        let ghost s = self.input@;
        let ghost p0 = self.position as int;
        let ghost limit = self.limit;
        let ghost cl = closing@;
        let ghost mut comm: Seq<u8> = Seq::empty();
        let ghost n0 = self.spans@.len() as nat;
        let ghost total = xml_payload_kept(s, p0, cl, starts_cdata, limit);
        let offset = self.output.len() as u64;
        let mut decoder = Decoder::new();
        let ghost d0 = decoder;
        let ghost out0 = self.output@;
        let ghost mut fed: Seq<u8> = Seq::empty();
        proof {
            lemma_ran_none(decoder, self.output@);
            lemma_prepend_empty(xml_feed(s, p0, cl, limit));
        }
        if starts_cdata {
            match self.xml_cdata_decode(&mut decoder, offset) {
                Ok(()) => {},
                Err(e) => return Err(e),
            }
            proof {
                fed = non_ws(s.subrange(p0, self.position - 3));
            }
        }
        assert(total.0 =~= comm + xml_kept(s, self.position as int, cl, limit).0);
        loop
            invariant
                self.body@ == old(self).body@ + comm,
                total == xml_payload_kept(s, p0, cl, starts_cdata, limit),
                n0 == old(self).spans@.len(),
                xml_feed(s, self.position as int, cl, limit) is Some ==> total == (
                    comm + xml_kept(s, self.position as int, cl, limit).0,
                    xml_kept(s, self.position as int, cl, limit).1,
                ),
                self.inv(),
                self.advanced_from(old(self)),
                self.spans@ == old(self).spans@,
                super::spans_end(self.spans@) == offset,
                offset <= self.output@.len(),
                decoder.inv(),
                self.output@.len() + decoder.pending@.len() <= self.position,
                s == self.input@,
                p0 == old(self).position,
                limit == self.limit,
                cl == closing@,
                offset == old(self).output@.len(),
                out0 == old(self).output@,
                d0.pending@.len() == 0,
                !d0.padded,
                d0.error is None,
                self.position >= p0,
                starts_cdata ==> self.position > p0,
                decoder.ran(self.output@, &d0, out0, fed),
                xml_payload_feed(s, p0, cl, starts_cdata, limit) == prepend(
                    fed,
                    xml_feed(s, self.position as int, cl, limit),
                ),
            decreases self.input@.len() - self.position,
        {
            let ghost x = self.position as int;
            let ghost dx = decoder;
            let ghost outx = self.output@;
            match self.peek() {
                None => return Err(invalid("truncated XML attachment data")),
                Some(60u8) => {
                    let token = match self.xml_markup(false) {
                        Ok(t) => t,
                        Err(e) => return Err(e),
                    };
                    let ghost e = self.position as int;
                    if bytes_eq(token.as_slice(), &[60u8, 33, 91, 67, 68, 65, 84, 65, 91]) {
                        proof {
                            assert([60u8, 33, 91, 67, 68, 65, 84, 65, 91]@ =~= cdata_open());
                        }
                        match self.xml_cdata_decode(&mut decoder, offset) {
                            Ok(()) => {},
                            Err(e) => return Err(e),
                        }
                        proof {
                            let c = self.position as int;
                            let a = non_ws(s.subrange(e, c - 3));
                            lemma_ran_chain(d0, out0, dx, outx, decoder, self.output@, fed, a);
                            lemma_prepend_assoc(fed, a, xml_feed(s, c, cl, limit));
                            fed = fed + a;
                        }
                    } else {
                        match read_markup(token.as_slice()) {
                            None => return Err(invalid("invalid XML attachment data markup")),
                            Some(Markup::End(name)) => {
                                if bytes_eq(name.as_slice(), closing) {
                                    let ghost n = self.spans@.len();
                                    proof {
                                        assert(xml_feed(s, x, cl, limit) == Some((e, Seq::<u8>::empty())));
                                        assert(fed + Seq::<u8>::empty() =~= fed);
                                    }
                                    match self.finish_payload(decoder, offset) {
                                        Ok(()) => {},
                                        Err(e) => return Err(e),
                                    }
                                    let r = self.retain(token.as_slice());
                                    proof {
                                        assert(comm + Seq::<u8>::empty() =~= comm);
                                        assert(total == (comm, token@));
                                        assert(self.spans@[n as int] == self.spans@.last());
                                        lemma_ran_output(d0, out0, dx, outx, fed, offset as int);
                                        assert(outx.subrange(offset as int, outx.len() as int) =~= outx.skip(
                                            offset as int,
                                        ));
                                        assert(d0.pending@ =~= Seq::<u8>::empty());
                                        assert(xml_payload_feed(s, p0, cl, starts_cdata, limit) == Some((e, fed)));
                                        let sp = self.spans@[n as int];
                                        assert(sp.offset == offset);
                                        assert(sp.length == outx.len() - offset);
                                        assert(self.output@ == outx);
                                        assert(xml_payload_span(s, self.output@, sp, p0, cl, starts_cdata, limit));
                                    }
                                    return r;
                                } else {
                                    return Err(invalid("unexpected XML element inside attachment data"));
                                }
                            },
                            Some(Markup::Comment) => {
                                match self.retain(token.as_slice()) {
                                    Ok(()) => {},
                                    Err(e) => return Err(e),
                                }
                                proof {
                                    let rest = xml_kept(s, e, cl, limit);
                                    assert(comm + (token@ + rest.0) =~= (comm + token@) + rest.0);
                                    comm = comm + token@;
                                }
                            },
                            Some(_) => return Err(invalid("unexpected XML element inside attachment data")),
                        }
                    }
                },
                Some(38u8) => {
                    match self.xml_entity(&mut decoder, offset) {
                        Ok(()) => {},
                        Err(e) => return Err(e),
                    }
                    proof {
                        let e = self.position as int;
                        let a = entity_text(s, x, e);
                        lemma_ran_chain(d0, out0, dx, outx, decoder, self.output@, fed, a);
                        lemma_prepend_assoc(fed, a, xml_feed(s, e, cl, limit));
                        fed = fed + a;
                    }
                },
                Some(_) => {
                    let byte = match self.required(false) {
                        Ok(b) => b,
                        Err(e) => return Err(e),
                    };
                    decoder.push_text(byte, self);
                    proof {
                        let a = text_byte(byte);
                        lemma_ran_chain(d0, out0, dx, outx, decoder, self.output@, fed, a);
                        lemma_prepend_assoc(fed, a, xml_feed(s, x + 1, cl, limit));
                        fed = fed + a;
                    }
                },
            }
        }
    }

    /// Reads an entity reference inside payload data (at most 32 bytes, up to
    /// `;`) and feeds the non-whitespace bytes of its unescaped text to
    /// `decoder`.
    pub fn xml_entity(&mut self, decoder: &mut Decoder, offset: u64) -> (r: Result<(), BzrError>)
        requires
            old(self).inv(),
            super::spans_end(old(self).spans@) == offset,
            offset <= old(self).output@.len(),
            old(decoder).inv(),
            old(self).output@.len() + old(decoder).pending@.len() <= old(self).position,
        ensures
            final(self).inv(),
            final(self).advanced_from(old(self)),
            final(self).spans@ == old(self).spans@,
            final(self).body@ == old(self).body@,
            final(decoder).inv(),
            final(self).output@.len() + final(decoder).pending@.len() <= final(self).position,
            r is Ok ==> final(self).position > old(self).position,
            r is Err ==> match entity_end(old(self).input@, old(self).position as int) {
                Some(e) => xml_unescape_spec(old(self).input@.subrange(old(self).position as int, e)) is None,
                None => true,
            },
            r is Ok ==> entity_end(old(self).input@, old(self).position as int) == Some(
                final(self).position as int,
            ),
            r is Ok ==> xml_unescape_spec(
                old(self).input@.subrange(old(self).position as int, final(self).position as int),
            ) is Some,
            r is Ok ==> final(decoder).ran(
                final(self).output@,
                old(decoder),
                old(self).output@,
                entity_text(old(self).input@, old(self).position as int, final(self).position as int),
            ),
    {
        let ghost s = self.input@;
        let ghost p0 = self.position as int;
        let first = match self.required(false) {
            Ok(b) => b,
            Err(e) => return Err(e),
        };
        let mut entity: Vec<u8> = Vec::new();
        entity.push(first);
        assert(entity@ =~= s.subrange(p0, self.position as int));
        while !vec_ends_with(&entity, &[59u8])
            invariant
                self.inv(),
                self.advanced_from(old(self)),
                self.spans@ == old(self).spans@,
                self.output@ == old(self).output@,
                self.body@ == old(self).body@,
                decoder.inv(),
                self.output@.len() + decoder.pending@.len() + entity@.len() <= self.position,
                entity@.len() >= 1,
                self.position == old(self).position + entity@.len(),
                s == self.input@,
                p0 == old(self).position,
                entity@ == s.subrange(p0, self.position as int),
                entity_end(s, p0) == entity_close(s, p0, self.position - 1),
            decreases self.input@.len() - self.position,
        {
            proof {
                let x = self.position - 1;
                assert([59u8]@ =~= seq![59u8]);
                assert(entity@.subrange(entity@.len() - 1, entity@.len() as int) =~= seq![s[x]]);
                assert(s[x] != 59u8);
            }
            if entity.len() >= 32 {
                return Err(invalid("oversized XML attachment entity"));
            }
            match self.required(false) {
                Ok(b) => entity.push(b),
                Err(e) => {
                    proof {
                        let x = self.position - 1;
                        assert(entity_close(s, p0, x) == entity_close(s, p0, x + 1));
                    }
                    return Err(e);
                },
            }
            assert(entity@ =~= s.subrange(p0, self.position as int));
        }
        proof {
            let x = self.position - 1;
            assert([59u8]@ =~= seq![59u8]);
            assert(entity@.subrange(entity@.len() - 1, entity@.len() as int) =~= seq![s[x]]);
            assert(entity@.subrange(entity@.len() - 1, entity@.len() as int)[0] == s[x]);
        }
        let value = match unescape_entity(entity.as_slice()) {
            Some(v) => v,
            None => return Err(invalid("invalid XML attachment entity")),
        };
        let ghost end = self.position as int;
        proof {
            lemma_ran_none(*decoder, self.output@);
            assert(value@.take(0) =~= Seq::<u8>::empty());
        }
        let mut k: usize = 0;
        while k < value.len()
            invariant
                self.inv(),
                self.advanced_from(old(self)),
                self.spans@ == old(self).spans@,
                self.body@ == old(self).body@,
                self.position > old(self).position,
                self.position == end,
                decoder.inv(),
                k <= value@.len(),
                self.output@.len() + decoder.pending@.len() + (value@.len() - k) <= self.position,
                decoder.ran(self.output@, old(decoder), old(self).output@, non_ws(value@.take(k as int))),
            decreases value@.len() - k,
        {
            let b = value[k];
            let ghost d1 = *decoder;
            let ghost out1 = self.output@;
            decoder.push_text(b, self);
            proof {
                lemma_ran_chain(
                    *old(decoder),
                    old(self).output@,
                    d1,
                    out1,
                    *decoder,
                    self.output@,
                    non_ws(value@.take(k as int)),
                    text_byte(b),
                );
                assert(value@.take(k + 1) =~= value@.take(k as int).push(b));
                lemma_non_ws_push(value@.take(k as int), b);
            }
            k = k + 1;
        }
        assert(value@.take(k as int) =~= value@);
        Ok(())
    }
}

} // verus!

verus! {

/// `<` + `name` + `>`, or `</` + `name` + `>` when `closing`.
fn tag_bytes(name: &Vec<u8>, closing: bool) -> (r: Vec<u8>)
    ensures
        r@ == tag_text(name@, closing),
{
    let mut r: Vec<u8> = Vec::new();
    r.push(60u8);
    if closing {
        r.push(47u8);
    }
    let ghost open = r@;
    assert(open == if closing { seq![60u8, 47u8] } else { seq![60u8] });
    let mut i: usize = 0;
    while i < name.len()
        invariant
            i <= name@.len(),
            r@ == open + name@.take(i as int),
        decreases name@.len() - i,
    {
        r.push(name[i]);
        i = i + 1;
        assert(name@.take(i as int) =~= name@.take(i - 1).push(name@[i - 1]));
    }
    r.push(62u8);
    assert(name@.take(i as int) =~= name@);
    assert(r@ =~= tag_text(name@, closing));
    r
}

/// The tag text `<name>`, or `</name>` when `closing`.
pub open spec fn tag_text(name: Seq<u8>, closing: bool) -> Seq<u8> {
    (if closing { seq![60u8, 47u8] } else { seq![60u8] }) + name + seq![62u8]
}

impl Reader {
    /// One step of the document scan at the reading position: a text byte
    /// (or the payload it begins), or a markup token; `Ok(true)` when the
    /// input has ended.
    fn xml_step(&mut self, state: &mut XmlState, value_name: &Vec<u8>) -> (r: Result<bool, BzrError>)
        requires
            old(self).inv(),
            old(self).settled(),
            old(state).inv(),
            value_name@ == value_tag(),
        ensures
            final(self).inv(),
            final(self).advanced_from(old(self)),
            final(state).inv(),
            r is Ok ==> final(self).settled(),
            final(state).root_seen ==> old(state).root_seen || final(self).position > old(self).position,
            r == Ok::<bool, BzrError>(false) ==> final(self).position > old(self).position,
            r == Ok::<bool, BzrError>(true) ==> final(self).next_byte() is None,
            r is Ok ==> xml_decoded_from(
                old(self).input@,
                old(self).limit,
                old(self).output@,
                old(self).spans@,
                final(self).output@,
                final(self).spans@,
            ),
            match doc_step(
                old(self).input@,
                old(self).limit,
                old(self).position as int,
                old(state).model(),
                old(self).body@,
                old(self).spans@.len() as nat,
            ) {
                DocStep::Finish => r == Ok::<bool, BzrError>(true) && final(self).position == old(
                    self,
                ).position && final(state).model() == old(state).model() && final(self).body@ == old(
                    self,
                ).body@,
                DocStep::Fail => r is Err,
                DocStep::Next(p2, m2, b2, n2) => {
                    &&& r == Ok::<bool, BzrError>(false)
                    &&& final(self).position == p2
                    &&& final(state).model() == m2
                    &&& final(self).body@ == b2
                    &&& final(self).spans@.len() == n2
                },
            },
    {
        let ghost s = self.input@;
        let ghost limit = self.limit;
        let ghost pos = self.position as int;
        let ghost m0 = state.model();
        let ghost b0 = self.body@;
        let ghost n0 = self.spans@.len() as nat;
        let ghost out0 = self.output@;
        let ghost spans0 = self.spans@;
        proof {
            lemma_xml_payloads_none(s, limit, out0, spans0);
            reveal(doc_step);
            reveal(xml_decoded_from);
        }
        let byte = match self.peek() {
            Some(b) => b,
            None => return Ok(true),
        };
        if byte != 60u8 {
            if !is_ascii_whitespace(byte) {
                match state.validate_text() {
                    Ok(()) => {},
                    Err(e) => return Err(e),
                }
            }
            if state.in_data_value() && !is_ascii_whitespace(byte) {
                match self.xml_payload(value_name.as_slice(), false) {
                    Ok(()) => {},
                    Err(e) => return Err(e),
                }
                proof {
                    let d: XmlPayload = (pos, value_name@, false, false);
                    lemma_xml_one(s, limit, out0, spans0, self.output@, self.spans@, d);
                }
                let ghost m1 = state.model();
                state.stack.pop();
                state.last_children.pop();
                proof {
                    assert(state.model().stack =~= leave_value(m1).stack);
                    assert(state.model().children =~= leave_value(m1).children);
                }
                return Ok(false);
            }
            match self.take() {
                Ok(_) => {},
                Err(e) => return Err(e),
            }
            return Ok(false);
        }
        let token = match self.xml_markup(true) {
            Ok(t) => t,
            Err(e) => return Err(e),
        };
        proof {
            assert(token@ == s.subrange(pos, self.position as int));
        }
        self.xml_token_step(state, value_name, token, Ghost(pos), Ghost(b0))
    }

    /// The step of the document scan for a markup token just read and
    /// retained: a CDATA section, an element opening, closing or standing
    /// empty, or a comment, declaration or processing instruction.
    #[verifier::rlimit(60)]
    fn xml_token_step(
        &mut self,
        state: &mut XmlState,
        value_name: &Vec<u8>,
        token: Vec<u8>,
        Ghost(pos): Ghost<int>,
        Ghost(b0): Ghost<Seq<u8>>,
    ) -> (r: Result<bool, BzrError>)
        requires
            old(self).inv(),
            old(self).settled(),
            old(state).inv(),
            value_name@ == value_tag(),
            0 <= pos < old(self).position,
            markup_end(old(self).input@, pos, old(self).limit) == Some(old(self).position as int),
            token@ == old(self).input@.subrange(pos, old(self).position as int),
            old(self).body@ == b0 + token@,
        ensures
            final(self).inv(),
            final(self).position >= old(self).position,
            final(self).input@ == old(self).input@,
            final(self).limit == old(self).limit,
            old(self).output@.len() <= final(self).output@.len(),
            old(self).spans@.len() <= final(self).spans@.len(),
            final(state).inv(),
            r is Ok ==> final(self).settled(),
            final(state).root_seen ==> old(state).root_seen || final(self).position > pos,
            r is Ok ==> xml_decoded_from(
                old(self).input@,
                old(self).limit,
                old(self).output@,
                old(self).spans@,
                final(self).output@,
                final(self).spans@,
            ),
            match markup_step(
                old(self).input@,
                old(self).limit,
                pos,
                old(self).position as int,
                old(state).model(),
                b0,
                old(self).spans@.len() as nat,
            ) {
                DocStep::Finish => false,
                DocStep::Fail => r is Err,
                DocStep::Next(p2, m2, b2, n2) => {
                    &&& r == Ok::<bool, BzrError>(false)
                    &&& final(self).position == p2
                    &&& final(state).model() == m2
                    &&& final(self).body@ == b2
                    &&& final(self).spans@.len() == n2
                },
            },
    {
        let ghost s = self.input@;
        let ghost limit = self.limit;
        let ghost e = self.position as int;
        let ghost m0 = state.model();
        let ghost n0 = self.spans@.len() as nat;
        let ghost out0 = self.output@;
        let ghost spans0 = self.spans@;
        proof {
            lemma_xml_payloads_none(s, limit, out0, spans0);
            reveal(markup_step);
            reveal(xml_decoded_from);
        }
        if bytes_eq(token.as_slice(), &[60u8, 33, 91, 67, 68, 65, 84, 65, 91]) {
            proof {
                assert([60u8, 33, 91, 67, 68, 65, 84, 65, 91]@ =~= cdata_open());
            }
            match state.validate_text() {
                Ok(()) => {},
                Err(e) => return Err(e),
            }
            if state.in_data_value() {
                let keep = self.body.len() - token.len();
                self.body.truncate(keep);
                assert(self.body@ =~= b0);
                match self.xml_payload(value_name.as_slice(), true) {
                    Ok(()) => {},
                    Err(e) => return Err(e),
                }
                proof {
                    let d: XmlPayload = (e, value_name@, true, false);
                    lemma_xml_one(s, limit, out0, spans0, self.output@, self.spans@, d);
                }
                let ghost m1 = state.model();
                state.stack.pop();
                state.last_children.pop();
                proof {
                    assert(state.model().stack =~= leave_value(m1).stack);
                    assert(state.model().children =~= leave_value(m1).children);
                }
            } else {
                match self.xml_cdata_skip() {
                    Ok(()) => {},
                    Err(e) => return Err(e),
                }
            }
            return Ok(false);
        }
        proof {
            assert([60u8, 33, 91, 67, 68, 65, 84, 65, 91]@ =~= cdata_open());
        }
        let event = match read_markup(token.as_slice()) {
            Some(ev) => ev,
            None => return Err(invalid("invalid attachment XML markup")),
        };
        match event {
            Markup::Start(name) => {
                let tag = classify(name.as_slice());
                match state.validate_child(&tag) {
                    Ok(()) => {},
                    Err(e) => return Err(e),
                }
                if state.stack.len() == 0 {
                    if state.root_seen || !matches!(tag, Tag::MethodResponse) {
                        return Err(invalid("invalid XML-RPC root"));
                    }
                    state.root_seen = true;
                }
                if state.stack.len() >= 128 {
                    return Err(invalid("attachment XML nesting exceeds 128 levels"));
                }
                if state.in_data_value() && (matches!(tag, Tag::Base64) || matches!(tag, Tag::Str)) {
                    match self.xml_payload(name.as_slice(), false) {
                        Ok(()) => {},
                        Err(e) => return Err(e),
                    }
                    proof {
                        let d: XmlPayload = (e, name@, false, false);
                        lemma_xml_one(s, limit, out0, spans0, self.output@, self.spans@, d);
                    }
                    return Ok(false);
                }
                let ghost m2 = state.model();
                let ghost blen = self.body@.len() as int;
                if matches!(tag, Tag::Struct) {
                    state.struct_keys.push(Vec::new());
                }
                if matches!(tag, Tag::Member) {
                    state.members.push(None);
                }
                if matches!(tag, Tag::Name) {
                    state.name_start = Some(self.body.len());
                }
                let ghost tv = tag@;
                state.stack.push(tag);
                state.last_children.push(None);
                proof {
                    let m3 = open_step(m2, tv, blen);
                    assert(state.model().stack =~= m3.stack);
                    assert(state.model().children =~= m3.children);
                    assert(state.model().members =~= m3.members);
                    assert(state.model().keys =~= m3.keys) by {
                        if tv == TagModel::Struct {
                            assert(key_views(state.struct_keys@.last()@) =~= Seq::<Seq<u8>>::empty());
                        }
                    }
                }
                Ok(false)
            },
            Markup::End(name) => {
                let tag = classify(name.as_slice());
                match state.end(&tag, self.body.as_slice()) {
                    Ok(()) => {},
                    Err(e) => return Err(e),
                }
                Ok(false)
            },
            Markup::Empty(name) => {
                if state.stack.len() == 0 {
                    return Err(invalid("empty element outside attachment XML root"));
                }
                let tag = classify(name.as_slice());
                match state.validate_child(&tag) {
                    Ok(()) => {},
                    Err(e) => return Err(e),
                }
                let m = state.members.len();
                let n = state.stack.len();
                let in_data_member = m > 0 && state.members[m - 1] == Some(true);
                let top_value = matches!(state.stack[n - 1], Tag::Value);
                let top_member = matches!(state.stack[n - 1], Tag::Member);
                let payload_tag = matches!(tag, Tag::Base64) || matches!(tag, Tag::Str);
                proof {
                    let m1 = state.model();
                    assert(m1.stack.last() == state.stack@[n - 1]@);
                }
                if in_data_member && ((top_value && payload_tag) || (matches!(tag, Tag::Value)
                    && top_member)) {
                    let keep = self.body.len() - token.len();
                    self.body.truncate(keep);
                    assert(self.body@ =~= b0);
                    let open = tag_bytes(&name, false);
                    match self.retain(open.as_slice()) {
                        Ok(()) => {},
                        Err(e) => return Err(e),
                    }
                    let offset = self.output.len() as u64;
                    let ghost out_b = self.output@;
                    let ghost spans_b = self.spans@;
                    let fresh = Decoder::new();
                    match self.finish_payload(fresh, offset) {
                        Ok(()) => {},
                        Err(e) => return Err(e),
                    }
                    proof {
                        let d: XmlPayload = (self.position as int, Seq::empty(), false, true);
                        assert(self.spans@[spans_b.len() as int] == self.spans@.last());
                        assert(self.output@ == out_b);
                        assert(out_b.take(out_b.len() as int) =~= out_b);
                        lemma_xml_one(s, limit, out_b, spans_b, self.output@, self.spans@, d);
                    }
                    let close = tag_bytes(&name, true);
                    match self.retain(close.as_slice()) {
                        Ok(()) => {},
                        Err(e) => return Err(e),
                    }
                }
                Ok(false)
            },
            Markup::DocType => Err(invalid("DTD is not supported in attachment XML")),
            Markup::Comment | Markup::Decl | Markup::PI => Ok(false),
            Markup::Other => Err(invalid("unexpected attachment XML markup")),
        }
    }

    /// Scans an XML-RPC response document, checking element placement and
    /// streaming the value of every `data` member as a payload.
    #[verifier::rlimit(100)]
    pub fn xml_document(&mut self) -> (r: Result<(), BzrError>)
        requires
            old(self).inv(),
            old(self).settled(),
        ensures
            final(self).inv(),
            final(self).advanced_from(old(self)),
            r is Ok ==> final(self).settled(),
            r is Ok ==> final(self).next_byte() is None,
            r is Ok ==> final(self).position > old(self).position,
            r is Ok ==> exists|payloads: Seq<XmlPayload>|
                #[trigger] xml_payloads_decoded(
                    old(self).input@,
                    old(self).limit,
                    old(self).output@,
                    old(self).spans@,
                    final(self).output@,
                    final(self).spans@,
                    payloads,
                ),
            ({
                let outcome = xml_outcome(
                    old(self).input@,
                    old(self).limit,
                    old(self).position as int,
                    old(self).body@,
                    old(self).spans@.len() as nat,
                );
                &&& r is Ok <==> outcome is Accepted
                &&& r is Ok ==> outcome == DocEnd::Accepted(final(self).body@)
                &&& outcome is Truncated ==> (r matches Err(BzrError::DataIntegrity(m)) && m@
                    == "truncated attachment XML response"@)
            }),
    {
        let ghost s = self.input@;
        let ghost limit = self.limit;
        let ghost p0 = self.position as int;
        let ghost outcome = xml_outcome(s, limit, p0, self.body@, self.spans@.len() as nat);
        let mut state = XmlState::new();
        let value_name: Vec<u8> = vec![118u8, 97, 108, 117, 101];
        proof {
            assert(value_name@ =~= value_tag());
            lemma_xml_decoded_none(s, limit, self.output@, self.spans@);
        }
        loop
            invariant
                s == self.input@,
                limit == self.limit,
                p0 == old(self).position,
                outcome == xml_outcome(
                    old(self).input@,
                    old(self).limit,
                    old(self).position as int,
                    old(self).body@,
                    old(self).spans@.len() as nat,
                ),
                outcome == doc_run(s, limit, self.position as int, state.model(), self.body@, self.spans@.len() as nat),
                xml_decoded_from(s, limit, old(self).output@, old(self).spans@, self.output@, self.spans@),
                self.inv(),
                self.settled(),
                self.advanced_from(old(self)),
                state.inv(),
                value_name@ == value_tag(),
                state.root_seen ==> self.position > old(self).position,
            decreases self.input@.len() - self.position,
        {
            let ghost pos = self.position as int;
            let ghost out1 = self.output@;
            let ghost spans1 = self.spans@;
            let ghost m1 = state.model();
            let ghost b1 = self.body@;
            let done = match self.xml_step(&mut state, &value_name) {
                Ok(d) => d,
                Err(e) => {
                    proof {
                        lemma_doc_run_fail(s, limit, pos, m1, b1, spans1.len() as nat);
                    }
                    return Err(e);
                },
            };
            proof {
                lemma_xml_exists_chain(s, limit, old(self).output@, old(self).spans@, out1, spans1, self.output@, self.spans@);
                if done {
                    lemma_doc_run_finish(s, limit, pos, m1, b1, spans1.len() as nat);
                } else {
                    lemma_doc_run_next(s, limit, pos, m1, b1, spans1.len() as nat);
                }
            }
            if done {
                if state.root_seen && state.stack.len() == 0 {
                    proof {
                        lemma_xml_decoded_exists(s, limit, old(self).output@, old(self).spans@, self.output@, self.spans@);
                    }
                    return Ok(());
                } else {
                    return Err(invalid("truncated attachment XML response"));
                }
            }
        }
    }
}

} // verus!
