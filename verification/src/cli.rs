//! The command-line actions and flag groups whose meaning the library
//! defines: bug templates, saved-query run overrides, and the action enums
//! a front end parses arguments into.

use vstd::prelude::*;

verus! {

/// `whoami` actions.
pub enum WhoamiAction {
    /// Show the login, real name and email of the authenticated user.
    Show,
}

/// `query` actions: save, list, show, delete and run named queries.
pub enum QueryAction {
    Save {
        name: String,
        from_url: Option<String>,
        search: Option<String>,
        product: Vec<String>,
        component: Vec<String>,
        status: Vec<String>,
        assignee: Vec<String>,
        creator: Vec<String>,
        priority: Vec<String>,
        severity: Vec<String>,
        limit: Option<u32>,
        fields: Option<String>,
        exclude_fields: Option<String>,
        created_since: Option<String>,
        changed_since: Option<String>,
        whiteboard: Vec<String>,
        target_milestone: Vec<String>,
        version: Vec<String>,
        op_sys: Vec<String>,
        platform: Vec<String>,
        resolution: Vec<String>,
        qa_contact: Vec<String>,
        url: Vec<String>,
    },
    List,
    Show { name: String },
    Delete { name: String },
    Run {
        name: String,
        limit: Option<u32>,
        fields: Option<String>,
        exclude_fields: Option<String>,
        server: Option<String>,
        created_since: Option<String>,
        changed_since: Option<String>,
        whiteboard: Vec<String>,
        target_milestone: Vec<String>,
        version: Vec<String>,
        op_sys: Vec<String>,
        platform: Vec<String>,
        resolution: Vec<String>,
        qa_contact: Vec<String>,
        url: Vec<String>,
    },
}

/// Reusable defaults for creating a bug.
pub struct BugTemplate {
    pub product: Option<String>,
    pub component: Option<String>,
    pub version: Option<String>,
    pub priority: Option<String>,
    pub severity: Option<String>,
    pub assignee: Option<String>,
    pub op_sys: Option<String>,
    pub rep_platform: Option<String>,
    pub description: Option<String>,
    pub url: Option<String>,
    pub whiteboard: Option<String>,
    pub target_milestone: Option<String>,
    pub deadline: Option<String>,
    pub cc: Vec<String>,
    pub keywords: Vec<String>,
    pub groups: Vec<String>,
    pub flags: Vec<String>,
}

/// Whether a template sets no field at all.
pub open spec fn template_empty(t: BugTemplate) -> bool {
    &&& t.product is None
    &&& t.component is None
    &&& t.version is None
    &&& t.priority is None
    &&& t.severity is None
    &&& t.assignee is None
    &&& t.op_sys is None
    &&& t.rep_platform is None
    &&& t.description is None
    &&& t.url is None
    &&& t.whiteboard is None
    &&& t.target_milestone is None
    &&& t.deadline is None
    &&& t.cc@.len() == 0
    &&& t.keywords@.len() == 0
    &&& t.groups@.len() == 0
    &&& t.flags@.len() == 0
}

impl BugTemplate {
    pub fn is_empty(&self) -> (r: bool)
        ensures
            r == template_empty(*self),
    {
        self.product.is_none() && self.component.is_none() && self.version.is_none()
            && self.priority.is_none() && self.severity.is_none() && self.assignee.is_none()
            && self.op_sys.is_none() && self.rep_platform.is_none() && self.description.is_none()
            && self.url.is_none() && self.whiteboard.is_none() && self.target_milestone.is_none()
            && self.deadline.is_none() && self.cc.len() == 0 && self.keywords.len() == 0
            && self.groups.len() == 0 && self.flags.len() == 0
    }
}

/// The default-field flags shared by `template save` and `template update`.
pub struct TemplateFields {
    pub product: Option<String>,
    pub component: Option<String>,
    pub version: Option<String>,
    pub priority: Option<String>,
    pub severity: Option<String>,
    pub assignee: Option<String>,
    pub op_sys: Option<String>,
    pub rep_platform: Option<String>,
    pub description: Option<String>,
    pub url: Option<String>,
    pub whiteboard: Option<String>,
    pub target_milestone: Option<String>,
    pub deadline: Option<String>,
    pub cc: Vec<String>,
    pub keywords: Vec<String>,
    pub groups: Vec<String>,
    pub flag: Vec<String>,
}

pub open spec fn opt_view(o: Option<String>) -> Option<Seq<char>> {
    match o {
        Some(s) => Some(s@),
        None => None,
    }
}

pub open spec fn strings_view(v: Vec<String>) -> Seq<Seq<char>> {
    v@.map_values(|s: String| s@)
}

fn copy_opt(o: &Option<String>) -> (r: Option<String>)
    ensures
        opt_view(r) == opt_view(*o),
{
    match o {
        Some(s) => Some(String::from_str(s.as_str())),
        None => None,
    }
}

fn copy_strings(v: &Vec<String>) -> (r: Vec<String>)
    ensures
        strings_view(r) == strings_view(*v),
        r@.len() == v@.len(),
{
    let mut r: Vec<String> = Vec::new();
    let mut i: usize = 0;
    while i < v.len()
        invariant
            i <= v@.len(),
            r@.len() == i,
            forall|j: int| 0 <= j < i ==> #[trigger] r@[j]@ == v@[j]@,
        decreases v@.len() - i,
    {
        r.push(String::from_str(v[i].as_str()));
        i = i + 1;
    }
    assert(strings_view(r) =~= strings_view(*v));
    r
}

/// Whether a template holds exactly the values of the flags, field by field
/// (`flag` becoming `flags`).
pub open spec fn template_of(f: TemplateFields, t: BugTemplate) -> bool {
    &&& opt_view(t.product) == opt_view(f.product)
    &&& opt_view(t.component) == opt_view(f.component)
    &&& opt_view(t.version) == opt_view(f.version)
    &&& opt_view(t.priority) == opt_view(f.priority)
    &&& opt_view(t.severity) == opt_view(f.severity)
    &&& opt_view(t.assignee) == opt_view(f.assignee)
    &&& opt_view(t.op_sys) == opt_view(f.op_sys)
    &&& opt_view(t.rep_platform) == opt_view(f.rep_platform)
    &&& opt_view(t.description) == opt_view(f.description)
    &&& opt_view(t.url) == opt_view(f.url)
    &&& opt_view(t.whiteboard) == opt_view(f.whiteboard)
    &&& opt_view(t.target_milestone) == opt_view(f.target_milestone)
    &&& opt_view(t.deadline) == opt_view(f.deadline)
    &&& strings_view(t.cc) == strings_view(f.cc)
    &&& strings_view(t.keywords) == strings_view(f.keywords)
    &&& strings_view(t.groups) == strings_view(f.groups)
    &&& strings_view(t.flags) == strings_view(f.flag)
}

/// Whether no template field flag was supplied.
pub open spec fn fields_empty(f: TemplateFields) -> bool {
    &&& f.product is None
    &&& f.component is None
    &&& f.version is None
    &&& f.priority is None
    &&& f.severity is None
    &&& f.assignee is None
    &&& f.op_sys is None
    &&& f.rep_platform is None
    &&& f.description is None
    &&& f.url is None
    &&& f.whiteboard is None
    &&& f.target_milestone is None
    &&& f.deadline is None
    &&& f.cc@.len() == 0
    &&& f.keywords@.len() == 0
    &&& f.groups@.len() == 0
    &&& f.flag@.len() == 0
}

impl TemplateFields {
    /// Builds the template these flags describe.
    pub fn to_template(&self) -> (t: BugTemplate)
        ensures
            template_of(*self, t),
            template_empty(t) == fields_empty(*self),
    {
        BugTemplate {
            product: copy_opt(&self.product),
            component: copy_opt(&self.component),
            version: copy_opt(&self.version),
            priority: copy_opt(&self.priority),
            severity: copy_opt(&self.severity),
            assignee: copy_opt(&self.assignee),
            op_sys: copy_opt(&self.op_sys),
            rep_platform: copy_opt(&self.rep_platform),
            description: copy_opt(&self.description),
            url: copy_opt(&self.url),
            whiteboard: copy_opt(&self.whiteboard),
            target_milestone: copy_opt(&self.target_milestone),
            deadline: copy_opt(&self.deadline),
            cc: copy_strings(&self.cc),
            keywords: copy_strings(&self.keywords),
            groups: copy_strings(&self.groups),
            flags: copy_strings(&self.flag),
        }
    }

    /// Whether no template field flag was supplied: the template these flags
    /// describe is empty.
    pub fn is_empty_change(&self) -> (r: bool)
        ensures
            r == fields_empty(*self),
    {
        self.to_template().is_empty()
    }
}

/// The run-time filter overrides of `query run`.
pub struct QueryRunFilterArgs {
    pub whiteboard: Vec<String>,
    pub target_milestone: Vec<String>,
    pub version: Vec<String>,
    pub op_sys: Vec<String>,
    pub platform: Vec<String>,
    pub resolution: Vec<String>,
    pub qa_contact: Vec<String>,
}

impl Default for QueryRunFilterArgs {
    fn default() -> (r: Self)
        ensures
            r.whiteboard@.len() == 0,
            r.target_milestone@.len() == 0,
            r.version@.len() == 0,
            r.op_sys@.len() == 0,
            r.platform@.len() == 0,
            r.resolution@.len() == 0,
            r.qa_contact@.len() == 0,
    {
        QueryRunFilterArgs {
            whiteboard: Vec::new(),
            target_milestone: Vec::new(),
            version: Vec::new(),
            op_sys: Vec::new(),
            platform: Vec::new(),
            resolution: Vec::new(),
            qa_contact: Vec::new(),
        }
    }
}

/// Filter values that replace a saved query's own: a field is `Some` only
/// when a value was given for it.
pub struct Overrides<'a> {
    pub whiteboard: Option<&'a [String]>,
    pub target_milestone: Option<&'a [String]>,
    pub version: Option<&'a [String]>,
    pub op_sys: Option<&'a [String]>,
    pub platform: Option<&'a [String]>,
    pub resolution: Option<&'a [String]>,
    pub qa_contact: Option<&'a [String]>,
    pub url: Option<&'a [String]>,
}

/// An override taken from a flag: present exactly when values were given.
pub open spec fn given(o: Option<&[String]>, v: Vec<String>) -> bool {
    if v@.len() == 0 {
        o is None
    } else {
        o matches Some(s) && s@ == v@
    }
}

fn nonempty<'a>(v: &'a Vec<String>) -> (r: Option<&'a [String]>)
    ensures
        given(r, *v),
{
    if v.len() == 0 {
        None
    } else {
        Some(v.as_slice())
    }
}

impl QueryRunFilterArgs {
    /// The overrides these flags (and the `--url` values) give.
    pub fn overrides<'a>(&'a self, url: &'a Vec<String>) -> (o: Overrides<'a>)
        ensures
            given(o.whiteboard, self.whiteboard),
            given(o.target_milestone, self.target_milestone),
            given(o.version, self.version),
            given(o.op_sys, self.op_sys),
            given(o.platform, self.platform),
            given(o.resolution, self.resolution),
            given(o.qa_contact, self.qa_contact),
            given(o.url, *url),
    {
        Overrides {
            whiteboard: nonempty(&self.whiteboard),
            target_milestone: nonempty(&self.target_milestone),
            version: nonempty(&self.version),
            op_sys: nonempty(&self.op_sys),
            platform: nonempty(&self.platform),
            resolution: nonempty(&self.resolution),
            qa_contact: nonempty(&self.qa_contact),
            url: nonempty(url),
        }
    }
}

} // verus!
