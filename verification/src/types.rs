//! The records the Bugzilla API exchanges, as plain values.

use vstd::prelude::*;

verus! {

/// The transport a client speaks to a server.
#[derive(Clone, Copy, Debug, PartialEq, Eq, Structural)]
pub enum ApiMode {
    Rest,
    XmlRpc,
    /// REST first, with XML-RPC where REST is known to fall short.
    Hybrid,
}

/// How the API key travels with a request.
#[derive(Clone, Copy, Debug, PartialEq, Eq, Structural)]
pub enum AuthMethod {
    /// In the `X-BUGZILLA-API-KEY` header.
    Header,
    /// In the `Bugzilla_api_key` query parameter.
    QueryParam,
}

/// A bug as a search or lookup returns it.
#[derive(Debug)]
pub struct Bug {
    pub id: u64,
    pub summary: String,
    pub status: String,
    pub resolution: Option<String>,
    pub product: Option<String>,
    pub component: Option<String>,
    pub assigned_to: Option<String>,
    pub priority: Option<String>,
    pub severity: Option<String>,
    pub creation_time: Option<String>,
    pub last_change_time: Option<String>,
    pub creator: Option<String>,
    pub url: Option<String>,
    pub whiteboard: Option<String>,
    pub keywords: Vec<String>,
    pub blocks: Vec<u64>,
    pub depends_on: Vec<u64>,
    pub cc: Vec<String>,
}

/// One comment on a bug.
pub struct Comment {
    pub id: u64,
    pub bug_id: u64,
    pub text: String,
    pub creator: Option<String>,
    pub creation_time: Option<String>,
    pub count: u64,
    pub is_private: bool,
}

/// The fields of a new bug.
pub struct CreateBugParams {
    pub product: String,
    pub component: String,
    pub summary: String,
    pub version: String,
    pub description: Option<String>,
    pub priority: Option<String>,
    pub severity: Option<String>,
    pub assigned_to: Option<String>,
}

/// A request to set, clear or ask for a flag.
pub struct FlagUpdate {
    pub name: String,
    pub status: String,
    pub requestee: Option<String>,
}

/// The changes to make to a bug.
pub struct UpdateBugParams {
    pub status: Option<String>,
    pub resolution: Option<String>,
    pub assigned_to: Option<String>,
    pub priority: Option<String>,
    pub severity: Option<String>,
    pub summary: Option<String>,
    pub whiteboard: Option<String>,
    pub flags: Vec<FlagUpdate>,
}

pub struct Component {
    pub id: u64,
    pub name: String,
    pub description: String,
    pub is_active: bool,
    pub default_assignee: Option<String>,
}

pub struct Version {
    pub id: u64,
    pub name: String,
    pub sort_key: u64,
    pub is_active: bool,
}

pub struct Milestone {
    pub id: u64,
    pub name: String,
    pub sort_key: u64,
    pub is_active: bool,
}

pub struct Product {
    pub id: u64,
    pub name: String,
    pub description: String,
    pub is_active: bool,
    pub components: Vec<Component>,
    pub versions: Vec<Version>,
    pub milestones: Vec<Milestone>,
}

/// A status that a field value can change to.
pub struct StatusTransition {
    pub name: String,
}

/// One legal value of a field. The status field's pseudo-entry for new bugs
/// has no name.
pub struct FieldValue {
    pub name: Option<String>,
    pub sort_key: u64,
    pub is_active: bool,
    pub can_change_to: Option<Vec<StatusTransition>>,
}

/// A status and the statuses it can change to.
pub struct StatusTransitionSummary {
    pub from: String,
    pub can_change_to: Vec<String>,
}

pub struct UserGroup {
    pub id: u64,
    pub name: String,
    pub description: String,
}

pub struct BugzillaUser {
    pub id: u64,
    pub name: String,
    pub real_name: Option<String>,
    pub email: Option<String>,
    pub groups: Vec<UserGroup>,
    pub can_login: Option<bool>,
}

pub struct WhoamiResponse {
    pub id: u64,
    pub name: String,
    pub real_name: Option<String>,
    pub login: Option<String>,
}

pub struct ServerVersion {
    pub version: String,
}

pub struct ExtensionInfo {
    pub version: Option<String>,
}

/// The installed extensions, by name.
pub struct ServerExtensions {
    pub extensions: Vec<(String, ExtensionInfo)>,
}

pub struct UpdateAttachmentParams {
    pub summary: Option<String>,
    pub file_name: Option<String>,
    pub content_type: Option<String>,
    pub is_obsolete: Option<bool>,
    pub is_patch: Option<bool>,
    pub is_private: Option<bool>,
    pub flags: Vec<FlagUpdate>,
}

pub struct CreateProductParams {
    pub name: String,
    pub description: String,
    pub version: String,
    pub is_open: bool,
}

pub struct UpdateProductParams {
    pub description: Option<String>,
    pub default_milestone: Option<String>,
    pub is_open: Option<bool>,
}

pub struct UpdateComponentParams {
    pub name: Option<String>,
    pub description: Option<String>,
    pub default_assignee: Option<String>,
}

pub struct CreateUserParams {
    pub email: String,
    pub full_name: Option<String>,
    pub password: Option<String>,
}

pub struct UpdateUserParams {
    pub real_name: Option<String>,
    pub email: Option<String>,
    pub login_denied_text: Option<String>,
}

pub struct UpdateGroupParams {
    pub description: Option<String>,
    pub is_active: Option<bool>,
}

pub struct GroupMember {
    pub id: u64,
    pub name: String,
    pub real_name: Option<String>,
    pub email: Option<String>,
}

pub struct GroupInfo {
    pub id: u64,
    pub name: String,
    pub description: String,
    pub is_active: bool,
    pub membership: Vec<GroupMember>,
}

pub struct ClassificationProduct {
    pub id: u64,
    pub name: String,
    pub description: String,
}

pub struct Classification {
    pub id: u64,
    pub name: String,
    pub description: String,
    pub sort_key: u64,
    pub products: Vec<ClassificationProduct>,
}

pub struct FieldChange {
    pub field_name: String,
    pub removed: String,
    pub added: String,
    pub attachment_id: Option<u64>,
}

pub struct HistoryEntry {
    pub who: String,
    pub when: String,
    pub changes: Vec<FieldChange>,
}

#[derive(Debug)]
pub struct Attachment {
    pub id: u64,
    pub bug_id: u64,
    pub file_name: String,
    pub summary: String,
    pub content_type: String,
    pub creator: Option<String>,
    pub creation_time: Option<String>,
    pub last_change_time: Option<String>,
    pub size: u64,
    pub is_obsolete: bool,
    pub is_private: bool,
    pub data: Option<String>,
}

/// How much of each user an API that returns users should include.
#[derive(Clone, Copy, Debug, PartialEq, Eq, Structural)]
pub enum UserDetailLevel {
    Basic,
    Detailed,
}

pub open spec fn user_fields_basic() -> Seq<char> {
    "id,name,real_name,email,groups"@
}

pub open spec fn user_fields_detailed() -> Seq<char> {
    "id,name,real_name,email,can_login,groups"@
}

impl UserDetailLevel {
    /// The `include_fields` list for this level.
    pub fn include_fields(self) -> (s: &'static str)
        ensures
            s@ == match self {
                UserDetailLevel::Basic => user_fields_basic(),
                UserDetailLevel::Detailed => user_fields_detailed(),
            },
    {
        match self {
            UserDetailLevel::Basic => "id,name,real_name,email,groups",
            UserDetailLevel::Detailed => "id,name,real_name,email,can_login,groups",
        }
    }
}

} // verus!
