//! What every step has in common: how a response is read, and what a step
//! says of the resource it looked for.
use crate::dependency::{entries_view, Dependency, DependencyView, Entries};
use vstd::prelude::*;
use vstd::string::StringExecFns;

verus! {

/// Status conveyed by HTTP response status code.
#[derive(Clone, Copy, Debug, PartialEq, Eq, Structural)]
pub enum StatusCheck {
    /// The resource exists and its body should be checked.
    Exists,
    /// The resource does not exist and needs to be created.
    DoesNotExist,
    /// There was an error.
    Error,
}

/// The status code is one of success: 200 to 299.
pub open spec fn is_success(status: u16) -> bool {
    200 <= status < 300
}

/// How a step reads a status code unless it has a rule of its own: success
/// means that the resource exists, anything else is an error.
pub open spec fn default_status_check(status: u16) -> StatusCheck {
    if is_success(status) {
        StatusCheck::Exists
    } else {
        StatusCheck::Error
    }
}

/// Reads a status code as most steps do.
pub fn check_status_default(status: u16) -> (check: StatusCheck)
    ensures
        check == default_status_check(status),
{
    if 200 <= status && status < 300 {
        StatusCheck::Exists
    } else {
        StatusCheck::Error
    }
}

/// Possible outcomes when checking for the existence of an API resource.
#[derive(Debug, PartialEq, Eq)]
pub enum Check {
    /// The resource exists and is correct.
    Exists(Entries),
    /// The resource exists and was modified.
    Modified(Entries),
    /// The resource does not exist and needs to be created.
    DoesNotExist,
    /// The resource exists but needs modification.
    NeedsModification,
}

/// What a [`Check`] says.
pub enum CheckView {
    Exists(Seq<(DependencyView, Seq<char>)>),
    Modified(Seq<(DependencyView, Seq<char>)>),
    DoesNotExist,
    NeedsModification,
}

impl View for Check {
    type V = CheckView;

    open spec fn view(&self) -> CheckView {
        match self {
            Check::Exists(entries) => CheckView::Exists(entries_view(entries@)),
            Check::Modified(entries) => CheckView::Modified(entries_view(entries@)),
            Check::DoesNotExist => CheckView::DoesNotExist,
            Check::NeedsModification => CheckView::NeedsModification,
        }
    }
}

/// The shape in which the body of a response is to be read.
#[derive(Clone, Copy, Debug, PartialEq, Eq, Structural)]
pub enum BodyKind {
    /// An authorization token.
    AuthToken,
    /// A user.
    User,
    /// The root of the API, with the links to its collections.
    Root,
    /// One page of a list of plugins.
    PluginList,
    /// A plugin.
    Plugin,
    /// The list of compute resources.
    ComputeResourceList,
}

/// What a response says of a plugin.
#[derive(Debug, PartialEq, Eq)]
pub struct PluginInfo {
    pub id: String,
    pub name: String,
    pub version: String,
    pub url: String,
}

/// What a [`PluginInfo`] says.
pub struct PluginInfoView {
    pub id: Seq<char>,
    pub name: Seq<char>,
    pub version: Seq<char>,
    pub url: Seq<char>,
}

impl View for PluginInfo {
    type V = PluginInfoView;

    open spec fn view(&self) -> PluginInfoView {
        PluginInfoView { id: self.id@, name: self.name@, version: self.version@, url: self.url@ }
    }
}

/// The body of a response, read in the shape that the step asked for.
#[derive(Debug, PartialEq, Eq)]
pub enum ResponseBody {
    /// An authorization token.
    AuthToken { token: String },
    /// A user: where it is found, its email address, where its groups are found.
    User { url: String, email: String, groups: String },
    /// The root of the API: where the user of the request is found.
    Root { user: String },
    /// One page of a list of plugins: its first item, if it has one.
    PluginList { first: Option<PluginInfo> },
    /// A plugin.
    Plugin(PluginInfo),
    /// The list of compute resources: their names.
    ComputeResourceList { names: Vec<String> },
}

/// The texts of a list of names, in order.
pub open spec fn name_texts(names: Seq<String>) -> Seq<Seq<char>> {
    names.map_values(|n: String| n@)
}

/// What a [`ResponseBody`] says.
pub enum ResponseBodyView {
    AuthToken { token: Seq<char> },
    User { url: Seq<char>, email: Seq<char>, groups: Seq<char> },
    Root { user: Seq<char> },
    PluginList { first: Option<PluginInfoView> },
    Plugin(PluginInfoView),
    ComputeResourceList { names: Seq<Seq<char>> },
}

impl View for ResponseBody {
    type V = ResponseBodyView;

    open spec fn view(&self) -> ResponseBodyView {
        match self {
            ResponseBody::AuthToken { token } => ResponseBodyView::AuthToken { token: token@ },
            ResponseBody::User { url, email, groups } => ResponseBodyView::User {
                url: url@,
                email: email@,
                groups: groups@,
            },
            ResponseBody::Root { user } => ResponseBodyView::Root { user: user@ },
            ResponseBody::PluginList { first } => ResponseBodyView::PluginList {
                first: match first {
                    Some(info) => Some(info@),
                    None => None,
                },
            },
            ResponseBody::Plugin(info) => ResponseBodyView::Plugin(info@),
            ResponseBody::ComputeResourceList { names } => ResponseBodyView::ComputeResourceList {
                names: name_texts(names@),
            },
        }
    }
}

/// `Authorization` header value with a token: the word `Token`, a space, and
/// the token.
#[derive(Debug, PartialEq, Eq)]
pub struct AuthTokenHeader(String);

impl View for AuthTokenHeader {
    type V = Seq<char>;

    closed spec fn view(&self) -> Seq<char> {
        self.0@
    }
}

impl AuthTokenHeader {
    /// The header value for a token.
    pub fn new(token: &str) -> (header: AuthTokenHeader)
        ensures
            header@ == "Token "@ + token@,
    {
        AuthTokenHeader(String::from_str("Token ").concat(token))
    }

    /// The header value's text.
    pub fn as_str(&self) -> (s: &str)
        ensures
            s@ == self@,
    {
        self.0.as_str()
    }

    /// The header value as a `String`.
    pub fn into_inner(self) -> (s: String)
        ensures
            s@ == self@,
    {
        self.0
    }
}

/// The message of the error for a body of another shape than the step asked for.
pub open spec fn unexpected_body() -> Seq<char> {
    "unexpected response body"@
}

} // verus!
