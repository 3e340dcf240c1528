//! Names and addresses that a manifest speaks of.
use crate::address::{parsed, url_parse};
use crate::request_builder::text_of;
use crate::text::{ends_with, starts_with, str_ends_with, str_starts_with};
use vstd::prelude::*;
use vstd::string::StringExecFns;

verus! {

/// ChRIS backend API URL.
#[derive(Debug, PartialEq, Eq, Hash)]
pub struct CubeUrl(String);

/// Why a text is no [`CubeUrl`].
#[derive(Clone, Copy, Debug, PartialEq, Eq, Structural)]
pub enum CubeUrlError {
    /// The text is not of the shape that a backend API URL has.
    PredicateViolated,
}

/// The shape that a backend API URL has: it begins with `http://`, or it
/// begins with `https://` and ends with `/api/v1/`.
pub open spec fn is_cube_url(s: Seq<char>) -> bool {
    starts_with(s, "http://"@) || (starts_with(s, "https://"@) && ends_with(s, "/api/v1/"@))
}

impl View for CubeUrl {
    type V = Seq<char>;

    closed spec fn view(&self) -> Seq<char> {
        self.0@
    }
}

impl CubeUrl {
    /// Takes `s` as a backend API URL if it has the shape of one.
    pub fn try_new(s: &str) -> (r: Result<CubeUrl, CubeUrlError>)
        ensures
            match r {
                Ok(url) => is_cube_url(s@) && url@ == s@,
                Err(e) => !is_cube_url(s@) && e == CubeUrlError::PredicateViolated,
            },
    {
        if str_starts_with(s, "http://") || (str_starts_with(s, "https://") && str_ends_with(
            s,
            "/api/v1/",
        )) {
            Ok(CubeUrl(String::from_str(s)))
        } else {
            Err(CubeUrlError::PredicateViolated)
        }
    }

    /// The text of this URL followed by `path`, letter for letter. The steps
    /// address their requests by the rules of URLs instead: see
    /// [`crate::address`].
    pub fn join(&self, path: &str) -> (joined: String)
        ensures
            joined@ == self@ + path@,
    {
        self.0.clone().concat(path)
    }

    /// The URL as the `url` crate writes it out, if the text is a URL at all.
    pub fn to_url(&self) -> (url: Option<String>)
        ensures
            text_of(url) == parsed(self@),
    {
        url_parse(self.0.as_str())
    }

    /// The URL's text.
    pub fn as_str(&self) -> (s: &str)
        ensures
            s@ == self@,
    {
        self.0.as_str()
    }

    /// Whether two URLs are the same text.
    pub fn same(&self, other: &CubeUrl) -> (b: bool)
        ensures
            b == (self@ == other@),
    {
        self.0 == other.0
    }
}

impl Clone for CubeUrl {
    fn clone(&self) -> (copy: Self)
        ensures
            copy@ == self@,
    {
        CubeUrl(self.0.clone())
    }
}

/// ChRIS user username.
#[derive(Debug, PartialEq, Eq, Hash)]
pub struct Username(String);

impl View for Username {
    type V = Seq<char>;

    closed spec fn view(&self) -> Seq<char> {
        self.0@
    }
}

impl Username {
    /// The user of that name.
    pub fn new(name: String) -> (username: Username)
        ensures
            username@ == name@,
    {
        Username(name)
    }

    /// The name's text.
    pub fn as_str(&self) -> (s: &str)
        ensures
            s@ == self@,
    {
        self.0.as_str()
    }

    /// The name as a `String`.
    pub fn into_inner(self) -> (name: String)
        ensures
            name@ == self@,
    {
        self.0
    }

    /// Whether two usernames are the same text.
    pub fn same(&self, other: &Username) -> (b: bool)
        ensures
            b == (self@ == other@),
    {
        self.0 == other.0
    }
}

impl Clone for Username {
    fn clone(&self) -> (copy: Self)
        ensures
            copy@ == self@,
    {
        Username(self.0.clone())
    }
}

/// ChRIS group name.
#[derive(Debug, PartialEq, Eq, Hash)]
pub struct Group(String);

impl View for Group {
    type V = Seq<char>;

    closed spec fn view(&self) -> Seq<char> {
        self.0@
    }
}

impl Group {
    /// The group of that name.
    pub fn new(name: String) -> (group: Group)
        ensures
            group@ == name@,
    {
        Group(name)
    }

    /// The name's text.
    pub fn as_str(&self) -> (s: &str)
        ensures
            s@ == self@,
    {
        self.0.as_str()
    }
}

impl Clone for Group {
    fn clone(&self) -> (copy: Self)
        ensures
            copy@ == self@,
    {
        Group(self.0.clone())
    }
}

/// Domain name to use for the email addresses of users.
#[derive(Debug, PartialEq, Eq, Hash)]
pub struct EmailDomain(String);

impl View for EmailDomain {
    type V = Seq<char>;

    closed spec fn view(&self) -> Seq<char> {
        self.0@
    }
}

impl EmailDomain {
    /// The domain of that name.
    pub fn new(name: String) -> (domain: EmailDomain)
        ensures
            domain@ == name@,
    {
        EmailDomain(name)
    }

    /// The name's text.
    pub fn as_str(&self) -> (s: &str)
        ensures
            s@ == self@,
    {
        self.0.as_str()
    }
}

impl Clone for EmailDomain {
    fn clone(&self) -> (copy: Self)
        ensures
            copy@ == self@,
    {
        EmailDomain(self.0.clone())
    }
}

/// Name of a compute resource of the ChRIS backend.
#[derive(Debug, PartialEq, Eq, Hash)]
pub struct ComputeResourceName(String);

impl View for ComputeResourceName {
    type V = Seq<char>;

    closed spec fn view(&self) -> Seq<char> {
        self.0@
    }
}

impl ComputeResourceName {
    /// The compute resource of that name.
    pub fn new(name: String) -> (resource: ComputeResourceName)
        ensures
            resource@ == name@,
    {
        ComputeResourceName(name)
    }

    /// The name's text.
    pub fn as_str(&self) -> (s: &str)
        ensures
            s@ == self@,
    {
        self.0.as_str()
    }

    /// Whether two names are the same text.
    pub fn same(&self, other: &ComputeResourceName) -> (b: bool)
        ensures
            b == (self@ == other@),
    {
        self.0 == other.0
    }
}

impl Clone for ComputeResourceName {
    fn clone(&self) -> (copy: Self)
        ensures
            copy@ == self@,
    {
        ComputeResourceName(self.0.clone())
    }
}

} // verus!
