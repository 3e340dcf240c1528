//! The manifest: what a user asks the backend to hold.
use crate::types::{ComputeResourceName, CubeUrl, Username};
use vstd::prelude::*;

verus! {

/// Password or token for user authentication.
#[derive(Debug, PartialEq, Eq)]
pub enum PasswordOrToken {
    Password(String),
    Token(String),
}

/// What a [`PasswordOrToken`] says.
pub enum PasswordOrTokenView {
    Password(Seq<char>),
    Token(Seq<char>),
}

impl View for PasswordOrToken {
    type V = PasswordOrTokenView;

    open spec fn view(&self) -> PasswordOrTokenView {
        match self {
            PasswordOrToken::Password(p) => PasswordOrTokenView::Password(p@),
            PasswordOrToken::Token(t) => PasswordOrTokenView::Token(t@),
        }
    }
}

impl Clone for PasswordOrToken {
    fn clone(&self) -> (copy: Self)
        ensures
            copy@ == self@,
    {
        match self {
            PasswordOrToken::Password(p) => PasswordOrToken::Password(p.clone()),
            PasswordOrToken::Token(t) => PasswordOrToken::Token(t.clone()),
        }
    }
}

/// Username and password/token.
#[derive(Debug, PartialEq, Eq)]
pub struct UserCredentials {
    pub username: Username,
    pub secret: PasswordOrToken,
}

/// What [`UserCredentials`] say.
pub struct UserCredentialsView {
    pub username: Seq<char>,
    pub secret: PasswordOrTokenView,
}

impl View for UserCredentials {
    type V = UserCredentialsView;

    open spec fn view(&self) -> UserCredentialsView {
        UserCredentialsView { username: self.username@, secret: self.secret@ }
    }
}

impl UserCredentials {
    /// Credentials of a user who logs in with a password.
    pub fn basic_auth(username: Username, password: String) -> (credentials: Self)
        ensures
            credentials@ == (UserCredentialsView {
                username: username@,
                secret: PasswordOrTokenView::Password(password@),
            }),
    {
        UserCredentials { username, secret: PasswordOrToken::Password(password) }
    }
}

impl Clone for UserCredentials {
    fn clone(&self) -> (copy: Self)
        ensures
            copy@ == self@,
    {
        UserCredentials { username: self.username.clone(), secret: self.secret.clone() }
    }
}

/// The text of an optional string.
pub open spec fn opt_text(s: Option<String>) -> Option<Seq<char>> {
    match s {
        Some(s) => Some(s@),
        None => None,
    }
}

/// The text of an optional URL.
pub open spec fn opt_url(url: Option<CubeUrl>) -> Option<Seq<char>> {
    match url {
        Some(url) => Some(url@),
        None => None,
    }
}

/// What optional credentials say.
pub open spec fn opt_credentials(c: Option<UserCredentials>) -> Option<UserCredentialsView> {
    match c {
        Some(c) => Some(c@),
        None => None,
    }
}

/// The texts of a list of strings, in order.
pub open spec fn texts(list: Seq<String>) -> Seq<Seq<char>> {
    list.map_values(|s: String| s@)
}

/// Configuration of a [pfcon](https://github.com/FNNDSC/pfcon) to be
/// registered as a compute resource of _ChRIS_ backend.
#[derive(Debug, PartialEq, Eq)]
pub struct ComputeResource {
    pub url: String,
    pub auth_url: Option<String>,
    pub innetwork: Option<bool>,
    pub user: String,
    pub password: String,
    pub description: Option<String>,
    pub max_job_exec_seconds: Option<String>,
}

/// Configuration of a plugin to register.
#[derive(Debug, PartialEq, Eq)]
pub struct PluginConfig {
    /// Plugin name.
    pub name: String,
    /// Plugin version ([`None`] if use any plugin version).
    pub version: Option<String>,
    /// Name of compute resources to register this plugin to.
    /// If unspecified or empty, register the plugin to all compute resources.
    pub compute_resources: Vec<ComputeResourceName>,
}

/// What a [`PluginConfig`] says.
pub struct PluginConfigView {
    pub name: Seq<char>,
    pub version: Option<Seq<char>>,
    pub compute_resources: Seq<Seq<char>>,
}

impl View for PluginConfig {
    type V = PluginConfigView;

    open spec fn view(&self) -> PluginConfigView {
        PluginConfigView {
            name: self.name@,
            version: opt_text(self.version),
            compute_resources: self.compute_resources@.map_values(|n: ComputeResourceName| n@),
        }
    }
}

/// Given user details.
#[derive(Debug, PartialEq, Eq)]
pub struct GivenUserDetails {
    pub password: String,
    pub email: Option<String>,
    pub groups: Vec<String>,
}

/// Chrisomatic user details.
#[derive(Debug, PartialEq, Eq)]
pub struct UserDetails {
    pub password: String,
    pub email: String,
    pub groups: Vec<String>,
}

/// What [`UserDetails`] say.
pub struct UserDetailsView {
    pub password: Seq<char>,
    pub email: Seq<char>,
    pub groups: Seq<Seq<char>>,
}

impl View for UserDetails {
    type V = UserDetailsView;

    open spec fn view(&self) -> UserDetailsView {
        UserDetailsView { password: self.password@, email: self.email@, groups: texts(self.groups@) }
    }
}

/// User-supplied input for global configuration.
#[derive(Debug, PartialEq, Eq)]
pub struct GivenGlobal {
    /// URL of ChRIS backend (required, but sometimes can be inferred).
    pub cube: Option<CubeUrl>,
    /// Admin user credentials (optional, but required for adding new plugins).
    pub admin: Option<UserCredentials>,
    /// Domain name to use for emails of users with unspecified email.
    /// (Default: "example.org")
    pub email_domain: Option<String>,
    /// Public CUBE from where to get plugins from.
    /// (Default: "https://cube.chrisproject.org/api/v1/")
    pub peer: Option<CubeUrl>,
}

impl GivenGlobal {
    /// Returns `true` if nothing is given.
    pub fn is_none(&self) -> (b: bool)
        ensures
            b == (self.cube is None && self.admin is None && self.email_domain is None
                && self.peer is None),
    {
        self.cube.is_none() && self.admin.is_none() && self.email_domain.is_none()
            && self.peer.is_none()
    }
}

impl Default for GivenGlobal {
    fn default() -> (global: GivenGlobal)
        ensures
            global.cube is None,
            global.admin is None,
            global.email_domain is None,
            global.peer is None,
    {
        GivenGlobal { cube: None, admin: None, email_domain: None, peer: None }
    }
}

/// Chrisomatic global configuration options.
#[derive(Debug, PartialEq, Eq)]
pub struct Global {
    /// URL of ChRIS backend.
    pub cube: CubeUrl,
    /// Admin user credentials (required for adding new plugins).
    pub admin: Option<UserCredentials>,
    /// Domain name to use for emails of users with unspecified email.
    pub email_domain: String,
    /// Public CUBE from where to get plugins from.
    pub peer: Option<CubeUrl>,
}

/// The public _ChRIS_ backend, from where plugins are got by default.
pub fn public_cube() -> (url: Option<CubeUrl>)
    ensures
        url matches Some(url) && url@ == "https://cube.chrisproject.org/api/v1/"@,
{
    proof {
        let text = "https://cube.chrisproject.org/api/v1/"@;
        reveal_strlit("https://cube.chrisproject.org/api/v1/");
        reveal_strlit("https://");
        reveal_strlit("/api/v1/");
        assert(text.len() == 37);
        assert(text.subrange(0, 8) =~= "https://"@);
        assert(text.subrange(29, 37) =~= "/api/v1/"@);
        assert(crate::types::is_cube_url(text));
    }
    match CubeUrl::try_new("https://cube.chrisproject.org/api/v1/") {
        Ok(url) => Some(url),
        Err(_) => None,
    }
}

/// User-supplied input "manifest" for the _chrisomatic_ tool. A "manifest"
/// specifies desired state of the _ChRIS_ backend, e.g. what users, plugins,
/// etc. should exist.
///
/// [`Manifest`] is the validated data of `GivenManifest`. The difference
/// between the two is that `GivenManifest` has many [`Option`] fields for
/// user convenience.
#[derive(Debug, PartialEq, Eq)]
pub struct GivenManifest {
    /// Global configuration options.
    pub global: GivenGlobal,
    /// User accounts.
    pub user: Vec<(Username, GivenUserDetails)>,
    /// Configuration of _ChRIS_ backend compute resources.
    pub compute_resource: Vec<(ComputeResourceName, ComputeResource)>,
    /// List of plugins to register.
    pub plugins: Vec<PluginConfig>,
}

impl Default for GivenManifest {
    fn default() -> (manifest: GivenManifest)
        ensures
            manifest.global.cube is None,
            manifest.global.admin is None,
            manifest.global.email_domain is None,
            manifest.global.peer is None,
            manifest.user@.len() == 0,
            manifest.compute_resource@.len() == 0,
            manifest.plugins@.len() == 0,
    {
        GivenManifest {
            global: GivenGlobal::default(),
            user: Vec::new(),
            compute_resource: Vec::new(),
            plugins: Vec::new(),
        }
    }
}

/// Chrisomatic manifest.
#[derive(Debug, PartialEq, Eq)]
pub struct Manifest {
    pub global: Global,
    /// User accounts.
    pub user: Vec<(Username, UserDetails)>,
    /// Configuration of _ChRIS_ backend compute resources.
    pub compute_resource: Vec<(ComputeResourceName, ComputeResource)>,
    /// List of plugins to register.
    pub plugins: Vec<PluginConfig>,
}

impl Manifest {
    /// The manifest is well-formed: no two of its users carry one name, and
    /// no two of its compute resources.
    pub open spec fn wf(&self) -> bool {
        &&& forall|i: int, j: int|
            0 <= i < j < self.user@.len() ==> (#[trigger] self.user@[i]).0@ != (
            #[trigger] self.user@[j]).0@
        &&& forall|i: int, j: int|
            0 <= i < j < self.compute_resource@.len() ==> (#[trigger] self.compute_resource@[i]).0@
                != (#[trigger] self.compute_resource@[j]).0@
    }
}

} // verus!
