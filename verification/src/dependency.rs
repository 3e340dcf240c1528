//! The keys under which steps hand values to one another, and the API
//! resources that outcomes are reported against.
use crate::plugin_spec::{PluginSpec, PluginSpecView};
use crate::types::{ComputeResourceName, Username};
use vstd::prelude::*;

verus! {

/// Identifiers of data which a step might depend on.
#[derive(Debug, PartialEq, Eq, Hash)]
pub enum Dependency {
    /// A placeholder key which, if present, guarantees that the user exists.
    UserExists(Username),
    /// The `Authorization` header value of a user.
    AuthToken(Username),
    /// URL of a user.
    UserUrl(Username),
    /// URL of the groups of a user.
    UserGroupsUrl(Username),
    /// Email address of a user.
    UserEmail(Username),
    /// A placeholder key which, if present, says that the plugin was looked for.
    Plugin(PluginSpec),
    /// URL of plugin in targeted _CUBE_.
    PluginUrl(PluginSpec),
    /// Version of plugin in _CUBE_.
    PluginVersion(PluginSpec),
    /// URL of plugin in peer _CUBE_.
    PluginPeerUrl(PluginSpec),
    /// A placeholder key which, if present, says that the targeted _CUBE_ was
    /// searched for the plugin.
    PluginCheckedInLocal(PluginSpec),
    /// URL of a compute resource.
    ComputeResourceUrl(ComputeResourceName),
    /// CSV of all compute resource names.
    ComputeResourceAll,
    /// A placeholder key which indicates dependency on an admin user account.
    AdminCredentials,
    /// A placeholder key which indicates dependency on a peer _CUBE_ URL.
    PeerUrl,
}

/// What a [`Dependency`] says: its kind and the name it carries.
pub enum DependencyView {
    UserExists(Seq<char>),
    AuthToken(Seq<char>),
    UserUrl(Seq<char>),
    UserGroupsUrl(Seq<char>),
    UserEmail(Seq<char>),
    Plugin(PluginSpecView),
    PluginUrl(PluginSpecView),
    PluginVersion(PluginSpecView),
    PluginPeerUrl(PluginSpecView),
    PluginCheckedInLocal(PluginSpecView),
    ComputeResourceUrl(Seq<char>),
    ComputeResourceAll,
    AdminCredentials,
    PeerUrl,
}

impl View for Dependency {
    type V = DependencyView;

    open spec fn view(&self) -> DependencyView {
        match self {
            Dependency::UserExists(u) => DependencyView::UserExists(u@),
            Dependency::AuthToken(u) => DependencyView::AuthToken(u@),
            Dependency::UserUrl(u) => DependencyView::UserUrl(u@),
            Dependency::UserGroupsUrl(u) => DependencyView::UserGroupsUrl(u@),
            Dependency::UserEmail(u) => DependencyView::UserEmail(u@),
            Dependency::Plugin(p) => DependencyView::Plugin(p@),
            Dependency::PluginUrl(p) => DependencyView::PluginUrl(p@),
            Dependency::PluginVersion(p) => DependencyView::PluginVersion(p@),
            Dependency::PluginPeerUrl(p) => DependencyView::PluginPeerUrl(p@),
            Dependency::PluginCheckedInLocal(p) => DependencyView::PluginCheckedInLocal(p@),
            Dependency::ComputeResourceUrl(n) => DependencyView::ComputeResourceUrl(n@),
            Dependency::ComputeResourceAll => DependencyView::ComputeResourceAll,
            Dependency::AdminCredentials => DependencyView::AdminCredentials,
            Dependency::PeerUrl => DependencyView::PeerUrl,
        }
    }
}

/// Human-readable API resource identifier.
#[derive(Debug, PartialEq, Eq, Hash)]
pub enum Resource {
    /// A user account.
    User(Username),
    /// A plugin.
    Plugin(PluginSpec),
    /// A compute resource.
    ComputeResource(ComputeResourceName),
    /// The backend as a whole.
    Cube,
}

/// What a [`Resource`] says: its kind and the name it carries.
pub enum ResourceView {
    User(Seq<char>),
    Plugin(PluginSpecView),
    ComputeResource(Seq<char>),
    Cube,
}

impl View for Resource {
    type V = ResourceView;

    open spec fn view(&self) -> ResourceView {
        match self {
            Resource::User(u) => ResourceView::User(u@),
            Resource::Plugin(p) => ResourceView::Plugin(p@),
            Resource::ComputeResource(n) => ResourceView::ComputeResource(n@),
            Resource::Cube => ResourceView::Cube,
        }
    }
}

/// The API resource that a key is a fact about.
pub open spec fn resource_of(key: DependencyView) -> ResourceView {
    match key {
        DependencyView::UserExists(u) => ResourceView::User(u),
        DependencyView::AuthToken(u) => ResourceView::User(u),
        DependencyView::UserUrl(u) => ResourceView::User(u),
        DependencyView::UserGroupsUrl(u) => ResourceView::User(u),
        DependencyView::UserEmail(u) => ResourceView::User(u),
        DependencyView::Plugin(p) => ResourceView::Plugin(p),
        DependencyView::PluginUrl(p) => ResourceView::Plugin(p),
        DependencyView::PluginVersion(p) => ResourceView::Plugin(p),
        DependencyView::PluginPeerUrl(p) => ResourceView::Plugin(p),
        DependencyView::PluginCheckedInLocal(p) => ResourceView::Plugin(p),
        DependencyView::ComputeResourceUrl(n) => ResourceView::ComputeResource(n),
        DependencyView::ComputeResourceAll => ResourceView::Cube,
        DependencyView::AdminCredentials => ResourceView::Cube,
        DependencyView::PeerUrl => ResourceView::Cube,
    }
}

impl Dependency {
    /// Whether two keys are of one kind and carry the same name.
    pub fn same(&self, other: &Dependency) -> (b: bool)
        ensures
            b == (self@ == other@),
    {
        match (self, other) {
            (Dependency::UserExists(a), Dependency::UserExists(b)) => a.same(b),
            (Dependency::AuthToken(a), Dependency::AuthToken(b)) => a.same(b),
            (Dependency::UserUrl(a), Dependency::UserUrl(b)) => a.same(b),
            (Dependency::UserGroupsUrl(a), Dependency::UserGroupsUrl(b)) => a.same(b),
            (Dependency::UserEmail(a), Dependency::UserEmail(b)) => a.same(b),
            (Dependency::Plugin(a), Dependency::Plugin(b)) => a.same(b),
            (Dependency::PluginUrl(a), Dependency::PluginUrl(b)) => a.same(b),
            (Dependency::PluginVersion(a), Dependency::PluginVersion(b)) => a.same(b),
            (Dependency::PluginPeerUrl(a), Dependency::PluginPeerUrl(b)) => a.same(b),
            (Dependency::PluginCheckedInLocal(a), Dependency::PluginCheckedInLocal(b)) => a.same(
                b,
            ),
            (Dependency::ComputeResourceUrl(a), Dependency::ComputeResourceUrl(b)) => a.same(b),
            (Dependency::ComputeResourceAll, Dependency::ComputeResourceAll) => true,
            (Dependency::AdminCredentials, Dependency::AdminCredentials) => true,
            (Dependency::PeerUrl, Dependency::PeerUrl) => true,
            _ => false,
        }
    }

    /// The API resource that this key is a fact about.
    pub fn resource(&self) -> (target: Resource)
        ensures
            target@ == resource_of(self@),
    {
        match self {
            Dependency::UserExists(u) => Resource::User(u.clone()),
            Dependency::AuthToken(u) => Resource::User(u.clone()),
            Dependency::UserUrl(u) => Resource::User(u.clone()),
            Dependency::UserGroupsUrl(u) => Resource::User(u.clone()),
            Dependency::UserEmail(u) => Resource::User(u.clone()),
            Dependency::Plugin(p) => Resource::Plugin(p.clone()),
            Dependency::PluginUrl(p) => Resource::Plugin(p.clone()),
            Dependency::PluginVersion(p) => Resource::Plugin(p.clone()),
            Dependency::PluginPeerUrl(p) => Resource::Plugin(p.clone()),
            Dependency::PluginCheckedInLocal(p) => Resource::Plugin(p.clone()),
            Dependency::ComputeResourceUrl(n) => Resource::ComputeResource(n.clone()),
            Dependency::ComputeResourceAll => Resource::Cube,
            Dependency::AdminCredentials => Resource::Cube,
            Dependency::PeerUrl => Resource::Cube,
        }
    }
}

impl Clone for Dependency {
    fn clone(&self) -> (copy: Self)
        ensures
            copy@ == self@,
    {
        match self {
            Dependency::UserExists(u) => Dependency::UserExists(u.clone()),
            Dependency::AuthToken(u) => Dependency::AuthToken(u.clone()),
            Dependency::UserUrl(u) => Dependency::UserUrl(u.clone()),
            Dependency::UserGroupsUrl(u) => Dependency::UserGroupsUrl(u.clone()),
            Dependency::UserEmail(u) => Dependency::UserEmail(u.clone()),
            Dependency::Plugin(p) => Dependency::Plugin(p.clone()),
            Dependency::PluginUrl(p) => Dependency::PluginUrl(p.clone()),
            Dependency::PluginVersion(p) => Dependency::PluginVersion(p.clone()),
            Dependency::PluginPeerUrl(p) => Dependency::PluginPeerUrl(p.clone()),
            Dependency::PluginCheckedInLocal(p) => Dependency::PluginCheckedInLocal(p.clone()),
            Dependency::ComputeResourceUrl(n) => Dependency::ComputeResourceUrl(n.clone()),
            Dependency::ComputeResourceAll => Dependency::ComputeResourceAll,
            Dependency::AdminCredentials => Dependency::AdminCredentials,
            Dependency::PeerUrl => Dependency::PeerUrl,
        }
    }
}

impl Resource {
    /// Whether two resources are of one kind and carry the same name.
    pub fn same(&self, other: &Resource) -> (b: bool)
        ensures
            b == (self@ == other@),
    {
        match (self, other) {
            (Resource::User(a), Resource::User(b)) => a.same(b),
            (Resource::Plugin(a), Resource::Plugin(b)) => a.same(b),
            (Resource::ComputeResource(a), Resource::ComputeResource(b)) => a.same(b),
            (Resource::Cube, Resource::Cube) => true,
            _ => false,
        }
    }
}

impl Clone for Resource {
    fn clone(&self) -> (copy: Self)
        ensures
            copy@ == self@,
    {
        match self {
            Resource::User(u) => Resource::User(u.clone()),
            Resource::Plugin(p) => Resource::Plugin(p.clone()),
            Resource::ComputeResource(n) => Resource::ComputeResource(n.clone()),
            Resource::Cube => Resource::Cube,
        }
    }
}

/// [`Dependency`] and value pair.
pub type Entry = (Dependency, String);

/// Multiple [`Entry`].
pub type Entries = Vec<Entry>;

/// What a list of entries says: each key with its value, in order.
pub open spec fn entries_view(entries: Seq<Entry>) -> Seq<(DependencyView, Seq<char>)> {
    entries.map_values(|e: Entry| (e.0@, e.1@))
}

/// The keys of a list of entries, in order.
pub open spec fn keys_view(keys: Seq<Dependency>) -> Seq<DependencyView> {
    keys.map_values(|k: Dependency| k@)
}

} // verus!
