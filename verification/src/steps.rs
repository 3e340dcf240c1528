//! The steps that the planner knows, before and after their dependencies are
//! resolved.
//!
//! Naming convention: noun before verb.
pub mod compute;
pub mod plugin;
pub mod user;

use crate::dependency::resource_of;
use crate::dependency::{entries_view, Dependency, DependencyView, Entries, Resource};
use crate::effect::{Method, StepError, StepErrorView};
use crate::plugin_spec::{PluginSpec, PluginSpecView};
use crate::request_builder::{request_of, Request, RequestView};
use crate::spec::{UserCredentials, UserCredentialsView};
use crate::state::{Answers, DependencyMap};
use crate::provided::{keys_new, keys_push, provided_keys};
use crate::step::{check_status_default, default_status_check, unexpected_body};
use crate::step::{BodyKind, Check, CheckView, ResponseBody, ResponseBodyView};
use nonempty::NonEmpty;
use crate::step::StatusCheck;
use crate::types::{ComputeResourceName, CubeUrl, Username};
use std::rc::Rc;
use vstd::prelude::*;
use vstd::string::StringExecFns;

verus! {

/// What the steps for one user work from.
#[derive(Debug, PartialEq, Eq)]
pub struct UserTask {
    pub username: Username,
    pub password: String,
    pub email: String,
    pub url: CubeUrl,
}

/// What a [`UserTask`] says.
pub struct UserTaskView {
    pub username: Seq<char>,
    pub password: Seq<char>,
    pub email: Seq<char>,
    pub url: Seq<char>,
}

impl View for UserTask {
    type V = UserTaskView;

    open spec fn view(&self) -> UserTaskView {
        UserTaskView {
            username: self.username@,
            password: self.password@,
            email: self.email@,
            url: self.url@,
        }
    }
}

impl Clone for UserTask {
    fn clone(&self) -> (copy: Self)
        ensures
            copy@ == self@,
    {
        UserTask {
            username: self.username.clone(),
            password: self.password.clone(),
            email: self.email.clone(),
            url: self.url.clone(),
        }
    }
}

/// What the steps for one plugin work from.
#[derive(Debug, PartialEq, Eq)]
pub struct PluginTask {
    /// The backend to register the plugin in.
    pub url: CubeUrl,
    /// The backend to get the plugin from.
    pub peer: Option<CubeUrl>,
    pub plugin: PluginSpec,
    /// The account that registers plugins.
    pub admin: Option<UserCredentials>,
    /// The compute resources to register the plugin to; all, if none is named.
    pub compute_names: Vec<ComputeResourceName>,
}

/// What a [`PluginTask`] says.
pub struct PluginTaskView {
    pub url: Seq<char>,
    pub peer: Option<Seq<char>>,
    pub plugin: PluginSpecView,
    pub admin: Option<UserCredentialsView>,
    pub compute_names: Seq<Seq<char>>,
}

/// The names of a list of compute resources, in order.
pub open spec fn names_view(names: Seq<ComputeResourceName>) -> Seq<Seq<char>> {
    names.map_values(|n: ComputeResourceName| n@)
}

impl View for PluginTask {
    type V = PluginTaskView;

    open spec fn view(&self) -> PluginTaskView {
        PluginTaskView {
            url: self.url@,
            peer: match self.peer {
                Some(peer) => Some(peer@),
                None => None,
            },
            plugin: self.plugin@,
            admin: match self.admin {
                Some(admin) => Some(admin@),
                None => None,
            },
            compute_names: names_view(self.compute_names@),
        }
    }
}

/// A copy of a list of names.
pub fn clone_names(names: &Vec<ComputeResourceName>) -> (copy: Vec<ComputeResourceName>)
    ensures
        names_view(copy@) == names_view(names@),
{
    let mut copy: Vec<ComputeResourceName> = Vec::new();
    let mut i: usize = 0;
    while i < names.len()
        invariant
            i <= names@.len(),
            copy@.len() == i,
            forall|j: int| 0 <= j < i ==> copy@[j]@ == names@[j]@,
        decreases names@.len() - i,
    {
        copy.push(names[i].clone());
        i += 1;
    }
    assert(names_view(copy@) =~= names_view(names@));
    copy
}

impl Clone for PluginTask {
    fn clone(&self) -> (copy: Self)
        ensures
            copy@ == self@,
    {
        PluginTask {
            url: self.url.clone(),
            peer: match &self.peer {
                Some(peer) => Some(peer.clone()),
                None => None,
            },
            plugin: self.plugin.clone(),
            admin: match &self.admin {
                Some(admin) => Some(admin.clone()),
                None => None,
            },
            compute_names: clone_names(&self.compute_names),
        }
    }
}

/// What the step for the backend's compute resources works from.
#[derive(Debug, PartialEq, Eq)]
pub struct CubeTask {
    /// The backend.
    pub url: CubeUrl,
    /// The account that asks, if there is one.
    pub admin: Option<UserCredentials>,
}

/// What a [`CubeTask`] says.
pub struct CubeTaskView {
    pub url: Seq<char>,
    pub admin: Option<UserCredentialsView>,
}

impl View for CubeTask {
    type V = CubeTaskView;

    open spec fn view(&self) -> CubeTaskView {
        CubeTaskView {
            url: self.url@,
            admin: match self.admin {
                Some(admin) => Some(admin@),
                None => None,
            },
        }
    }
}

impl Clone for CubeTask {
    fn clone(&self) -> (copy: Self)
        ensures
            copy@ == self@,
    {
        CubeTask {
            url: self.url.clone(),
            admin: match &self.admin {
                Some(admin) => Some(admin.clone()),
                None => None,
            },
        }
    }
}

/// A `PendingStep` represents a [`Step`] with data dependencies: a unit of
/// work before the values that it needs are known.
#[derive(Debug, PartialEq, Eq)]
pub enum PendingStep {
    /// Make sure that the user exists.
    UserExists(UserTask),
    /// Get the user's authorization token.
    UserGetAuthToken(UserTask),
    /// Find where the user is found in the API.
    UserGetUrl(UserTask),
    /// Get the user's email address and groups.
    UserGetDetails(UserTask),
    /// Set the user's email address to the one specified.
    UserDetailsFinalize(UserTask),
    /// Look for the plugin in the targeted backend.
    PluginFindInLocal(PluginTask),
    /// Look for the plugin in the peer backend.
    PluginFindInPeer(PluginTask),
    /// Register the plugin in the targeted backend, from the peer.
    PluginAddFromPeer(PluginTask),
    /// List the compute resources of the backend.
    ComputeResourceGetAll(CubeTask),
}

/// What a [`PendingStep`] says.
pub enum PendingStepView {
    UserExists(UserTaskView),
    UserGetAuthToken(UserTaskView),
    UserGetUrl(UserTaskView),
    UserGetDetails(UserTaskView),
    UserDetailsFinalize(UserTaskView),
    PluginFindInLocal(PluginTaskView),
    PluginFindInPeer(PluginTaskView),
    PluginAddFromPeer(PluginTaskView),
    ComputeResourceGetAll(CubeTaskView),
}

impl View for PendingStep {
    type V = PendingStepView;

    open spec fn view(&self) -> PendingStepView {
        match self {
            PendingStep::UserExists(t) => PendingStepView::UserExists(t@),
            PendingStep::UserGetAuthToken(t) => PendingStepView::UserGetAuthToken(t@),
            PendingStep::UserGetUrl(t) => PendingStepView::UserGetUrl(t@),
            PendingStep::UserGetDetails(t) => PendingStepView::UserGetDetails(t@),
            PendingStep::UserDetailsFinalize(t) => PendingStepView::UserDetailsFinalize(t@),
            PendingStep::PluginFindInLocal(t) => PendingStepView::PluginFindInLocal(t@),
            PendingStep::PluginFindInPeer(t) => PendingStepView::PluginFindInPeer(t@),
            PendingStep::PluginAddFromPeer(t) => PendingStepView::PluginAddFromPeer(t@),
            PendingStep::ComputeResourceGetAll(t) => PendingStepView::ComputeResourceGetAll(t@),
        }
    }
}

impl Clone for PendingStep {
    fn clone(&self) -> (copy: Self)
        ensures
            copy@ == self@,
    {
        match self {
            PendingStep::UserExists(t) => PendingStep::UserExists(t.clone()),
            PendingStep::UserGetAuthToken(t) => PendingStep::UserGetAuthToken(t.clone()),
            PendingStep::UserGetUrl(t) => PendingStep::UserGetUrl(t.clone()),
            PendingStep::UserGetDetails(t) => PendingStep::UserGetDetails(t.clone()),
            PendingStep::UserDetailsFinalize(t) => PendingStep::UserDetailsFinalize(t.clone()),
            PendingStep::PluginFindInLocal(t) => PendingStep::PluginFindInLocal(t.clone()),
            PendingStep::PluginFindInPeer(t) => PendingStep::PluginFindInPeer(t.clone()),
            PendingStep::PluginAddFromPeer(t) => PendingStep::PluginAddFromPeer(t.clone()),
            PendingStep::ComputeResourceGetAll(t) => PendingStep::ComputeResourceGetAll(t.clone()),
        }
    }
}

/// A `Step` defines a set of operations against the _CUBE_ API regarding a
/// specific resource:
///
/// 1. **search** whether the specified resource already exists
/// 2. **modify** an existing resource to match the spec
/// 3. **create** a resource matching the spec
///
/// It holds every value that these operations need.
#[derive(Debug, PartialEq, Eq)]
#[allow(inconsistent_fields)]
pub enum Step {
    /// Make sure a user exists: obtain the user's authorization token, or
    /// create the user.
    UserExists(UserTask),
    /// Get the user's authorization token.
    UserGetAuthToken(UserTask),
    /// Find where the user is found in the API.
    UserGetUrl { task: UserTask, auth_token: Rc<String> },
    /// Get the user's email address and groups.
    UserGetDetails { task: UserTask, user_url: Rc<String>, auth_token: Rc<String> },
    /// Set the user's email (of a user which already exists).
    UserSetEmail { task: UserTask, user_url: Rc<String>, auth_token: Rc<String> },
    /// Find the plugin in the targeted backend.
    PluginFindInLocal(PluginTask),
    /// Find the plugin in the peer backend.
    PluginFindInPeer { task: PluginTask, peer: CubeUrl },
    /// Register the plugin in the targeted backend, from the peer.
    PluginAddFromPeer {
        task: PluginTask,
        admin: UserCredentials,
        plugin_peer_url: Rc<String>,
        compute_names_csv: String,
    },
    /// List the compute resources of the backend.
    ComputeResourceGetAll(CubeTask),
}

/// What a [`Step`] says.
#[allow(inconsistent_fields)]
pub enum StepView {
    UserExists(UserTaskView),
    UserGetAuthToken(UserTaskView),
    UserGetUrl { task: UserTaskView, auth_token: Seq<char> },
    UserGetDetails { task: UserTaskView, user_url: Seq<char>, auth_token: Seq<char> },
    UserSetEmail { task: UserTaskView, user_url: Seq<char>, auth_token: Seq<char> },
    PluginFindInLocal(PluginTaskView),
    PluginFindInPeer { task: PluginTaskView, peer: Seq<char> },
    PluginAddFromPeer {
        task: PluginTaskView,
        admin: UserCredentialsView,
        plugin_peer_url: Seq<char>,
        compute_names_csv: Seq<char>,
    },
    ComputeResourceGetAll(CubeTaskView),
}

impl View for Step {
    type V = StepView;

    open spec fn view(&self) -> StepView {
        match self {
            Step::UserExists(t) => StepView::UserExists(t@),
            Step::UserGetAuthToken(t) => StepView::UserGetAuthToken(t@),
            Step::UserGetUrl { task, auth_token } => StepView::UserGetUrl {
                task: task@,
                auth_token: auth_token@,
            },
            Step::UserGetDetails { task, user_url, auth_token } => StepView::UserGetDetails {
                task: task@,
                user_url: user_url@,
                auth_token: auth_token@,
            },
            Step::UserSetEmail { task, user_url, auth_token } => StepView::UserSetEmail {
                task: task@,
                user_url: user_url@,
                auth_token: auth_token@,
            },
            Step::PluginFindInLocal(t) => StepView::PluginFindInLocal(t@),
            Step::PluginFindInPeer { task, peer } => StepView::PluginFindInPeer {
                task: task@,
                peer: peer@,
            },
            Step::PluginAddFromPeer {
                task,
                admin,
                plugin_peer_url,
                compute_names_csv,
            } => StepView::PluginAddFromPeer {
                task: task@,
                admin: admin@,
                plugin_peer_url: plugin_peer_url@,
                compute_names_csv: compute_names_csv@,
            },
            Step::ComputeResourceGetAll(t) => StepView::ComputeResourceGetAll(t@),
        }
    }
}

/// Return type of [`PendingStep::evaluate`].
///
/// - [`Err`] indicates the step has an unfulfilled dependency.
/// - [`None`] indicates the step is redundant.
/// - [`Some`] indicates the step can run.
pub type PendingStepResult = Result<Option<Step>, Dependency>;

/// What evaluating a pending step gives.
pub enum EvaluationView {
    /// A value that the step needs is missing: the key tells which.
    Unfulfilled(DependencyView),
    /// What the step would establish is there already.
    Skip,
    /// The step can run.
    Run(StepView),
}

/// What a [`PendingStepResult`] says.
pub open spec fn evaluation_view(r: PendingStepResult) -> EvaluationView {
    match r {
        Err(missing) => EvaluationView::Unfulfilled(missing@),
        Ok(None) => EvaluationView::Skip,
        Ok(Some(step)) => EvaluationView::Run(step@),
    }
}

/// The names, with a comma between one and the next.
pub open spec fn join_names(names: Seq<Seq<char>>) -> Seq<char>
    decreases names.len(),
{
    if names.len() == 0 {
        Seq::empty()
    } else if names.len() == 1 {
        names[0]
    } else {
        join_names(names.drop_last()) + ","@ + names.last()
    }
}

/// The keys that a pending step pledges: the step that it resolves to puts a
/// value under each of them whenever it succeeds. The first one names the
/// resource that the step is about.
pub open spec fn pledged(ps: PendingStepView) -> Seq<DependencyView> {
    match ps {
        PendingStepView::UserExists(t) => seq![DependencyView::UserExists(t.username)],
        PendingStepView::UserGetAuthToken(t) => seq![
            DependencyView::UserExists(t.username),
            DependencyView::AuthToken(t.username),
        ],
        PendingStepView::UserGetUrl(t) => seq![
            DependencyView::UserExists(t.username),
            DependencyView::UserUrl(t.username),
        ],
        PendingStepView::UserGetDetails(t) => seq![
            DependencyView::UserExists(t.username),
            DependencyView::UserUrl(t.username),
            DependencyView::UserEmail(t.username),
            DependencyView::UserGroupsUrl(t.username),
        ],
        PendingStepView::UserDetailsFinalize(t) => seq![
            DependencyView::UserExists(t.username),
            DependencyView::UserUrl(t.username),
            DependencyView::UserEmail(t.username),
            DependencyView::UserGroupsUrl(t.username),
        ],
        PendingStepView::PluginFindInLocal(t) => seq![
            DependencyView::Plugin(t.plugin),
            DependencyView::PluginCheckedInLocal(t.plugin),
        ],
        PendingStepView::PluginFindInPeer(t) => seq![
            DependencyView::Plugin(t.plugin),
            DependencyView::PluginPeerUrl(t.plugin),
        ],
        PendingStepView::PluginAddFromPeer(t) => seq![
            DependencyView::Plugin(t.plugin),
            DependencyView::PluginUrl(t.plugin),
            DependencyView::PluginVersion(t.plugin),
        ],
        PendingStepView::ComputeResourceGetAll(t) => seq![DependencyView::ComputeResourceAll],
    }
}

/// The keys of a step's chain: every key that one of the steps for the same
/// user, or for the same plugin, pledges; the step that lists the compute
/// resources is a chain of its own.
pub open spec fn chain_keys(ps: PendingStepView) -> Seq<DependencyView> {
    match ps {
        PendingStepView::UserExists(t) => user_chain_keys(t.username),
        PendingStepView::UserGetAuthToken(t) => user_chain_keys(t.username),
        PendingStepView::UserGetUrl(t) => user_chain_keys(t.username),
        PendingStepView::UserGetDetails(t) => user_chain_keys(t.username),
        PendingStepView::UserDetailsFinalize(t) => user_chain_keys(t.username),
        PendingStepView::PluginFindInLocal(t) => plugin_chain_keys(t.plugin),
        PendingStepView::PluginFindInPeer(t) => plugin_chain_keys(t.plugin),
        PendingStepView::PluginAddFromPeer(t) => plugin_chain_keys(t.plugin),
        PendingStepView::ComputeResourceGetAll(t) => seq![DependencyView::ComputeResourceAll],
    }
}

/// The keys that the steps for a user pledge.
pub open spec fn user_chain_keys(username: Seq<char>) -> Seq<DependencyView> {
    seq![
        DependencyView::UserExists(username),
        DependencyView::AuthToken(username),
        DependencyView::UserUrl(username),
        DependencyView::UserEmail(username),
        DependencyView::UserGroupsUrl(username),
    ]
}

/// The keys that the steps for a plugin pledge.
pub open spec fn plugin_chain_keys(plugin: PluginSpecView) -> Seq<DependencyView> {
    seq![
        DependencyView::Plugin(plugin),
        DependencyView::PluginCheckedInLocal(plugin),
        DependencyView::PluginUrl(plugin),
        DependencyView::PluginVersion(plugin),
        DependencyView::PluginPeerUrl(plugin),
    ]
}

/// The pending step that a step came from, without the values it resolved.
pub open spec fn pending_of(step: StepView) -> PendingStepView {
    match step {
        StepView::UserExists(t) => PendingStepView::UserExists(t),
        StepView::UserGetAuthToken(t) => PendingStepView::UserGetAuthToken(t),
        StepView::UserGetUrl { task, .. } => PendingStepView::UserGetUrl(task),
        StepView::UserGetDetails { task, .. } => PendingStepView::UserGetDetails(task),
        StepView::UserSetEmail { task, .. } => PendingStepView::UserDetailsFinalize(task),
        StepView::PluginFindInLocal(t) => PendingStepView::PluginFindInLocal(t),
        StepView::PluginFindInPeer { task, .. } => PendingStepView::PluginFindInPeer(task),
        StepView::PluginAddFromPeer { task, .. } => PendingStepView::PluginAddFromPeer(task),
        StepView::ComputeResourceGetAll(t) => PendingStepView::ComputeResourceGetAll(t),
    }
}

/// The keys that a step provides: those that its pending step pledged.
pub open spec fn step_provides(step: StepView) -> Seq<DependencyView> {
    pledged(pending_of(step))
}

/// The map has a value for the key.
pub open spec fn known(a: Answers, k: DependencyView) -> bool {
    a.values.dom().contains(k)
}

/// What evaluating a pending step against a map gives, and the keys that it
/// asks the map's values for on the way, in order.
///
/// A step for a user that depends on another first asks for the key that says
/// that the user exists. A step is skipped where the map says that it
/// contains what the step is there to find. Then the step asks for the values
/// it works with. The first key without a value is the one reported.
pub open spec fn evaluate_full(ps: PendingStepView, a: Answers) -> (
    EvaluationView,
    Seq<DependencyView>,
) {
    match ps {
        PendingStepView::UserExists(t) => {
            if a.has.contains(DependencyView::UserExists(t.username)) {
                (EvaluationView::Skip, seq![])
            } else {
                (EvaluationView::Run(StepView::UserExists(t)), seq![])
            }
        },
        PendingStepView::UserGetAuthToken(t) => {
            let exists = DependencyView::UserExists(t.username);
            if !known(a, exists) {
                (EvaluationView::Unfulfilled(exists), seq![exists])
            } else if a.has.contains(DependencyView::AuthToken(t.username)) {
                (EvaluationView::Skip, seq![exists])
            } else {
                (EvaluationView::Run(StepView::UserGetAuthToken(t)), seq![exists])
            }
        },
        PendingStepView::UserGetUrl(t) => {
            let exists = DependencyView::UserExists(t.username);
            let token = DependencyView::AuthToken(t.username);
            if !known(a, exists) {
                (EvaluationView::Unfulfilled(exists), seq![exists])
            } else if a.has.contains(DependencyView::UserUrl(t.username)) {
                (EvaluationView::Skip, seq![exists])
            } else if !known(a, token) {
                (EvaluationView::Unfulfilled(token), seq![exists, token])
            } else {
                (
                    EvaluationView::Run(
                        StepView::UserGetUrl { task: t, auth_token: a.values[token] },
                    ),
                    seq![exists, token],
                )
            }
        },
        PendingStepView::UserGetDetails(t) => {
            let exists = DependencyView::UserExists(t.username);
            let url = DependencyView::UserUrl(t.username);
            let token = DependencyView::AuthToken(t.username);
            if !known(a, exists) {
                (EvaluationView::Unfulfilled(exists), seq![exists])
            } else if known(a, url) && a.has.contains(DependencyView::UserGroupsUrl(t.username))
                && a.has.contains(DependencyView::UserEmail(t.username)) {
                (EvaluationView::Skip, seq![exists, url])
            } else if !known(a, token) {
                (EvaluationView::Unfulfilled(token), seq![exists, url, token])
            } else if !known(a, url) {
                (EvaluationView::Unfulfilled(url), seq![exists, url, token])
            } else {
                (
                    EvaluationView::Run(
                        StepView::UserGetDetails {
                            task: t,
                            user_url: a.values[url],
                            auth_token: a.values[token],
                        },
                    ),
                    seq![exists, url, token],
                )
            }
        },
        PendingStepView::UserDetailsFinalize(t) => {
            let exists = DependencyView::UserExists(t.username);
            let url = DependencyView::UserUrl(t.username);
            let token = DependencyView::AuthToken(t.username);
            let email = DependencyView::UserEmail(t.username);
            if !known(a, exists) {
                (EvaluationView::Unfulfilled(exists), seq![exists])
            } else if !known(a, url) {
                (EvaluationView::Unfulfilled(url), seq![exists, url])
            } else if !known(a, token) {
                (EvaluationView::Unfulfilled(token), seq![exists, url, token])
            } else if !known(a, email) {
                (EvaluationView::Unfulfilled(email), seq![exists, url, token, email])
            } else if a.values[email] == t.email {
                (EvaluationView::Skip, seq![exists, url, token, email])
            } else {
                (
                    EvaluationView::Run(
                        StepView::UserSetEmail {
                            task: t,
                            user_url: a.values[url],
                            auth_token: a.values[token],
                        },
                    ),
                    seq![exists, url, token, email],
                )
            }
        },
        PendingStepView::PluginFindInLocal(t) => {
            if a.has.contains(DependencyView::Plugin(t.plugin)) && a.has.contains(
                DependencyView::PluginCheckedInLocal(t.plugin),
            ) {
                (EvaluationView::Skip, seq![])
            } else {
                (EvaluationView::Run(StepView::PluginFindInLocal(t)), seq![])
            }
        },
        PendingStepView::PluginFindInPeer(t) => {
            let checked = DependencyView::PluginCheckedInLocal(t.plugin);
            if a.has.contains(DependencyView::PluginUrl(t.plugin)) || (a.has.contains(
                DependencyView::Plugin(t.plugin),
            ) && a.has.contains(DependencyView::PluginPeerUrl(t.plugin))) {
                (EvaluationView::Skip, seq![])
            } else if !known(a, checked) {
                (EvaluationView::Unfulfilled(checked), seq![checked])
            } else {
                match t.peer {
                    Some(peer) => (
                        EvaluationView::Run(StepView::PluginFindInPeer { task: t, peer }),
                        seq![checked],
                    ),
                    None => (EvaluationView::Unfulfilled(DependencyView::PeerUrl), seq![checked]),
                }
            }
        },
        PendingStepView::PluginAddFromPeer(t) => {
            let checked = DependencyView::PluginCheckedInLocal(t.plugin);
            let all = DependencyView::ComputeResourceAll;
            let peer_url = DependencyView::PluginPeerUrl(t.plugin);
            if a.has.contains(DependencyView::PluginUrl(t.plugin)) {
                (EvaluationView::Skip, seq![])
            } else if !known(a, checked) {
                (EvaluationView::Unfulfilled(checked), seq![checked])
            } else {
                match t.admin {
                    None => (
                        EvaluationView::Unfulfilled(DependencyView::AdminCredentials),
                        seq![checked],
                    ),
                    Some(admin) => {
                        if t.compute_names.len() == 0 {
                            if !known(a, all) {
                                (EvaluationView::Unfulfilled(all), seq![checked, all])
                            } else if !known(a, peer_url) {
                                (EvaluationView::Unfulfilled(peer_url), seq![checked, all, peer_url])
                            } else {
                                (
                                    EvaluationView::Run(
                                        StepView::PluginAddFromPeer {
                                            task: t,
                                            admin,
                                            plugin_peer_url: a.values[peer_url],
                                            compute_names_csv: a.values[all],
                                        },
                                    ),
                                    seq![checked, all, peer_url],
                                )
                            }
                        } else {
                            if !known(a, peer_url) {
                                (EvaluationView::Unfulfilled(peer_url), seq![checked, peer_url])
                            } else {
                                (
                                    EvaluationView::Run(
                                        StepView::PluginAddFromPeer {
                                            task: t,
                                            admin,
                                            plugin_peer_url: a.values[peer_url],
                                            compute_names_csv: join_names(t.compute_names),
                                        },
                                    ),
                                    seq![checked, peer_url],
                                )
                            }
                        }
                    },
                }
            }
        },
        PendingStepView::ComputeResourceGetAll(t) => {
            if a.has.contains(DependencyView::ComputeResourceAll) {
                (EvaluationView::Skip, seq![])
            } else {
                (EvaluationView::Run(StepView::ComputeResourceGetAll(t)), seq![])
            }
        },
    }
}

/// What evaluating a pending step against a map gives.
pub open spec fn evaluate_spec(ps: PendingStepView, a: Answers) -> EvaluationView {
    evaluate_full(ps, a).0
}

/// The keys that evaluating a pending step against a map asks its values for.
pub open spec fn reads_spec(ps: PendingStepView, a: Answers) -> Seq<DependencyView> {
    evaluate_full(ps, a).1
}

/// The answers of a map that holds the given values.
pub open spec fn answers_of(values: Map<DependencyView, Seq<char>>) -> Answers {
    Answers { has: values.dom(), values }
}

/// The answers of a map that claims to contain nothing and hands out the empty
/// text for every key.
pub open spec fn spy_answers() -> Answers {
    Answers {
        has: Set::empty(),
        values: Map::new(|k: DependencyView| true, |k: DependencyView| Seq::<char>::empty()),
    }
}

/// The keys that a pending step depends on: those that it asks a map for
/// which has a value for every key and says of none that it contains it.
pub open spec fn dependencies_spec(ps: PendingStepView) -> Set<DependencyView> {
    reads_spec(ps, spy_answers()).to_set()
}

/// A key is reported as unfulfilled only where the map has no value for it,
/// or where the key stands for something that the manifest lacks: the
/// credentials of an admin, or the URL of a peer.
pub proof fn lemma_unfulfilled_is_missing(ps: PendingStepView, a: Answers, k: DependencyView)
    requires
        evaluate_spec(ps, a) == EvaluationView::Unfulfilled(k),
    ensures
        !known(a, k) || k == DependencyView::AdminCredentials || k == DependencyView::PeerUrl,
{
}

/// Without the credentials of an admin no plugin is registered: once the
/// targeted backend was searched and does not hold the plugin, the step that
/// would register it is unfulfilled for want of the credentials, whatever
/// else is known.
pub proof fn lemma_missing_admin_blocks(t: PluginTaskView, values: Map<DependencyView, Seq<char>>)
    requires
        t.admin is None,
        values.dom().contains(DependencyView::PluginCheckedInLocal(t.plugin)),
        !values.dom().contains(DependencyView::PluginUrl(t.plugin)),
    ensures
        evaluate_spec(PendingStepView::PluginAddFromPeer(t), answers_of(values))
            == EvaluationView::Unfulfilled(DependencyView::AdminCredentials),
{
}

/// Only the steps for a user hand in that the user exists: the key stands in
/// the chain of no other step.
pub proof fn lemma_user_exists_in_own_chain(ps: PendingStepView, username: Seq<char>)
    requires
        chain_keys(ps).contains(DependencyView::UserExists(username)),
    ensures
        ps == PendingStepView::UserExists(user_task_of_step(ps)) || ps
            == PendingStepView::UserGetAuthToken(user_task_of_step(ps)) || ps
            == PendingStepView::UserGetUrl(user_task_of_step(ps)) || ps
            == PendingStepView::UserGetDetails(user_task_of_step(ps)) || ps
            == PendingStepView::UserDetailsFinalize(user_task_of_step(ps)),
        user_task_of_step(ps).username == username,
{
    let chain = chain_keys(ps);
    let i = choose|i: int| 0 <= i < chain.len() && chain[i] == DependencyView::UserExists(username);
    assert(chain[i] == DependencyView::UserExists(username));
}

/// What a step for a user works from. Of a step for anything else nothing is
/// said.
pub open spec fn user_task_of_step(ps: PendingStepView) -> UserTaskView {
    match ps {
        PendingStepView::UserExists(t) => t,
        PendingStepView::UserGetAuthToken(t) => t,
        PendingStepView::UserGetUrl(t) => t,
        PendingStepView::UserGetDetails(t) => t,
        PendingStepView::UserDetailsFinalize(t) => t,
        _ => arbitrary(),
    }
}

/// Without the credentials of an admin the step that registers a plugin
/// never runs, whatever is known: so the request that registers the plugin,
/// which only that step makes, is never sent.
pub proof fn lemma_no_admin_never_registers(
    ps: PendingStepView,
    values: Map<DependencyView, Seq<char>>,
    step: StepView,
)
    requires
        evaluate_spec(ps, answers_of(values)) == EvaluationView::Run(step),
        create_spec(step) matches Some(request) && request is AddPlugin,
    ensures
        ps matches PendingStepView::PluginAddFromPeer(t) && t.admin is Some,
{
}

/// The step that makes sure that a user exists has nothing before it; every
/// other step for the user is unfulfilled for want of the user as long as
/// the user is not known to exist.
pub proof fn lemma_unknown_user_blocks(t: UserTaskView, values: Map<DependencyView, Seq<char>>)
    requires
        !values.dom().contains(DependencyView::UserExists(t.username)),
    ensures
        evaluate_spec(PendingStepView::UserExists(t), answers_of(values)) == EvaluationView::Run(
            StepView::UserExists(t),
        ),
        evaluate_spec(PendingStepView::UserGetAuthToken(t), answers_of(values))
            == EvaluationView::Unfulfilled(DependencyView::UserExists(t.username)),
        evaluate_spec(PendingStepView::UserGetUrl(t), answers_of(values))
            == EvaluationView::Unfulfilled(DependencyView::UserExists(t.username)),
        evaluate_spec(PendingStepView::UserGetDetails(t), answers_of(values))
            == EvaluationView::Unfulfilled(DependencyView::UserExists(t.username)),
        evaluate_spec(PendingStepView::UserDetailsFinalize(t), answers_of(values))
            == EvaluationView::Unfulfilled(DependencyView::UserExists(t.username)),
{
}

/// A step that evaluation hands out came from the pending step that was
/// evaluated.
pub proof fn lemma_run_keeps_step(ps: PendingStepView, a: Answers, step: StepView)
    requires
        evaluate_spec(ps, a) == EvaluationView::Run(step),
    ensures
        pending_of(step) == ps,
{
}

/// A step that evaluation hands out provides the keys that its pending step
/// pledged.
pub proof fn lemma_run_provides_pledged(ps: PendingStepView, a: Answers, step: StepView)
    requires
        evaluate_spec(ps, a) == EvaluationView::Run(step),
    ensures
        step_provides(step) == pledged(ps),
{
}

/// Where a map holds a value for every key that a pending step pledged, the
/// step is skipped; the step that sets a user's email address is skipped
/// where the address held is the one asked for.
pub proof fn lemma_skip_when_provided(ps: PendingStepView, values: Map<DependencyView, Seq<char>>)
    requires
        forall|i: int| 0 <= i < pledged(ps).len() ==> values.dom().contains(#[trigger] pledged(ps)[i]),
        ps matches PendingStepView::UserDetailsFinalize(t) ==> {
            &&& values.dom().contains(DependencyView::AuthToken(t.username))
            &&& values[DependencyView::UserEmail(t.username)] == t.email
        },
    ensures
        evaluate_spec(ps, answers_of(values)) == EvaluationView::Skip,
{
    let keys = pledged(ps);
    let a = answers_of(values);
    match ps {
        PendingStepView::UserExists(t) => {
            assert(values.dom().contains(keys[0]));
        },
        PendingStepView::UserGetAuthToken(t) => {
            assert(values.dom().contains(keys[0]));
            assert(values.dom().contains(keys[1]));
        },
        PendingStepView::UserGetUrl(t) => {
            assert(values.dom().contains(keys[0]));
            assert(values.dom().contains(keys[1]));
        },
        PendingStepView::UserGetDetails(t) => {
            assert(values.dom().contains(keys[0]));
            assert(values.dom().contains(keys[1]));
            assert(values.dom().contains(keys[2]));
            assert(values.dom().contains(keys[3]));
        },
        PendingStepView::UserDetailsFinalize(t) => {
            assert(values.dom().contains(keys[0]));
            assert(values.dom().contains(keys[1]));
            assert(values.dom().contains(keys[2]));
        },
        PendingStepView::PluginFindInLocal(t) => {
            assert(values.dom().contains(keys[0]));
            assert(values.dom().contains(keys[1]));
        },
        PendingStepView::PluginFindInPeer(t) => {
            assert(values.dom().contains(keys[0]));
            assert(values.dom().contains(keys[1]));
        },
        PendingStepView::PluginAddFromPeer(t) => {
            assert(values.dom().contains(keys[0]));
            assert(values.dom().contains(keys[1]));
        },
        PendingStepView::ComputeResourceGetAll(t) => {
            assert(values.dom().contains(keys[0]));
        },
    }
}

impl PendingStep {
    /// The keys that this step pledges. The first one names the resource
    /// that the step is about.
    pub fn provides(&self) -> (keys: NonEmpty<Dependency>)
        ensures
            provided_keys(keys) == pledged(self@),
    {
        let keys = match self {
            PendingStep::UserExists(t) => keys_new(Dependency::UserExists(t.username.clone())),
            PendingStep::UserGetAuthToken(t) => {
                let mut keys = keys_new(Dependency::UserExists(t.username.clone()));
                keys_push(&mut keys, Dependency::AuthToken(t.username.clone()));
                keys
            },
            PendingStep::UserGetUrl(t) => {
                let mut keys = keys_new(Dependency::UserExists(t.username.clone()));
                keys_push(&mut keys, Dependency::UserUrl(t.username.clone()));
                keys
            },
            PendingStep::UserGetDetails(t) => {
                let mut keys = keys_new(Dependency::UserExists(t.username.clone()));
                keys_push(&mut keys, Dependency::UserUrl(t.username.clone()));
                keys_push(&mut keys, Dependency::UserEmail(t.username.clone()));
                keys_push(&mut keys, Dependency::UserGroupsUrl(t.username.clone()));
                keys
            },
            PendingStep::UserDetailsFinalize(t) => {
                let mut keys = keys_new(Dependency::UserExists(t.username.clone()));
                keys_push(&mut keys, Dependency::UserUrl(t.username.clone()));
                keys_push(&mut keys, Dependency::UserEmail(t.username.clone()));
                keys_push(&mut keys, Dependency::UserGroupsUrl(t.username.clone()));
                keys
            },
            PendingStep::PluginFindInLocal(t) => {
                let mut keys = keys_new(Dependency::Plugin(t.plugin.clone()));
                keys_push(&mut keys, Dependency::PluginCheckedInLocal(t.plugin.clone()));
                keys
            },
            PendingStep::PluginFindInPeer(t) => {
                let mut keys = keys_new(Dependency::Plugin(t.plugin.clone()));
                keys_push(&mut keys, Dependency::PluginPeerUrl(t.plugin.clone()));
                keys
            },
            PendingStep::PluginAddFromPeer(t) => {
                let mut keys = keys_new(Dependency::Plugin(t.plugin.clone()));
                keys_push(&mut keys, Dependency::PluginUrl(t.plugin.clone()));
                keys_push(&mut keys, Dependency::PluginVersion(t.plugin.clone()));
                keys
            },
            PendingStep::ComputeResourceGetAll(_) => keys_new(Dependency::ComputeResourceAll),
        };
        assert(provided_keys(keys) =~= pledged(self@));
        keys
    }

    /// The API resource that this step is about: the one that the first of
    /// its pledged keys is a fact about.
    pub fn target(&self) -> (target: Resource)
        ensures
            target@ == resource_of(pledged(self@)[0]),
    {
        match self {
            PendingStep::UserExists(t) => Resource::User(t.username.clone()),
            PendingStep::UserGetAuthToken(t) => Resource::User(t.username.clone()),
            PendingStep::UserGetUrl(t) => Resource::User(t.username.clone()),
            PendingStep::UserGetDetails(t) => Resource::User(t.username.clone()),
            PendingStep::UserDetailsFinalize(t) => Resource::User(t.username.clone()),
            PendingStep::PluginFindInLocal(t) => Resource::Plugin(t.plugin.clone()),
            PendingStep::PluginFindInPeer(t) => Resource::Plugin(t.plugin.clone()),
            PendingStep::PluginAddFromPeer(t) => Resource::Plugin(t.plugin.clone()),
            PendingStep::ComputeResourceGetAll(_) => Resource::Cube,
        }
    }

    /// Provide the dependencies and create a [`Step`].
    ///
    /// - [`Err`] indicates the step has an unfulfilled dependency.
    /// - [`None`] indicates the step is redundant.
    /// - [`Some`] indicates the step can run.
    ///
    /// The map answers as before; the keys that were asked of its `get` are
    /// added to its log.
    pub fn evaluate<M: DependencyMap>(&self, map: &mut M) -> (r: PendingStepResult)
        requires
            old(map).wf(),
        ensures
            final(map).wf(),
            final(map).answers() == old(map).answers(),
            final(map).log() == old(map).log() + reads_spec(self@, old(map).answers()),
            evaluation_view(r) == evaluate_spec(self@, old(map).answers()),
    {
        match self {
            PendingStep::UserExists(t) => user::evaluate_exists(t, map),
            PendingStep::UserGetAuthToken(t) => user::evaluate_get_auth_token(t, map),
            PendingStep::UserGetUrl(t) => user::evaluate_get_url(t, map),
            PendingStep::UserGetDetails(t) => user::evaluate_get_details(t, map),
            PendingStep::UserDetailsFinalize(t) => user::evaluate_details_finalize(t, map),
            PendingStep::PluginFindInLocal(t) => plugin::evaluate_find_in_local(t, map),
            PendingStep::PluginFindInPeer(t) => plugin::evaluate_find_in_peer(t, map),
            PendingStep::PluginAddFromPeer(t) => plugin::evaluate_add_from_peer(t, map),
            PendingStep::ComputeResourceGetAll(t) => compute::evaluate_get_all(t, map),
        }
    }
}

/// An HTTP request and response body deserializer: what a step sends after
/// its search, to create or to modify the resource.
#[derive(Debug, PartialEq, Eq)]
pub enum StepRequest {
    /// Create the user.
    CreateUser(UserTask),
    /// Register the plugin from the peer.
    AddPlugin {
        task: PluginTask,
        admin: UserCredentials,
        plugin_peer_url: Rc<String>,
        compute_names_csv: String,
    },
}

/// What a [`StepRequest`] says.
pub enum StepRequestView {
    CreateUser(UserTaskView),
    AddPlugin {
        task: PluginTaskView,
        admin: UserCredentialsView,
        plugin_peer_url: Seq<char>,
        compute_names_csv: Seq<char>,
    },
}

impl View for StepRequest {
    type V = StepRequestView;

    open spec fn view(&self) -> StepRequestView {
        match self {
            StepRequest::CreateUser(t) => StepRequestView::CreateUser(t@),
            StepRequest::AddPlugin {
                task,
                admin,
                plugin_peer_url,
                compute_names_csv,
            } => StepRequestView::AddPlugin {
                task: task@,
                admin: admin@,
                plugin_peer_url: plugin_peer_url@,
                compute_names_csv: compute_names_csv@,
            },
        }
    }
}

/// The request that a follow-up sends; `None` where its URL cannot be made.
pub open spec fn follow_up_request_spec(follow_up: StepRequestView) -> Option<RequestView> {
    match follow_up {
        StepRequestView::CreateUser(t) => user::create_user_request_spec(t),
        StepRequestView::AddPlugin {
            task,
            admin,
            plugin_peer_url,
            compute_names_csv,
        } => plugin::add_plugin_request_spec(task.url, admin, plugin_peer_url, compute_names_csv),
    }
}

/// The shape in which the answer to a follow-up is to be read.
pub open spec fn follow_up_expects_spec(follow_up: StepRequestView) -> BodyKind {
    match follow_up {
        StepRequestView::CreateUser(_) => BodyKind::User,
        StepRequestView::AddPlugin { .. } => BodyKind::Plugin,
    }
}

/// The entries that the answer to a follow-up gives, or the error for a body
/// of another shape than was asked for.
pub open spec fn follow_up_entries_spec(
    follow_up: StepRequestView,
    body: ResponseBodyView,
) -> Result<Seq<(DependencyView, Seq<char>)>, StepErrorView> {
    match (follow_up, body) {
        (StepRequestView::CreateUser(t), ResponseBodyView::User { url, email, groups }) => Ok(
            user::user_entries(t.username, url, email, groups),
        ),
        (StepRequestView::AddPlugin { task, .. }, ResponseBodyView::Plugin(info)) => Ok(
            plugin::plugin_entries(task.plugin, info),
        ),
        _ => Err(StepErrorView::Deserialize(unexpected_body())),
    }
}

/// The error for a body of another shape than was asked for.
pub fn unexpected_body_error() -> (e: StepError)
    ensures
        e@ == StepErrorView::Deserialize(unexpected_body()),
{
    StepError::Deserialize(String::from_str("unexpected response body"))
}

impl StepRequest {
    /// Create the HTTP request, if its URL can be made.
    pub fn request(&self) -> (request: Option<Request>)
        ensures
            request_of(request) == follow_up_request_spec(self@),
    {
        match self {
            StepRequest::CreateUser(t) => user::create_user_request(t),
            StepRequest::AddPlugin {
                task,
                admin,
                plugin_peer_url,
                compute_names_csv,
            } => plugin::add_plugin_request(
                &task.url,
                admin,
                plugin_peer_url.as_str(),
                compute_names_csv.as_str(),
            ),
        }
    }

    /// The shape in which the response body is to be read.
    pub fn expects(&self) -> (kind: BodyKind)
        ensures
            kind == follow_up_expects_spec(self@),
    {
        match self {
            StepRequest::CreateUser(_) => BodyKind::User,
            StepRequest::AddPlugin { .. } => BodyKind::Plugin,
        }
    }

    /// Take the entries from the response body.
    pub fn deserialize(&self, body: ResponseBody) -> (r: Result<Entries, StepError>)
        ensures
            match r {
                Ok(entries) => follow_up_entries_spec(self@, body@) == Ok::<
                    Seq<(DependencyView, Seq<char>)>,
                    StepErrorView,
                >(entries_view(entries@)),
                Err(e) => follow_up_entries_spec(self@, body@) == Err::<
                    Seq<(DependencyView, Seq<char>)>,
                    StepErrorView,
                >(e@),
            },
    {
        match (self, body) {
            (StepRequest::CreateUser(t), ResponseBody::User { url, email, groups }) => Ok(
                user::deserialize_user_response(&t.username, url, email, groups),
            ),
            (StepRequest::AddPlugin { task, .. }, ResponseBody::Plugin(info)) => Ok(
                plugin::deserialize_plugin(&task.plugin, info),
            ),
            _ => Err(unexpected_body_error()),
        }
    }
}

/// The method of the request with which a step searches for its resource.
pub open spec fn search_method(step: StepView) -> Method {
    match step {
        StepView::UserExists(_) => Method::Post,
        StepView::UserGetAuthToken(_) => Method::Post,
        StepView::UserSetEmail { .. } => Method::Put,
        _ => Method::Get,
    }
}

/// The request with which a step searches for its resource; `None` where its
/// URL cannot be made.
pub open spec fn search_spec(step: StepView) -> Option<RequestView> {
    match step {
        StepView::UserExists(t) => user::auth_token_request_spec(t),
        StepView::UserGetAuthToken(t) => user::auth_token_request_spec(t),
        StepView::UserGetUrl { task, auth_token } => user::get_url_request_spec(task, auth_token),
        StepView::UserGetDetails { task, user_url, auth_token } => user::get_details_request_spec(
            user_url,
            auth_token,
        ),
        StepView::UserSetEmail { task, user_url, auth_token } => user::set_email_request_spec(
            task,
            user_url,
            auth_token,
        ),
        StepView::PluginFindInLocal(t) => plugin::search_plugin_spec(t.url, t.plugin),
        StepView::PluginFindInPeer { task, peer } => plugin::search_plugin_spec(peer, task.plugin),
        StepView::PluginAddFromPeer { task, .. } => plugin::search_plugin_spec(
            task.url,
            task.plugin,
        ),
        StepView::ComputeResourceGetAll(t) => compute::get_all_request_spec(t),
    }
}

/// The shape in which the answer to a step's search is to be read.
pub open spec fn expects_spec(step: StepView) -> BodyKind {
    match step {
        StepView::UserExists(_) => BodyKind::AuthToken,
        StepView::UserGetAuthToken(_) => BodyKind::AuthToken,
        StepView::UserGetUrl { .. } => BodyKind::Root,
        StepView::UserGetDetails { .. } => BodyKind::User,
        StepView::UserSetEmail { .. } => BodyKind::User,
        StepView::PluginFindInLocal(_) => BodyKind::PluginList,
        StepView::PluginFindInPeer { .. } => BodyKind::PluginList,
        StepView::PluginAddFromPeer { .. } => BodyKind::PluginList,
        StepView::ComputeResourceGetAll(_) => BodyKind::ComputeResourceList,
    }
}

/// How a step reads the status of the answer to its search. A step that
/// makes sure that a user exists takes `400 Bad Request` to say that the user
/// does not exist yet; every other step, and every other status, goes by the
/// common rule.
pub open spec fn check_status_spec(step: StepView, status: u16) -> StatusCheck {
    if step is UserExists && status == 400 {
        StatusCheck::DoesNotExist
    } else {
        default_status_check(status)
    }
}

/// What a step makes of the body of the answer to its search, or the error
/// for a body of another shape than it asked for.
pub open spec fn deserialize_spec(step: StepView, body: ResponseBodyView) -> Result<
    CheckView,
    StepErrorView,
> {
    match (step, body) {
        (StepView::UserExists(t), ResponseBodyView::AuthToken { token }) => Ok(
            CheckView::Exists(user::auth_token_entries(t.username, token)),
        ),
        (StepView::UserGetAuthToken(t), ResponseBodyView::AuthToken { token }) => Ok(
            CheckView::Exists(user::auth_token_entries(t.username, token)),
        ),
        (StepView::UserGetUrl { task, .. }, ResponseBodyView::Root { user }) => Ok(
            CheckView::Exists(user::user_url_entries(task.username, user)),
        ),
        (StepView::UserGetDetails { task, .. }, ResponseBodyView::User { url, email, groups }) => Ok(
            CheckView::Exists(user::user_entries(task.username, url, email, groups)),
        ),
        (StepView::UserSetEmail { task, .. }, ResponseBodyView::User { url, email, groups }) => Ok(
            CheckView::Modified(user::user_entries(task.username, url, email, groups)),
        ),
        (StepView::PluginFindInLocal(t), ResponseBodyView::PluginList { first }) => Ok(
            CheckView::Exists(
                match first {
                    Some(info) => plugin::found_local_entries(t.plugin, info),
                    None => plugin::checked_entries(t.plugin),
                },
            ),
        ),
        (StepView::PluginFindInPeer { task, .. }, ResponseBodyView::PluginList { first }) => Ok(
            match first {
                Some(info) => CheckView::Exists(plugin::found_peer_entries(task.plugin, info)),
                None => CheckView::DoesNotExist,
            },
        ),
        (StepView::PluginAddFromPeer { task, .. }, ResponseBodyView::PluginList { first }) => Ok(
            match first {
                Some(info) => CheckView::Exists(plugin::plugin_entries(task.plugin, info)),
                None => CheckView::DoesNotExist,
            },
        ),
        (StepView::ComputeResourceGetAll(_), ResponseBodyView::ComputeResourceList { names }) => Ok(
            CheckView::Exists(compute::all_entries(names)),
        ),
        _ => Err(StepErrorView::Deserialize(unexpected_body())),
    }
}

/// The follow-up that creates the resource, for the steps that have one.
pub open spec fn create_spec(step: StepView) -> Option<StepRequestView> {
    match step {
        StepView::UserExists(t) => Some(StepRequestView::CreateUser(t)),
        StepView::PluginAddFromPeer {
            task,
            admin,
            plugin_peer_url,
            compute_names_csv,
        } => Some(StepRequestView::AddPlugin { task, admin, plugin_peer_url, compute_names_csv }),
        _ => None,
    }
}

/// The follow-up that modifies the resource: no step has one.
pub open spec fn modify_spec(step: StepView) -> Option<StepRequestView> {
    None
}

/// The keys of a list of entries, in order.
pub open spec fn keys_of(entries: Seq<(DependencyView, Seq<char>)>) -> Seq<DependencyView> {
    entries.map_values(|e: (DependencyView, Seq<char>)| e.0)
}

/// Whatever a step finds, the entries that it hands out have a value for
/// every key that it provides.
pub proof fn lemma_found_covers_provides(step: StepView, body: ResponseBodyView, k: DependencyView)
    requires
        step_provides(step).contains(k),
    ensures
        deserialize_spec(step, body) matches Ok(CheckView::Exists(entries)) ==> keys_of(
            entries,
        ).contains(k),
        deserialize_spec(step, body) matches Ok(CheckView::Modified(entries)) ==> keys_of(
            entries,
        ).contains(k),
{
    let keys = step_provides(step);
    let i = choose|i: int| 0 <= i < keys.len() && keys[i] == k;
    match deserialize_spec(step, body) {
        Ok(CheckView::Exists(entries)) => {
            let found = keys_of(entries);
            if step is UserGetDetails {
                assert(found[0] == keys[0] && found[1] == keys[1] && found[2] == keys[2]
                    && found[3] == keys[3]);
            } else if step is PluginAddFromPeer {
                assert(found[0] == keys[0] && found[1] == keys[1] && found[2] == keys[2]);
            } else {
                assert(found[0] == keys[0]);
                if keys.len() > 1 {
                    assert(found[1] == keys[1]);
                }
            }
        },
        Ok(CheckView::Modified(entries)) => {
            let found = keys_of(entries);
            assert(found[0] == keys[0] && found[1] == keys[1] && found[2] == keys[2] && found[3]
                == keys[3]);
        },
        _ => {},
    }
}

/// Whatever a follow-up gets, the entries that it hands out have a value for
/// every key that the step provides.
pub proof fn lemma_follow_up_covers_provides(
    step: StepView,
    body: ResponseBodyView,
    k: DependencyView,
)
    requires
        step_provides(step).contains(k),
        create_spec(step) is Some,
    ensures
        follow_up_entries_spec(create_spec(step).unwrap(), body) matches Ok(entries) ==> keys_of(
            entries,
        ).contains(k),
{
    let keys = step_provides(step);
    let i = choose|i: int| 0 <= i < keys.len() && keys[i] == k;
    match follow_up_entries_spec(create_spec(step).unwrap(), body) {
        Ok(entries) => {
            let found = keys_of(entries);
            assert(found[0] == keys[0]);
            if step is PluginAddFromPeer {
                assert(found[1] == keys[1] && found[2] == keys[2]);
            }
        },
        _ => {},
    }
}

impl Step {
    /// Returns keys of what this step provides unconditionally when
    /// successful.
    ///
    /// The first item returned is considered to be the "primary" API resource
    /// affected by this step. It will be used for tracking what was created/
    /// modified/unchanged.
    pub fn provides(&self) -> (keys: NonEmpty<Dependency>)
        ensures
            provided_keys(keys) == step_provides(self@),
    {
        let keys = match self {
            Step::UserExists(t) => keys_new(Dependency::UserExists(t.username.clone())),
            Step::UserGetAuthToken(t) => {
                let mut keys = keys_new(Dependency::UserExists(t.username.clone()));
                keys_push(&mut keys, Dependency::AuthToken(t.username.clone()));
                keys
            },
            Step::UserGetUrl { task, .. } => {
                let mut keys = keys_new(Dependency::UserExists(task.username.clone()));
                keys_push(&mut keys, Dependency::UserUrl(task.username.clone()));
                keys
            },
            Step::UserGetDetails { task, .. } => {
                let mut keys = keys_new(Dependency::UserExists(task.username.clone()));
                keys_push(&mut keys, Dependency::UserUrl(task.username.clone()));
                keys_push(&mut keys, Dependency::UserEmail(task.username.clone()));
                keys_push(&mut keys, Dependency::UserGroupsUrl(task.username.clone()));
                keys
            },
            Step::UserSetEmail { task, .. } => {
                let mut keys = keys_new(Dependency::UserExists(task.username.clone()));
                keys_push(&mut keys, Dependency::UserUrl(task.username.clone()));
                keys_push(&mut keys, Dependency::UserEmail(task.username.clone()));
                keys_push(&mut keys, Dependency::UserGroupsUrl(task.username.clone()));
                keys
            },
            Step::PluginFindInLocal(t) => {
                let mut keys = keys_new(Dependency::Plugin(t.plugin.clone()));
                keys_push(&mut keys, Dependency::PluginCheckedInLocal(t.plugin.clone()));
                keys
            },
            Step::PluginFindInPeer { task, .. } => {
                let mut keys = keys_new(Dependency::Plugin(task.plugin.clone()));
                keys_push(&mut keys, Dependency::PluginPeerUrl(task.plugin.clone()));
                keys
            },
            Step::PluginAddFromPeer { task, .. } => {
                let mut keys = keys_new(Dependency::Plugin(task.plugin.clone()));
                keys_push(&mut keys, Dependency::PluginUrl(task.plugin.clone()));
                keys_push(&mut keys, Dependency::PluginVersion(task.plugin.clone()));
                keys
            },
            Step::ComputeResourceGetAll(_) => keys_new(Dependency::ComputeResourceAll),
        };
        assert(provided_keys(keys) =~= step_provides(self@));
        keys
    }

    /// The API resource that this step is about.
    pub fn target(&self) -> (target: Resource)
        ensures
            target@ == resource_of(step_provides(self@)[0]),
    {
        match self {
            Step::UserExists(t) => Resource::User(t.username.clone()),
            Step::UserGetAuthToken(t) => Resource::User(t.username.clone()),
            Step::UserGetUrl { task, .. } => Resource::User(task.username.clone()),
            Step::UserGetDetails { task, .. } => Resource::User(task.username.clone()),
            Step::UserSetEmail { task, .. } => Resource::User(task.username.clone()),
            Step::PluginFindInLocal(t) => Resource::Plugin(t.plugin.clone()),
            Step::PluginFindInPeer { task, .. } => Resource::Plugin(task.plugin.clone()),
            Step::PluginAddFromPeer { task, .. } => Resource::Plugin(task.plugin.clone()),
            Step::ComputeResourceGetAll(_) => Resource::Cube,
        }
    }

    /// The method of the request which searches the API for this resource.
    pub fn method(&self) -> (method: Method)
        ensures
            method == search_method(self@),
    {
        match self {
            Step::UserExists(_) => Method::Post,
            Step::UserGetAuthToken(_) => Method::Post,
            Step::UserSetEmail { .. } => Method::Put,
            _ => Method::Get,
        }
    }

    /// Create an HTTP request which searches the API for this resource, if
    /// its URL can be made. The request has the step's method.
    pub fn search(&self) -> (request: Option<Request>)
        ensures
            request_of(request) == search_spec(self@),
            request matches Some(r) ==> r.method == search_method(self@),
    {
        match self {
            Step::UserExists(t) => user::auth_token_request(t),
            Step::UserGetAuthToken(t) => user::auth_token_request(t),
            Step::UserGetUrl { task, auth_token } => user::get_url_request(
                task,
                auth_token.as_str(),
            ),
            Step::UserGetDetails { task, user_url, auth_token } => user::get_details_request(
                user_url.as_str(),
                auth_token.as_str(),
            ),
            Step::UserSetEmail { task, user_url, auth_token } => user::set_email_request(
                task,
                user_url.as_str(),
                auth_token.as_str(),
            ),
            Step::PluginFindInLocal(t) => plugin::search_plugin(&t.url, &t.plugin),
            Step::PluginFindInPeer { task, peer } => plugin::search_plugin(peer, &task.plugin),
            Step::PluginAddFromPeer { task, .. } => plugin::search_plugin(&task.url, &task.plugin),
            Step::ComputeResourceGetAll(t) => compute::get_all_request(t),
        }
    }

    /// The shape in which the answer to the search is to be read.
    pub fn expects(&self) -> (kind: BodyKind)
        ensures
            kind == expects_spec(self@),
    {
        match self {
            Step::UserExists(_) => BodyKind::AuthToken,
            Step::UserGetAuthToken(_) => BodyKind::AuthToken,
            Step::UserGetUrl { .. } => BodyKind::Root,
            Step::UserGetDetails { .. } => BodyKind::User,
            Step::UserSetEmail { .. } => BodyKind::User,
            Step::PluginFindInLocal(_) => BodyKind::PluginList,
            Step::PluginFindInPeer { .. } => BodyKind::PluginList,
            Step::PluginAddFromPeer { .. } => BodyKind::PluginList,
            Step::ComputeResourceGetAll(_) => BodyKind::ComputeResourceList,
        }
    }

    /// Check the HTTP response status code to the request of [`Step::search`].
    pub fn check_status(&self, status: u16) -> (check: StatusCheck)
        ensures
            check == check_status_spec(self@, status),
    {
        match self {
            Step::UserExists(_) => {
                // BAD_REQUEST means user might not exist yet. No worries, the
                // step goes on to create the user.
                if status == 400 {
                    StatusCheck::DoesNotExist
                } else {
                    check_status_default(status)
                }
            },
            _ => check_status_default(status),
        }
    }

    /// Deserialize the HTTP response body to the request of [`Step::search`]
    /// and decide what to do next.
    pub fn deserialize(&self, body: ResponseBody) -> (r: Result<Check, StepError>)
        ensures
            match r {
                Ok(check) => deserialize_spec(self@, body@) == Ok::<CheckView, StepErrorView>(
                    check@,
                ),
                Err(e) => deserialize_spec(self@, body@) == Err::<CheckView, StepErrorView>(e@),
            },
    {
        match (self, body) {
            (Step::UserExists(t), ResponseBody::AuthToken { token }) => Ok(
                Check::Exists(user::deserialize_auth_token(&t.username, token.as_str())),
            ),
            (Step::UserGetAuthToken(t), ResponseBody::AuthToken { token }) => Ok(
                Check::Exists(user::deserialize_auth_token(&t.username, token.as_str())),
            ),
            (Step::UserGetUrl { task, .. }, ResponseBody::Root { user }) => Ok(
                Check::Exists(user::deserialize_root_response(&task.username, user)),
            ),
            (Step::UserGetDetails { task, .. }, ResponseBody::User { url, email, groups }) => Ok(
                Check::Exists(user::deserialize_user_response(&task.username, url, email, groups)),
            ),
            (Step::UserSetEmail { task, .. }, ResponseBody::User { url, email, groups }) => Ok(
                Check::Modified(user::deserialize_user_response(&task.username, url, email, groups)),
            ),
            (Step::PluginFindInLocal(t), ResponseBody::PluginList { first }) => Ok(
                Check::Exists(plugin::deserialize_local_search(&t.plugin, first)),
            ),
            (Step::PluginFindInPeer { task, .. }, ResponseBody::PluginList { first }) => {
                match first {
                    Some(info) => Ok(
                        Check::Exists(plugin::deserialize_peer_search(&task.plugin, info)),
                    ),
                    None => Ok(Check::DoesNotExist),
                }
            },
            (Step::PluginAddFromPeer { task, .. }, ResponseBody::PluginList { first }) => {
                match first {
                    Some(info) => Ok(Check::Exists(plugin::deserialize_plugin(&task.plugin, info))),
                    None => Ok(Check::DoesNotExist),
                }
            },
            (Step::ComputeResourceGetAll(_), ResponseBody::ComputeResourceList { names }) => Ok(
                Check::Exists(compute::deserialize_all(&names)),
            ),
            _ => Err(unexpected_body_error()),
        }
    }

    /// Create an HTTP request which creates the API resource.
    pub fn create(&self) -> (follow_up: Option<StepRequest>)
        ensures
            match follow_up {
                Some(request) => create_spec(self@) == Some(request@),
                None => create_spec(self@).is_none(),
            },
    {
        match self {
            Step::UserExists(t) => Some(StepRequest::CreateUser(t.clone())),
            Step::PluginAddFromPeer {
                task,
                admin,
                plugin_peer_url,
                compute_names_csv,
            } => Some(
                StepRequest::AddPlugin {
                    task: task.clone(),
                    admin: admin.clone(),
                    plugin_peer_url: crate::text::rc_clone(plugin_peer_url),
                    compute_names_csv: compute_names_csv.clone(),
                },
            ),
            _ => None,
        }
    }

    /// Create an HTTP request which modifies the API resource.
    pub fn modify(&self) -> (follow_up: Option<StepRequest>)
        ensures
            match follow_up {
                Some(request) => modify_spec(self@) == Some(request@),
                None => modify_spec(self@).is_none(),
            },
    {
        None
    }
}

} // verus!
