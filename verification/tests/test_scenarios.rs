use std::collections::VecDeque;

use chrisomatic::dependency::{Dependency, Resource};
use chrisomatic::dependency_tree::{DependencyTree, TreeBuilder};
use chrisomatic::effect::{Method, Outcome, RequestError, StepEffect, StepError};
use chrisomatic::exec_step::{start, Event, Progress};
use chrisomatic::exec_tree::{Dispatch, TreeExecutor};
use chrisomatic::fully_exec_tree::{ChrisomaticEffects, Counts};
use chrisomatic::plan::plan;
use chrisomatic::plugin_spec::PluginSpec;
use chrisomatic::request_builder::{JsonBody, Request};
use chrisomatic::runner::{Runner, Turn};
use chrisomatic::spec::{Global, Manifest, PluginConfig, UserCredentials, UserDetails};
use chrisomatic::step::{PluginInfo, ResponseBody};
use chrisomatic::steps::{PendingStep, UserTask};
use chrisomatic::types::{CubeUrl, Username};

const CUBE: &str = "https://c/api/v1/";
const PEER: &str = "https://peer/api/v1/";

struct FakeUser {
    username: String,
    password: String,
    email: String,
}

/// A backend that keeps users and plugins in memory.
struct FakeCube {
    users: Vec<FakeUser>,
    plugins: Vec<PluginInfo>,
    peer_plugins: Vec<PluginInfo>,
    compute_resources: Vec<String>,
    /// The compute resources that the last plugin was registered to.
    registered_to: Option<String>,
    /// The list of compute resources is shown to nobody.
    list_denied: bool,
    /// The user whose request for a token gets no response.
    unreachable_for: Option<String>,
    requests: Vec<(Method, String)>,
}

impl FakeCube {
    fn empty() -> Self {
        FakeCube {
            users: vec![],
            plugins: vec![],
            peer_plugins: vec![],
            compute_resources: vec![],
            registered_to: None,
            list_denied: false,
            unreachable_for: None,
            requests: vec![],
        }
    }

    fn user_url(index: usize) -> String {
        format!("{CUBE}users/{}/", index + 1)
    }

    fn user_body(&self, index: usize) -> ResponseBody {
        ResponseBody::User {
            url: Self::user_url(index),
            email: self.users[index].email.clone(),
            groups: format!("{}groups/", Self::user_url(index)),
        }
    }

    fn ok(status: u16, url: &str, body: ResponseBody) -> Event {
        Event::Response { status, url: url.to_string(), body: Ok(body) }
    }

    fn status(status: u16, url: &str) -> Event {
        Event::Response { status, url: url.to_string(), body: Err("no body".to_string()) }
    }

    fn search(plugins: &[PluginInfo], query: &str) -> Option<PluginInfo> {
        plugins
            .iter()
            .find(|p| {
                query.contains(&format!("name_exact={}&", p.name))
                    && (!query.contains("version=")
                        || query.contains(&format!("version={}&", p.version)))
            })
            .map(|p| PluginInfo {
                id: p.id.clone(),
                name: p.name.clone(),
                version: p.version.clone(),
                url: p.url.clone(),
            })
    }

    fn handle(&mut self, request: &Request) -> Event {
        self.requests.push((request.method, request.url.clone()));
        let url = request.url.as_str();
        if url == format!("{CUBE}auth-token/") {
            let (username, password) = match &request.body {
                Some(JsonBody::AuthTokenRequest { username, password }) => (username, password),
                _ => return Self::status(415, url),
            };
            if self.unreachable_for.as_deref() == Some(username.as_str()) {
                return Event::Failed("connection refused".to_string());
            }
            let known =
                self.users.iter().any(|u| &u.username == username && &u.password == password);
            if known {
                return Self::ok(200, url, ResponseBody::AuthToken { token: format!("tok-{username}") });
            }
            return Self::status(400, url);
        }
        if url == format!("{CUBE}users/") && request.method == Method::Post {
            return match &request.body {
                Some(JsonBody::UserRequest { username: Some(username), email, password }) => {
                    self.users.push(FakeUser {
                        username: username.clone(),
                        password: password.clone(),
                        email: email.clone(),
                    });
                    Self::ok(201, url, self.user_body(self.users.len() - 1))
                },
                _ => Self::status(400, url),
            };
        }
        let who = request
            .authorization
            .as_deref()
            .and_then(|a| a.strip_prefix("Token tok-"))
            .and_then(|name| self.users.iter().position(|u| u.username == name));
        if url == format!("{CUBE}?limit=1") {
            return match who {
                Some(index) => Self::ok(200, url, ResponseBody::Root { user: Self::user_url(index) }),
                None => Self::status(401, url),
            };
        }
        for index in 0..self.users.len() {
            if url == Self::user_url(index) {
                if who != Some(index) {
                    return Self::status(403, url);
                }
                if request.method == Method::Put {
                    if let Some(JsonBody::UserRequest { email, .. }) = &request.body {
                        self.users[index].email = email.clone();
                    }
                }
                return Self::ok(200, url, self.user_body(index));
            }
        }
        if let Some(query) = url.strip_prefix(&format!("{CUBE}plugins/?")) {
            let first = Self::search(&self.plugins, query);
            return Self::ok(200, url, ResponseBody::PluginList { first });
        }
        if let Some(query) = url.strip_prefix(&format!("{PEER}plugins/?")) {
            let first = Self::search(&self.peer_plugins, query);
            return Self::ok(200, url, ResponseBody::PluginList { first });
        }
        if url == format!("{CUBE}computeresources/") && request.method == Method::Get {
            return match request.authorization.as_deref() {
                Some(_) if self.list_denied => Self::status(403, url),
                Some("Basic Y2hyaXM6Y2hyaXMxMjM0") => Self::ok(
                    200,
                    url,
                    ResponseBody::ComputeResourceList { names: self.compute_resources.clone() },
                ),
                _ => Self::status(401, url),
            };
        }
        if url == "https://c/chris-admin/api/v1/" && request.method == Method::Post {
            return match (&request.body, &request.authorization) {
                (
                    Some(JsonBody::PluginAdminRequest { plugin_store_url, compute_names }),
                    Some(auth),
                ) if auth == "Basic Y2hyaXM6Y2hyaXMxMjM0" => {
                    self.registered_to = Some(compute_names.clone());
                    let found = self.peer_plugins.iter().find(|p| &p.url == plugin_store_url);
                    match found {
                        Some(p) => {
                            let info = || PluginInfo {
                                id: "7".to_string(),
                                name: p.name.clone(),
                                version: p.version.clone(),
                                url: format!("{CUBE}plugins/7/"),
                            };
                            let body = ResponseBody::Plugin(info());
                            self.plugins.push(info());
                            Self::ok(201, url, body)
                        },
                        None => Self::status(400, url),
                    }
                },
                _ => Self::status(401, url),
            };
        }
        Self::status(404, url)
    }
}

struct Run {
    outcomes: Vec<(usize, Outcome)>,
    /// For each step that was started, its node and the nodes that were done by then.
    started: Vec<(usize, Vec<usize>)>,
    executor: TreeExecutor,
}

impl Run {
    fn effects(&self) -> Vec<StepEffect> {
        self.outcomes.iter().map(|(_, o)| o.effect.clone()).collect()
    }

    fn counts(&self) -> Counts {
        let mut summary = ChrisomaticEffects::with_capacity(self.outcomes.len());
        for (_, outcome) in &self.outcomes {
            summary.update(outcome.clone());
        }
        summary.count()
    }

    fn summary(&self) -> ChrisomaticEffects {
        let mut summary = ChrisomaticEffects::with_capacity(self.outcomes.len());
        for (_, outcome) in &self.outcomes {
            summary.update(outcome.clone());
        }
        summary
    }
}

/// Runs a plan against the backend, one step at a time, oldest first.
fn run(tree: DependencyTree<PendingStep>, cube: &mut FakeCube) -> Run {
    let (mut executor, dispatch) = TreeExecutor::new(tree);
    let mut outcomes = vec![];
    let mut started = vec![];
    let mut queue = VecDeque::new();
    let mut absorb = |dispatch: Dispatch,
                      outcomes: &mut Vec<(usize, Outcome)>,
                      queue: &mut VecDeque<_>| {
        outcomes.extend(dispatch.outcomes);
        for (id, step) in dispatch.launches {
            started.push((id, outcomes.iter().map(|(n, _)| *n).collect::<Vec<_>>()));
            queue.push_back((id, step));
        }
    };
    absorb(dispatch, &mut outcomes, &mut queue);
    while let Some((id, step)) = queue.pop_front() {
        assert!(!executor.is_finished());
        let mut progress = start(step);
        let (outcome, entries) = loop {
            match progress {
                Progress::Send { run, request, .. } => {
                    let event = cube.handle(&request);
                    progress = run.advance(event);
                },
                Progress::Finish { outcome, entries } => break (outcome, entries),
            }
        };
        let dispatch = executor.complete(id, outcome, entries);
        absorb(dispatch, &mut outcomes, &mut queue);
    }
    assert!(executor.is_finished());
    assert_eq!(executor.count(), 0);
    Run { outcomes, started, executor }
}

fn user(name: &str) -> Username {
    Username::new(name.to_string())
}

fn details(name: &str, email: &str) -> (Username, UserDetails) {
    (
        user(name),
        UserDetails { password: format!("{name}1234"), email: email.to_string(), groups: vec![] },
    )
}

fn manifest(users: Vec<(Username, UserDetails)>, admin: bool, plugins: Vec<PluginConfig>) -> Manifest {
    Manifest {
        global: Global {
            cube: CubeUrl::try_new(CUBE).unwrap(),
            admin: if admin {
                Some(UserCredentials::basic_auth(user("chris"), "chris1234".to_string()))
            } else {
                None
            },
            email_domain: "example.org".to_string(),
            peer: Some(CubeUrl::try_new(PEER).unwrap()),
        },
        user: users,
        compute_resource: vec![],
        plugins,
    }
}

fn pl_x(compute: &[&str]) -> PluginConfig {
    PluginConfig {
        name: "pl-x".to_string(),
        version: Some("1.0.0".to_string()),
        compute_resources: compute
            .iter()
            .map(|n| chrisomatic::types::ComputeResourceName::new(n.to_string()))
            .collect(),
    }
}

fn pl_x_in_peer() -> PluginInfo {
    PluginInfo {
        id: "3".to_string(),
        name: "pl-x".to_string(),
        version: "1.0.0".to_string(),
        url: format!("{PEER}plugins/3/"),
    }
}

#[test]
fn test_single_new_user() {
    let manifest = manifest(vec![details("alice", "alice@example.org")], true, vec![]);
    let tree = plan(&manifest);
    assert_eq!(tree.count(), 5);
    let mut cube = FakeCube::empty();
    let run = run(tree, &mut cube);
    let alice = Resource::User(user("alice"));
    let created: Vec<_> = run
        .outcomes
        .iter()
        .filter(|(_, o)| o.target == alice && o.effect == StepEffect::Created)
        .collect();
    assert_eq!(created.len(), 1);
    assert_eq!(run.outcomes.len(), 5);
    assert!(run.outcomes.iter().all(|(_, o)| o.target == alice));
    assert_eq!(
        run.counts(),
        Counts { created: 1, unmodified: 0, modified: 0, unfulfilled: 0, error: 0 }
    );
    assert_eq!(cube.users.len(), 1);
    assert_eq!(cube.users[0].email, "alice@example.org");
    assert_eq!(
        cube.requests,
        vec![
            (Method::Post, format!("{CUBE}auth-token/")),
            (Method::Post, format!("{CUBE}users/")),
            (Method::Post, format!("{CUBE}auth-token/")),
        ]
    );
    let store = run.executor.store();
    assert_eq!(store.len(), 5);
}

#[test]
fn test_idempotent_reapply() {
    let manifest = manifest(vec![details("alice", "alice@example.org")], true, vec![]);
    let mut cube = FakeCube::empty();
    cube.users.push(FakeUser {
        username: "alice".to_string(),
        password: "alice1234".to_string(),
        email: "alice@example.org".to_string(),
    });
    let run = run(plan(&manifest), &mut cube);
    assert_eq!(run.outcomes.len(), 5);
    assert!(run.effects().iter().all(|e| *e == StepEffect::Unmodified));
    assert_eq!(
        run.summary().get(&Resource::User(user("alice"))),
        Some(&StepEffect::Unmodified)
    );
    let counts = run.counts();
    assert_eq!(counts.created, 0);
    assert_eq!(counts.modified, 0);
    assert_eq!(counts.error, 0);
    assert_eq!(counts.unmodified, 1);
    assert!(cube.requests.iter().all(|(method, url)| {
        *method == Method::Get || url == &format!("{CUBE}auth-token/")
    }));
}

#[test]
fn test_email_drift() {
    let manifest = manifest(vec![details("alice", "a@new")], true, vec![]);
    let mut cube = FakeCube::empty();
    cube.users.push(FakeUser {
        username: "alice".to_string(),
        password: "alice1234".to_string(),
        email: "a@old".to_string(),
    });
    let run = run(plan(&manifest), &mut cube);
    assert_eq!(
        run.summary().get(&Resource::User(user("alice"))),
        Some(&StepEffect::Modified)
    );
    let modified: Vec<usize> = run
        .outcomes
        .iter()
        .filter(|(_, o)| o.effect == StepEffect::Modified)
        .map(|(id, _)| *id)
        .collect();
    assert_eq!(modified.len(), 1);
    // the step that sets the email address is the last of the chain, and the
    // one that sent the only PUT
    assert_eq!(run.outcomes.last().unwrap().0, modified[0]);
    let puts: Vec<_> = cube.requests.iter().filter(|(m, _)| *m == Method::Put).collect();
    assert_eq!(puts, vec![&(Method::Put, format!("{CUBE}users/1/"))]);
    assert_eq!(cube.users[0].email, "a@new");
    assert_eq!(
        run.counts(),
        Counts { created: 0, unmodified: 0, modified: 1, unfulfilled: 0, error: 0 }
    );
    assert_eq!(
        run.executor.store().lookup(&Dependency::UserEmail(user("alice"))).unwrap().as_str(),
        "a@new"
    );
}

#[test]
fn test_missing_admin_blocks_plugin_add() {
    let manifest = manifest(vec![], false, vec![pl_x(&["host"])]);
    let tree = plan(&manifest);
    assert_eq!(tree.count(), 3);
    let mut cube = FakeCube::empty();
    cube.peer_plugins.push(pl_x_in_peer());
    let run = run(tree, &mut cube);
    assert_eq!(run.outcomes.len(), 3);
    assert_eq!(
        run.effects(),
        vec![
            StepEffect::Unmodified,
            StepEffect::Unmodified,
            StepEffect::Unfulfilled(Dependency::AdminCredentials)
        ]
    );
    let counts = run.counts();
    assert!(counts.unfulfilled >= 1);
    assert_eq!(
        counts,
        Counts { created: 0, unmodified: 0, modified: 0, unfulfilled: 1, error: 0 }
    );
    assert!(cube.requests.iter().all(|(method, _)| *method == Method::Get));
    assert_eq!(cube.requests.len(), 2);
    assert!(cube.plugins.is_empty());
}

#[test]
fn test_plugin_is_added_from_peer() {
    let manifest = manifest(vec![], true, vec![pl_x(&["host", "moc"])]);
    let mut cube = FakeCube::empty();
    cube.peer_plugins.push(pl_x_in_peer());
    let run = run(plan(&manifest), &mut cube);
    assert_eq!(
        run.effects(),
        vec![StepEffect::Unmodified, StepEffect::Unmodified, StepEffect::Created]
    );
    let spec = PluginSpec::new("pl-x".to_string(), "1.0.0".to_string());
    assert_eq!(run.summary().get(&Resource::Plugin(spec.clone())), Some(&StepEffect::Created));
    assert_eq!(cube.plugins.len(), 1);
    let store = run.executor.store();
    assert_eq!(store.lookup(&Dependency::Plugin(spec.clone())).unwrap().as_str(), "7");
    assert_eq!(
        store.lookup(&Dependency::PluginUrl(spec.clone())).unwrap().as_str(),
        "https://c/api/v1/plugins/7/"
    );
    assert_eq!(
        store.lookup(&Dependency::PluginPeerUrl(spec)).unwrap().as_str(),
        "https://peer/api/v1/plugins/3/"
    );
    assert_eq!(
        cube.requests.last(),
        Some(&(Method::Post, "https://c/chris-admin/api/v1/".to_string()))
    );
}

#[test]
fn test_plugin_for_all_compute_resources_waits_for_their_list() {
    let manifest = manifest(vec![], true, vec![pl_x(&[])]);
    let mut cube = FakeCube::empty();
    cube.peer_plugins.push(pl_x_in_peer());
    cube.compute_resources = vec!["host".to_string(), "galena".to_string()];
    let tree = plan(&manifest);
    assert_eq!(tree.count(), 4);
    let run = run(tree, &mut cube);
    assert_eq!(run.outcomes.len(), 4);
    assert_eq!(run.effects().last(), Some(&StepEffect::Created));
    assert_eq!(
        run.counts(),
        Counts { created: 1, unmodified: 1, modified: 0, unfulfilled: 0, error: 0 }
    );
    assert_eq!(run.summary().get(&Resource::Cube), Some(&StepEffect::Unmodified));
    assert_eq!(cube.registered_to.as_deref(), Some("host,galena"));
    let store = run.executor.store();
    assert_eq!(store.lookup(&Dependency::ComputeResourceAll).unwrap().as_str(), "host,galena");
    // the list was asked for before the plugin was registered
    let asked = cube
        .requests
        .iter()
        .position(|(_, url)| url == "https://c/api/v1/computeresources/")
        .unwrap();
    assert!(asked < cube.requests.len() - 1);
}

#[test]
fn test_plugin_for_all_compute_resources_without_their_list() {
    let manifest = manifest(vec![], true, vec![pl_x(&[])]);
    let mut cube = FakeCube::empty();
    cube.peer_plugins.push(pl_x_in_peer());
    cube.list_denied = true;
    let run = run(plan(&manifest), &mut cube);
    assert_eq!(run.outcomes.len(), 4);
    let for_cube: Vec<&StepEffect> = run
        .outcomes
        .iter()
        .filter(|(_, o)| o.target == Resource::Cube)
        .map(|(_, o)| &o.effect)
        .collect();
    assert_eq!(for_cube.len(), 1);
    assert!(matches!(for_cube[0], StepEffect::Error(_)));
    assert_eq!(
        run.effects().last(),
        Some(&StepEffect::Unfulfilled(Dependency::ComputeResourceAll))
    );
    assert!(cube.plugins.is_empty());
}

#[test]
fn test_plugin_missing_in_peer_cannot_be_created() {
    let manifest = manifest(vec![], true, vec![pl_x(&["host"])]);
    let mut cube = FakeCube::empty();
    let run = run(plan(&manifest), &mut cube);
    let spec = PluginSpec::new("pl-x".to_string(), "1.0.0".to_string());
    assert_eq!(
        run.effects(),
        vec![
            StepEffect::Unmodified,
            StepEffect::Error(StepError::Uncreatable(
                "https://peer/api/v1/plugins/?name_exact=pl-x&version=1.0.0&limit=1".to_string()
            )),
            StepEffect::Unfulfilled(Dependency::PluginPeerUrl(spec)),
        ]
    );
}

#[test]
fn test_transport_error_isolates_subgraph() {
    let manifest = manifest(
        vec![details("alice", "alice@example.org"), details("bob", "bob@example.org")],
        true,
        vec![],
    );
    let tree = plan(&manifest);
    assert_eq!(tree.count(), 10);
    let mut cube = FakeCube::empty();
    cube.unreachable_for = Some("bob".to_string());
    let run = run(tree, &mut cube);
    assert_eq!(run.outcomes.len(), 10);
    let bob = Resource::User(user("bob"));
    let for_bob: Vec<&StepEffect> =
        run.outcomes.iter().filter(|(_, o)| o.target == bob).map(|(_, o)| &o.effect).collect();
    let failed = StepEffect::Error(StepError::Request(RequestError::Transport(
        "connection refused".to_string(),
    )));
    let unfulfilled = StepEffect::Unfulfilled(Dependency::UserExists(user("bob")));
    assert_eq!(
        for_bob,
        vec![&failed, &unfulfilled, &unfulfilled, &unfulfilled, &unfulfilled]
    );
    let alice = Resource::User(user("alice"));
    let for_alice: Vec<&StepEffect> =
        run.outcomes.iter().filter(|(_, o)| o.target == alice).map(|(_, o)| &o.effect).collect();
    assert_eq!(for_alice.len(), 5);
    assert_eq!(for_alice.iter().filter(|e| ***e == StepEffect::Created).count(), 1);
    assert_eq!(for_alice.iter().filter(|e| ***e == StepEffect::Unmodified).count(), 4);
    let summary = run.summary();
    assert_eq!(summary.get(&bob), Some(&failed));
    assert_eq!(summary.get(&alice), Some(&StepEffect::Created));
    assert_eq!(
        run.counts(),
        Counts { created: 1, unmodified: 0, modified: 0, unfulfilled: 0, error: 1 }
    );
    assert!(!run.counts().all_ok());
}

#[test]
fn test_second_run_yields_only_unmodified() {
    let manifest = manifest(
        vec![details("alice", "alice@example.org"), details("bob", "bob@chris.test")],
        true,
        vec![pl_x(&["host"])],
    );
    let mut cube = FakeCube::empty();
    cube.peer_plugins.push(pl_x_in_peer());
    let first = run(plan(&manifest), &mut cube);
    assert_eq!(first.outcomes.len(), 13);
    assert_eq!(
        first.counts(),
        Counts { created: 3, unmodified: 0, modified: 0, unfulfilled: 0, error: 0 }
    );
    let second = run(plan(&manifest), &mut cube);
    assert_eq!(second.outcomes.len(), 13);
    assert!(second.effects().iter().all(|e| *e == StepEffect::Unmodified));
    assert_eq!(
        second.counts(),
        Counts { created: 0, unmodified: 3, modified: 0, unfulfilled: 0, error: 0 }
    );
    assert_eq!(cube.users.len(), 2);
    assert_eq!(cube.plugins.len(), 1);
}

fn task(name: &str) -> UserTask {
    UserTask {
        username: user(name),
        password: format!("{name}1234"),
        email: format!("{name}@example.org"),
        url: CubeUrl::try_new(CUBE).unwrap(),
    }
}

#[test]
fn test_steps_start_after_what_they_wait_for() {
    let mut builder: TreeBuilder<PendingStep> = TreeBuilder::new();
    let exists = builder.add(PendingStep::UserExists(task("alice")), &vec![]);
    let token = builder.add(PendingStep::UserGetAuthToken(task("alice")), &vec![exists]);
    let url = builder.add(PendingStep::UserGetUrl(task("alice")), &vec![token]);
    let other = builder.add(PendingStep::UserExists(task("bob")), &vec![]);
    let details = builder.add(PendingStep::UserGetDetails(task("alice")), &vec![url, token, other]);
    let edges = [(exists, token), (token, url), (url, details), (token, details), (other, details)];
    let mut cube = FakeCube::empty();
    let run = run(builder.build(), &mut cube);
    assert_eq!(run.outcomes.len(), 5);
    let order: Vec<usize> = run.outcomes.iter().map(|(id, _)| *id).collect();
    for (before, after) in edges {
        let first = order.iter().position(|n| *n == before).unwrap();
        let second = order.iter().position(|n| *n == after).unwrap();
        assert!(first < second);
        for (id, done) in &run.started {
            if *id == after {
                assert!(done.contains(&before));
            }
        }
    }
    // both roots were started before anything was done
    let roots: Vec<usize> =
        run.started.iter().filter(|(_, done)| done.is_empty()).map(|(id, _)| *id).collect();
    assert_eq!(roots.len(), 2);
    assert!(roots.contains(&exists) && roots.contains(&other));
}

#[test]
fn test_report_for_a_step_that_is_not_running_is_ignored() {
    let manifest = manifest(vec![details("alice", "alice@example.org")], true, vec![]);
    let (mut executor, dispatch) = TreeExecutor::new(plan(&manifest));
    assert!(dispatch.outcomes.is_empty());
    assert_eq!(dispatch.launches.len(), 1);
    let running = dispatch.launches[0].0;
    let outcome = || Outcome { target: Resource::User(user("alice")), effect: StepEffect::Created };
    let ignored = executor.complete(running + 100, outcome(), vec![]);
    assert!(ignored.outcomes.is_empty() && ignored.launches.is_empty());
    assert_eq!(executor.count(), 5);
    assert!(!executor.is_finished());
    let next = executor.complete(
        running,
        outcome(),
        vec![(Dependency::UserExists(user("alice")), String::new())],
    );
    assert_eq!(next.outcomes, vec![(running, outcome())]);
    assert_eq!(next.launches.len(), 1);
    assert_eq!(executor.count(), 4);
    let again = executor.complete(running, outcome(), vec![]);
    assert!(again.outcomes.is_empty() && again.launches.is_empty());
    assert_eq!(executor.count(), 4);
}

#[test]
fn test_empty_plan_is_finished_at_once() {
    let manifest = manifest(vec![], true, vec![]);
    let tree = plan(&manifest);
    assert_eq!(tree.count(), 0);
    let (executor, dispatch) = TreeExecutor::new(tree);
    assert!(executor.is_finished());
    assert!(dispatch.outcomes.is_empty() && dispatch.launches.is_empty());
    assert_eq!(executor.store().len(), 0);
}

struct Driven {
    outcomes: Vec<(usize, Outcome)>,
    runner: Runner,
}

/// Runs a plan against the backend with a runner: the steps stay with the
/// runner, and only requests and answers pass through here.
fn drive(tree: DependencyTree<PendingStep>, cube: &mut FakeCube) -> Driven {
    let (mut runner, mut outcomes) = Runner::new(tree);
    let mut sends = VecDeque::new();
    loop {
        let Turn { outcomes: reported, send } = match sends.pop_front() {
            Some((id, request)) => {
                let event = cube.handle(&request);
                runner.answer(id, event)
            },
            None if runner.is_finished() => break,
            None => runner.next(),
        };
        outcomes.extend(reported);
        if let Some((id, request, _)) = send {
            sends.push_back((id, request));
        }
    }
    Driven { outcomes, runner }
}

#[test]
fn test_runner_runs_a_plan_as_the_executor_does() {
    let manifest = manifest(
        vec![details("alice", "alice@example.org"), details("bob", "bob@chris.test")],
        true,
        vec![pl_x(&[])],
    );
    let mut cube = FakeCube::empty();
    cube.peer_plugins.push(pl_x_in_peer());
    cube.compute_resources = vec!["host".to_string()];
    let driven = drive(plan(&manifest), &mut cube);
    assert_eq!(driven.outcomes.len(), 14);
    let mut nodes: Vec<usize> = driven.outcomes.iter().map(|(n, _)| *n).collect();
    nodes.sort();
    nodes.dedup();
    assert_eq!(nodes.len(), 14);
    let created = driven.outcomes.iter().filter(|(_, o)| o.effect == StepEffect::Created).count();
    assert_eq!(created, 3);
    assert!(driven.outcomes.iter().all(|(_, o)| {
        o.effect == StepEffect::Created || o.effect == StepEffect::Unmodified
    }));
    let mut again = FakeCube::empty();
    again.peer_plugins.push(pl_x_in_peer());
    again.compute_resources = vec!["host".to_string()];
    let by_executor = run(plan(&manifest), &mut again);
    assert_eq!(by_executor.counts().created, 3);
    assert_eq!(by_executor.outcomes.len(), driven.outcomes.len());
}

#[test]
fn test_runner_holds_values_for_pledged_keys_only() {
    let manifest = manifest(
        vec![details("alice", "alice@example.org")],
        true,
        vec![pl_x(&["host"])],
    );
    let tree = plan(&manifest);
    let mut pledged: Vec<Dependency> = vec![];
    for node in 0..tree.count() {
        let step = tree.get(node).unwrap();
        for key in Vec::from(step.provides()) {
            if !pledged.contains(&key) {
                pledged.push(key);
            }
        }
    }
    let mut cube = FakeCube::empty();
    cube.peer_plugins.push(pl_x_in_peer());
    let driven = drive(tree, &mut cube);
    let store = driven.runner.store();
    let held = pledged.iter().filter(|key| store.lookup(key).is_some()).count();
    assert!(held > 0);
    assert_eq!(held, store.len());
}

#[test]
fn test_runner_ignores_an_answer_that_nobody_awaits() {
    let manifest = manifest(vec![details("alice", "alice@example.org")], true, vec![]);
    let (mut runner, outcomes) = Runner::new(plan(&manifest));
    assert!(outcomes.is_empty());
    assert!(!runner.is_finished());
    let nothing = Turn { outcomes: vec![], send: None };
    assert_eq!(runner.answer(0, Event::Failed("late".to_string())), nothing);
    assert!(!runner.reads_body(0, 200));
    let turn = runner.next();
    let (id, request, _) = turn.send.unwrap();
    assert_eq!(request.url, "https://c/api/v1/auth-token/");
    assert!(runner.reads_body(id, 200));
    assert!(!runner.reads_body(id, 400));
    assert!(!runner.reads_body(id + 1, 200));
    assert_eq!(runner.next(), nothing);
    assert_eq!(runner.answer(id + 1, Event::Failed("other".to_string())), nothing);
    let turn = runner.answer(id, Event::Failed("connection refused".to_string()));
    assert_eq!(turn.send, None);
    assert_eq!(turn.outcomes.len(), 5);
    assert!(runner.is_finished());
}
