use std::rc::Rc;

use chrisomatic::dependency::{Dependency, Resource};
use chrisomatic::effect::{EffectKind, Method, Outcome, RequestError, StepEffect, StepError};
use chrisomatic::exec_step::{start, Event, Progress, StepRun};
use chrisomatic::dependency_tree::DependencyTree;
use chrisomatic::plan::{add_steps_for_plugin, add_steps_for_user, plan, PlanBuilder};
use chrisomatic::plugin_spec::PluginSpec;
use chrisomatic::request_builder::JsonBody;
use chrisomatic::spec::{Global, Manifest, UserCredentials, UserDetails};
use chrisomatic::state::DependencyHashMap;
use chrisomatic::step::{BodyKind, Check, PluginInfo, ResponseBody, StatusCheck};
use chrisomatic::steps::plugin::{admin_url, join_compute_names, query_of, search_plugin};
use chrisomatic::steps::{CubeTask, PendingStep, PluginTask, Step, StepRequest, UserTask};
use chrisomatic::types::{ComputeResourceName, CubeUrl, Username};

fn user(name: &str) -> Username {
    Username::new(name.to_string())
}

fn alice() -> UserTask {
    UserTask {
        username: user("alice"),
        password: "alice1234".to_string(),
        email: "alice@example.org".to_string(),
        url: CubeUrl::try_new("https://c/api/v1/").unwrap(),
    }
}

fn searching(step: Step) -> StepRun {
    match start(step) {
        Progress::Send { run, .. } => run,
        other => panic!("{other:?}"),
    }
}

fn response(status: u16, body: ResponseBody) -> Event {
    Event::Response { status, url: "https://c/answered/".to_string(), body: Ok(body) }
}

fn failed(error: StepError) -> Progress {
    Progress::Finish {
        outcome: Outcome { target: Resource::User(user("alice")), effect: StepEffect::Error(error) },
        entries: vec![],
    }
}

fn user_body() -> ResponseBody {
    ResponseBody::User {
        url: "https://c/api/v1/users/5/".to_string(),
        email: "alice@example.org".to_string(),
        groups: "https://c/api/v1/users/5/groups/".to_string(),
    }
}

fn user_entries() -> Vec<(Dependency, String)> {
    vec![
        (Dependency::UserExists(user("alice")), String::new()),
        (Dependency::UserUrl(user("alice")), "https://c/api/v1/users/5/".to_string()),
        (Dependency::UserEmail(user("alice")), "alice@example.org".to_string()),
        (Dependency::UserGroupsUrl(user("alice")), "https://c/api/v1/users/5/groups/".to_string()),
    ]
}

#[test]
fn test_start_sends_the_search() {
    match start(Step::UserExists(alice())) {
        Progress::Send { run, request, expects } => {
            assert_eq!(run, StepRun::Searching(Step::UserExists(alice())));
            assert_eq!(request.method, Method::Post);
            assert_eq!(request.url, "https://c/api/v1/auth-token/");
            assert_eq!(request.accept, Some("application/json".to_string()));
            assert_eq!(request.content_type, Some("application/json".to_string()));
            assert_eq!(request.authorization, None);
            assert_eq!(
                request.body,
                Some(JsonBody::AuthTokenRequest {
                    username: "alice".to_string(),
                    password: "alice1234".to_string()
                })
            );
            assert_eq!(expects, BodyKind::AuthToken);
        },
        other => panic!("{other:?}"),
    }
}

#[test]
fn test_found_resource_is_unmodified() {
    let progress = searching(Step::UserGetAuthToken(alice()))
        .advance(response(200, ResponseBody::AuthToken { token: "abc".to_string() }));
    assert_eq!(
        progress,
        Progress::Finish {
            outcome: Outcome {
                target: Resource::User(user("alice")),
                effect: StepEffect::Unmodified
            },
            entries: vec![
                (Dependency::UserExists(user("alice")), String::new()),
                (Dependency::AuthToken(user("alice")), "Token abc".to_string()),
            ],
        }
    );
}

#[test]
fn test_status_error_carries_status_method_and_url() {
    let progress = searching(Step::UserGetAuthToken(alice()))
        .advance(response(400, ResponseBody::AuthToken { token: "abc".to_string() }));
    assert_eq!(
        progress,
        failed(StepError::Status {
            status: 400,
            method: Method::Post,
            url: "https://c/answered/".to_string()
        })
    );
    let step = Step::UserGetDetails {
        task: alice(),
        user_url: Rc::new("https://c/api/v1/users/5/".to_string()),
        auth_token: Rc::new("Token abc".to_string()),
    };
    let progress = searching(step).advance(response(503, user_body()));
    assert_eq!(
        progress,
        failed(StepError::Status {
            status: 503,
            method: Method::Get,
            url: "https://c/answered/".to_string()
        })
    );
}

#[test]
fn test_transport_error_fails_the_step() {
    let progress =
        searching(Step::UserExists(alice())).advance(Event::Failed("tls handshake".to_string()));
    assert_eq!(
        progress,
        failed(StepError::Request(RequestError::Transport("tls handshake".to_string())))
    );
}

#[test]
fn test_unreadable_body_fails_the_step() {
    let event = Event::Response {
        status: 200,
        url: "https://c/answered/".to_string(),
        body: Err("expected value at line 1 column 1".to_string()),
    };
    assert_eq!(
        searching(Step::UserExists(alice())).advance(event),
        failed(StepError::Deserialize("expected value at line 1 column 1".to_string()))
    );
    assert_eq!(
        searching(Step::UserExists(alice())).advance(response(200, user_body())),
        failed(StepError::Deserialize("unexpected response body".to_string()))
    );
}

#[test]
fn test_missing_user_is_created() {
    let progress = searching(Step::UserExists(alice()))
        .advance(Event::Response {
            status: 400,
            url: "https://c/api/v1/auth-token/".to_string(),
            body: Err("not read".to_string()),
        });
    let run = match progress {
        Progress::Send { run, request, expects } => {
            assert_eq!(request.method, Method::Post);
            assert_eq!(request.url, "https://c/api/v1/users/");
            assert_eq!(
                request.body,
                Some(JsonBody::UserRequest {
                    username: Some("alice".to_string()),
                    email: "alice@example.org".to_string(),
                    password: "alice1234".to_string()
                })
            );
            assert_eq!(expects, BodyKind::User);
            run
        },
        other => panic!("{other:?}"),
    };
    assert_eq!(
        run.advance(response(201, user_body())),
        Progress::Finish {
            outcome: Outcome { target: Resource::User(user("alice")), effect: StepEffect::Created },
            entries: user_entries(),
        }
    );
}

fn following_up() -> StepRun {
    let progress = searching(Step::UserExists(alice()))
        .advance(Event::Response {
            status: 400,
            url: "https://c/api/v1/auth-token/".to_string(),
            body: Err("not read".to_string()),
        });
    match progress {
        Progress::Send { run, .. } => run,
        other => panic!("{other:?}"),
    }
}

#[test]
fn test_follow_up_failures() {
    assert_eq!(
        following_up().advance(response(409, user_body())),
        failed(StepError::Request(RequestError::Status {
            status: 409,
            url: "https://c/answered/".to_string()
        }))
    );
    assert_eq!(
        following_up().advance(Event::Failed("reset".to_string())),
        failed(StepError::Request(RequestError::Transport("reset".to_string())))
    );
    assert_eq!(
        following_up().advance(Event::Response {
            status: 201,
            url: "https://c/answered/".to_string(),
            body: Err("eof".to_string())
        }),
        failed(StepError::Deserialize("eof".to_string()))
    );
    assert_eq!(
        following_up().advance(response(201, ResponseBody::Root { user: "x".to_string() })),
        failed(StepError::Deserialize("unexpected response body".to_string()))
    );
}

#[test]
fn test_set_email_reports_modified() {
    let step = Step::UserSetEmail {
        task: alice(),
        user_url: Rc::new("https://c/api/v1/users/5/".to_string()),
        auth_token: Rc::new("Token abc".to_string()),
    };
    assert_eq!(step.method(), Method::Put);
    let request = step.search().unwrap();
    assert_eq!(request.method, Method::Put);
    assert_eq!(request.url, "https://c/api/v1/users/5/");
    assert_eq!(request.authorization, Some("Token abc".to_string()));
    assert_eq!(
        request.body,
        Some(JsonBody::UserRequest {
            username: None,
            email: "alice@example.org".to_string(),
            password: "alice1234".to_string()
        })
    );
    assert_eq!(step.deserialize(user_body()), Ok(Check::Modified(user_entries())));
    assert_eq!(step.modify(), None);
    assert_eq!(step.create(), None);
    assert_eq!(
        searching(step).advance(response(200, user_body())),
        Progress::Finish {
            outcome: Outcome { target: Resource::User(user("alice")), effect: StepEffect::Modified },
            entries: user_entries(),
        }
    );
}

#[test]
fn test_status_rules() {
    let exists = Step::UserExists(alice());
    assert_eq!(exists.check_status(400), StatusCheck::DoesNotExist);
    assert_eq!(exists.check_status(200), StatusCheck::Exists);
    assert_eq!(exists.check_status(401), StatusCheck::Error);
    assert_eq!(exists.check_status(404), StatusCheck::Error);
    let token = Step::UserGetAuthToken(alice());
    assert_eq!(token.check_status(400), StatusCheck::Error);
    assert_eq!(token.check_status(204), StatusCheck::Exists);
    assert_eq!(
        exists.create(),
        Some(StepRequest::CreateUser(alice()))
    );
    assert_eq!(token.create(), None);
}

fn plugin_task(admin: bool, compute: &[&str], peer: bool) -> PluginTask {
    PluginTask {
        url: CubeUrl::try_new("https://c/api/v1/").unwrap(),
        peer: if peer { Some(CubeUrl::try_new("https://peer/api/v1/").unwrap()) } else { None },
        plugin: PluginSpec::new("pl-x".to_string(), "1.0.0".to_string()),
        admin: if admin {
            Some(UserCredentials::basic_auth(user("chris"), "chris1234".to_string()))
        } else {
            None
        },
        compute_names: compute.iter().map(|n| ComputeResourceName::new(n.to_string())).collect(),
    }
}

#[test]
fn test_plugin_requests() {
    let spec = PluginSpec::new("pl-x".to_string(), "1.0.0".to_string());
    assert_eq!(query_of(&spec), "name_exact=pl-x&version=1.0.0&limit=1");
    assert_eq!(query_of(&PluginSpec::from_name("pl-x".to_string())), "name_exact=pl-x&limit=1");
    let admin = |url: &str| admin_url(&CubeUrl::try_new(url).unwrap());
    assert_eq!(admin("https://c/api/v1/"), Some("https://c/chris-admin/api/v1/".to_string()));
    assert_eq!(admin("http://c/elsewhere/"), Some("http://c/elsewhere/".to_string()));
    assert_eq!(admin("http://host:8000"), Some("http://host:8000/".to_string()));
    assert_eq!(
        admin("http://c/api/v1/x/api/v1/?limit=1"),
        Some("http://c/chris-admin/api/v1/x/chris-admin/api/v1/?limit=1".to_string())
    );
    assert_eq!(admin("http://"), None);
    let names = |list: &[&str]| -> Vec<ComputeResourceName> {
        list.iter().map(|n| ComputeResourceName::new(n.to_string())).collect()
    };
    assert_eq!(join_compute_names(&names(&[])), "");
    assert_eq!(join_compute_names(&names(&["host"])), "host");
    assert_eq!(join_compute_names(&names(&["host", "moc", "galena"])), "host,moc,galena");
    let local = Step::PluginFindInLocal(plugin_task(true, &[], true));
    assert_eq!(
        local.search().unwrap().url,
        "https://c/api/v1/plugins/?name_exact=pl-x&version=1.0.0&limit=1"
    );
    assert_eq!(local.search().unwrap().method, Method::Get);
    assert_eq!(local.method(), Method::Get);
    assert_eq!(local.expects(), BodyKind::PluginList);
    let add = Step::PluginAddFromPeer {
        task: plugin_task(true, &["host", "moc"], true),
        admin: UserCredentials::basic_auth(user("chris"), "chris1234".to_string()),
        plugin_peer_url: Rc::new("https://peer/api/v1/plugins/3/".to_string()),
        compute_names_csv: "host,moc".to_string(),
    };
    let follow_up = add.create().unwrap();
    let request = follow_up.request().unwrap();
    assert_eq!(request.method, Method::Post);
    assert_eq!(request.url, "https://c/chris-admin/api/v1/");
    assert_eq!(request.authorization, Some("Basic Y2hyaXM6Y2hyaXMxMjM0".to_string()));
    assert_eq!(
        request.body,
        Some(JsonBody::PluginAdminRequest {
            compute_names: "host,moc".to_string(),
            plugin_store_url: "https://peer/api/v1/plugins/3/".to_string()
        })
    );
    assert_eq!(follow_up.expects(), BodyKind::Plugin);
    let info = PluginInfo {
        id: "7".to_string(),
        name: "pl-x".to_string(),
        version: "1.0.0".to_string(),
        url: "https://c/api/v1/plugins/7/".to_string(),
    };
    assert_eq!(
        follow_up.deserialize(ResponseBody::Plugin(info)),
        Ok(vec![
            (Dependency::Plugin(spec.clone()), "7".to_string()),
            (Dependency::PluginUrl(spec.clone()), "https://c/api/v1/plugins/7/".to_string()),
            (Dependency::PluginVersion(spec), "1.0.0".to_string()),
        ])
    );
}

#[test]
fn test_evaluate_user_steps() {
    let a = || user("alice");
    let mut store = DependencyHashMap::with_capacity(8);
    let exists = PendingStep::UserExists(alice());
    let token = PendingStep::UserGetAuthToken(alice());
    let url = PendingStep::UserGetUrl(alice());
    let get_details = PendingStep::UserGetDetails(alice());
    let finalize = PendingStep::UserDetailsFinalize(alice());
    assert_eq!(exists.evaluate(&mut store), Ok(Some(Step::UserExists(alice()))));
    assert_eq!(token.evaluate(&mut store), Err(Dependency::UserExists(a())));
    assert_eq!(url.evaluate(&mut store), Err(Dependency::UserExists(a())));
    assert_eq!(get_details.evaluate(&mut store), Err(Dependency::UserExists(a())));
    assert_eq!(finalize.evaluate(&mut store), Err(Dependency::UserExists(a())));
    store.insert(Dependency::UserExists(a()), String::new());
    assert_eq!(exists.evaluate(&mut store), Ok(None));
    assert_eq!(token.evaluate(&mut store), Ok(Some(Step::UserGetAuthToken(alice()))));
    assert_eq!(url.evaluate(&mut store), Err(Dependency::AuthToken(a())));
    assert_eq!(get_details.evaluate(&mut store), Err(Dependency::AuthToken(a())));
    assert_eq!(finalize.evaluate(&mut store), Err(Dependency::UserUrl(a())));
    store.insert(Dependency::AuthToken(a()), "Token abc".to_string());
    assert_eq!(token.evaluate(&mut store), Ok(None));
    assert_eq!(
        url.evaluate(&mut store),
        Ok(Some(Step::UserGetUrl { task: alice(), auth_token: Rc::new("Token abc".to_string()) }))
    );
    assert_eq!(get_details.evaluate(&mut store), Err(Dependency::UserUrl(a())));
    store.insert(Dependency::UserUrl(a()), "https://c/api/v1/users/5/".to_string());
    assert_eq!(url.evaluate(&mut store), Ok(None));
    assert_eq!(
        get_details.evaluate(&mut store),
        Ok(Some(Step::UserGetDetails {
            task: alice(),
            user_url: Rc::new("https://c/api/v1/users/5/".to_string()),
            auth_token: Rc::new("Token abc".to_string())
        }))
    );
    assert_eq!(finalize.evaluate(&mut store), Err(Dependency::UserEmail(a())));
    store.insert(Dependency::UserEmail(a()), "a@old".to_string());
    store.insert(Dependency::UserGroupsUrl(a()), "https://c/api/v1/users/5/groups/".to_string());
    assert_eq!(get_details.evaluate(&mut store), Ok(None));
    assert_eq!(
        finalize.evaluate(&mut store),
        Ok(Some(Step::UserSetEmail {
            task: alice(),
            user_url: Rc::new("https://c/api/v1/users/5/".to_string()),
            auth_token: Rc::new("Token abc".to_string())
        }))
    );
    store.insert(Dependency::UserEmail(a()), "alice@example.org".to_string());
    assert_eq!(finalize.evaluate(&mut store), Ok(None));
    assert_eq!(store.len(), 5);
}

#[test]
fn test_evaluate_plugin_steps() {
    let p = || PluginSpec::new("pl-x".to_string(), "1.0.0".to_string());
    let mut store = DependencyHashMap::with_capacity(8);
    let local = PendingStep::PluginFindInLocal(plugin_task(true, &[], true));
    let peer = PendingStep::PluginFindInPeer(plugin_task(true, &[], true));
    let no_peer = PendingStep::PluginFindInPeer(plugin_task(true, &[], false));
    let add_all = PendingStep::PluginAddFromPeer(plugin_task(true, &[], true));
    let add_some = PendingStep::PluginAddFromPeer(plugin_task(true, &["host", "moc"], true));
    let add_no_admin = PendingStep::PluginAddFromPeer(plugin_task(false, &["host"], true));
    assert_eq!(
        local.evaluate(&mut store),
        Ok(Some(Step::PluginFindInLocal(plugin_task(true, &[], true))))
    );
    assert_eq!(peer.evaluate(&mut store), Err(Dependency::PluginCheckedInLocal(p())));
    assert_eq!(add_all.evaluate(&mut store), Err(Dependency::PluginCheckedInLocal(p())));
    store.insert(Dependency::Plugin(p()), String::new());
    store.insert(Dependency::PluginCheckedInLocal(p()), String::new());
    assert_eq!(local.evaluate(&mut store), Ok(None));
    assert_eq!(no_peer.evaluate(&mut store), Err(Dependency::PeerUrl));
    assert_eq!(
        peer.evaluate(&mut store),
        Ok(Some(Step::PluginFindInPeer {
            task: plugin_task(true, &[], true),
            peer: CubeUrl::try_new("https://peer/api/v1/").unwrap()
        }))
    );
    assert_eq!(add_no_admin.evaluate(&mut store), Err(Dependency::AdminCredentials));
    assert_eq!(add_all.evaluate(&mut store), Err(Dependency::ComputeResourceAll));
    assert_eq!(add_some.evaluate(&mut store), Err(Dependency::PluginPeerUrl(p())));
    store.insert(Dependency::PluginPeerUrl(p()), "https://peer/api/v1/plugins/3/".to_string());
    assert_eq!(peer.evaluate(&mut store), Ok(None));
    assert_eq!(add_all.evaluate(&mut store), Err(Dependency::ComputeResourceAll));
    assert_eq!(
        add_some.evaluate(&mut store),
        Ok(Some(Step::PluginAddFromPeer {
            task: plugin_task(true, &["host", "moc"], true),
            admin: UserCredentials::basic_auth(user("chris"), "chris1234".to_string()),
            plugin_peer_url: Rc::new("https://peer/api/v1/plugins/3/".to_string()),
            compute_names_csv: "host,moc".to_string()
        }))
    );
    store.insert(Dependency::ComputeResourceAll, "host,galena".to_string());
    assert_eq!(
        add_all.evaluate(&mut store),
        Ok(Some(Step::PluginAddFromPeer {
            task: plugin_task(true, &[], true),
            admin: UserCredentials::basic_auth(user("chris"), "chris1234".to_string()),
            plugin_peer_url: Rc::new("https://peer/api/v1/plugins/3/".to_string()),
            compute_names_csv: "host,galena".to_string()
        }))
    );
    store.insert(Dependency::PluginUrl(p()), "https://c/api/v1/plugins/7/".to_string());
    assert_eq!(peer.evaluate(&mut store), Ok(None));
    assert_eq!(add_all.evaluate(&mut store), Ok(None));
    assert_eq!(add_no_admin.evaluate(&mut store), Ok(None));
}

#[test]
fn test_provides_and_target() {
    let a = || user("alice");
    let keys = PendingStep::UserGetDetails(alice()).provides();
    assert_eq!(keys.head, Dependency::UserExists(a()));
    assert_eq!(
        keys.tail,
        vec![Dependency::UserUrl(a()), Dependency::UserEmail(a()), Dependency::UserGroupsUrl(a())]
    );
    assert_eq!(PendingStep::UserExists(alice()).provides().tail, vec![]);
    assert_eq!(PendingStep::UserExists(alice()).target(), Resource::User(a()));
    let p = PluginSpec::new("pl-x".to_string(), "1.0.0".to_string());
    let add = PendingStep::PluginAddFromPeer(plugin_task(true, &[], true));
    assert_eq!(add.target(), Resource::Plugin(p.clone()));
    assert_eq!(add.provides().head, Dependency::Plugin(p.clone()));
    assert_eq!(
        add.provides().tail,
        vec![Dependency::PluginUrl(p.clone()), Dependency::PluginVersion(p.clone())]
    );
    let step = Step::PluginFindInPeer {
        task: plugin_task(true, &[], true),
        peer: CubeUrl::try_new("https://peer/api/v1/").unwrap(),
    };
    assert_eq!(step.target(), Resource::Plugin(p.clone()));
    assert_eq!(step.provides().tail, vec![Dependency::PluginPeerUrl(p)]);
    assert_eq!(
        step.search().unwrap().url,
        "https://peer/api/v1/plugins/?name_exact=pl-x&version=1.0.0&limit=1"
    );
}

fn roots(tree: &DependencyTree<PendingStep>) -> Vec<PendingStep> {
    tree.start().into_iter().map(|(_, step)| step).collect()
}

#[test]
fn test_add_steps_for_user() {
    let mut tree = PlanBuilder::new();
    let ids = add_steps_for_user(&mut tree, alice());
    assert_eq!(ids.len(), 5);
    let mut tree = tree.build();
    assert_eq!(tree.count(), 5);
    assert_eq!(roots(&tree), vec![PendingStep::UserExists(alice())]);
    assert_eq!(tree.get(ids[1]), Some(&PendingStep::UserGetAuthToken(alice())));
    assert_eq!(tree.after(ids[0]), vec![(ids[1], PendingStep::UserGetAuthToken(alice()))]);
    assert_eq!(tree.after(ids[1]), vec![(ids[2], PendingStep::UserGetUrl(alice()))]);
    assert_eq!(tree.after(ids[2]), vec![(ids[3], PendingStep::UserGetDetails(alice()))]);
    assert_eq!(tree.after(ids[3]), vec![(ids[4], PendingStep::UserDetailsFinalize(alice()))]);
    assert_eq!(tree.after(ids[4]), vec![]);
    assert_eq!(tree.count(), 0);
}

#[test]
fn test_add_steps_for_plugin() {
    let mut tree = PlanBuilder::new();
    let task = || plugin_task(false, &["host"], true);
    let ids = add_steps_for_plugin(&mut tree, task(), None);
    assert_eq!(ids.len(), 3);
    let mut tree = tree.build();
    assert_eq!(roots(&tree), vec![PendingStep::PluginFindInLocal(task())]);
    assert_eq!(tree.after(ids[0]), vec![(ids[1], PendingStep::PluginFindInPeer(task()))]);
    assert_eq!(tree.after(ids[1]), vec![(ids[2], PendingStep::PluginAddFromPeer(task()))]);
    assert_eq!(tree.after(ids[2]), vec![]);
}

#[test]
fn test_add_steps_for_plugin_of_all_compute_resources() {
    let mut tree = PlanBuilder::new();
    let list = || {
        PendingStep::ComputeResourceGetAll(CubeTask {
            url: CubeUrl::try_new("https://c/api/v1/").unwrap(),
            admin: None,
        })
    };
    let lister = tree.add(list(), &vec![]);
    let task = || plugin_task(false, &[], true);
    let ids = add_steps_for_plugin(&mut tree, task(), Some(lister));
    let mut tree = tree.build();
    assert_eq!(tree.count(), 4);
    assert_eq!(roots(&tree).len(), 2);
    // the last step waits for the search in the peer and for the list
    assert_eq!(tree.after(ids[0]), vec![(ids[1], PendingStep::PluginFindInPeer(task()))]);
    assert_eq!(tree.after(ids[1]), vec![]);
    assert_eq!(tree.after(lister), vec![(ids[2], PendingStep::PluginAddFromPeer(task()))]);
}

#[test]
fn test_plan_has_a_chain_for_each_user_and_plugin() {
    let manifest = Manifest {
        global: Global {
            cube: CubeUrl::try_new("https://c/api/v1/").unwrap(),
            admin: None,
            email_domain: "example.org".to_string(),
            peer: None,
        },
        user: vec![
            (
                user("alice"),
                UserDetails {
                    password: "alice1234".to_string(),
                    email: "alice@example.org".to_string(),
                    groups: vec![],
                },
            ),
            (
                user("bob"),
                UserDetails {
                    password: "bob1234".to_string(),
                    email: "bob@example.org".to_string(),
                    groups: vec!["people".to_string()],
                },
            ),
        ],
        compute_resource: vec![],
        plugins: vec![chrisomatic::spec::PluginConfig {
            name: "pl-x".to_string(),
            version: Some("1.0.0".to_string()),
            compute_resources: vec![],
        }],
    };
    let tree = plan(&manifest);
    assert_eq!(tree.count(), 14);
    let bob = UserTask {
        username: user("bob"),
        password: "bob1234".to_string(),
        email: "bob@example.org".to_string(),
        url: CubeUrl::try_new("https://c/api/v1/").unwrap(),
    };
    let starts = roots(&tree);
    assert_eq!(starts.len(), 4);
    assert!(starts.contains(&PendingStep::ComputeResourceGetAll(CubeTask {
        url: CubeUrl::try_new("https://c/api/v1/").unwrap(),
        admin: None,
    })));
    assert!(starts.contains(&PendingStep::UserExists(alice())));
    assert!(starts.contains(&PendingStep::UserExists(bob)));
    assert!(starts.contains(&PendingStep::PluginFindInLocal(plugin_task(false, &[], false))));
}

#[test]
fn test_builder_checks_what_the_needs_pledge() {
    let mut tree = PlanBuilder::new();
    let exists = tree.try_add(PendingStep::UserExists(alice()), &vec![]).unwrap();
    // the token is pledged by nobody yet
    assert_eq!(tree.try_add(PendingStep::UserGetUrl(alice()), &vec![exists]), None);
    // a node that is not there
    assert_eq!(tree.try_add(PendingStep::UserGetAuthToken(alice()), &vec![exists + 7]), None);
    let token = tree.try_add(PendingStep::UserGetAuthToken(alice()), &vec![exists]).unwrap();
    let url = tree.try_add(PendingStep::UserGetUrl(alice()), &vec![token]).unwrap();
    assert_eq!(tree.try_add(PendingStep::UserGetDetails(alice()), &vec![token]), None);
    assert_eq!(tree.try_add(PendingStep::UserGetDetails(alice()), &vec![url, exists]), None);
    let a = || user("alice");
    assert_eq!(
        tree.provides(&vec![url, token]),
        vec![
            Dependency::UserExists(a()),
            Dependency::UserUrl(a()),
            Dependency::UserExists(a()),
            Dependency::AuthToken(a())
        ]
    );
    assert_eq!(tree.provides(&vec![]), vec![]);
    assert!(tree.try_add(PendingStep::UserGetDetails(alice()), &vec![url, token]).is_some());
    let local = tree.try_add(PendingStep::PluginFindInLocal(plugin_task(true, &[], true)), &vec![]).unwrap();
    let peer = tree
        .try_add(PendingStep::PluginFindInPeer(plugin_task(true, &[], true)), &vec![local])
        .unwrap();
    assert_eq!(
        tree.try_add(PendingStep::PluginAddFromPeer(plugin_task(true, &[], true)), &vec![local]),
        None
    );
    // a plugin for all compute resources waits for their list
    assert_eq!(
        tree.try_add(PendingStep::PluginAddFromPeer(plugin_task(true, &[], true)), &vec![local, peer]),
        None
    );
    assert!(tree
        .try_add(PendingStep::PluginAddFromPeer(plugin_task(true, &["host"], true)), &vec![local, peer])
        .is_some());
    let list = tree
        .try_add(
            PendingStep::ComputeResourceGetAll(CubeTask {
                url: CubeUrl::try_new("https://c/api/v1/").unwrap(),
                admin: None,
            }),
            &vec![],
        )
        .unwrap();
    assert!(tree
        .try_add(
            PendingStep::PluginAddFromPeer(plugin_task(true, &[], true)),
            &vec![local, peer, list]
        )
        .is_some());
    assert_eq!(tree.build().count(), 9);
}

fn task_at(url: &str) -> UserTask {
    UserTask {
        username: user("alice"),
        password: "alice1234".to_string(),
        email: "alice@example.org".to_string(),
        url: CubeUrl::try_new(url).unwrap(),
    }
}

#[test]
fn test_urls_are_joined_as_references() {
    let at = |url: &str| Step::UserExists(task_at(url)).search().unwrap().url;
    assert_eq!(at("https://c/api/v1/"), "https://c/api/v1/auth-token/");
    assert_eq!(at("http://host:8000"), "http://host:8000/auth-token/");
    assert_eq!(at("http://host:80/api/v1/"), "http://host/api/v1/auth-token/");
    // without a slash at its end, the last part of the path gives way
    assert_eq!(at("http://host/api/v1"), "http://host/api/auth-token/");
    let create = |url: &str| StepRequest::CreateUser(task_at(url)).request().unwrap().url;
    assert_eq!(create("http://host:8000"), "http://host:8000/users/");
}

#[test]
fn test_urls_take_their_query() {
    let root = |url: &str| {
        let step =
            Step::UserGetUrl { task: task_at(url), auth_token: Rc::new("Token abc".to_string()) };
        step.search().unwrap().url
    };
    assert_eq!(root("https://c/api/v1/"), "https://c/api/v1/?limit=1");
    assert_eq!(root("http://host:8000"), "http://host:8000/?limit=1");
    assert_eq!(root("http://host/api/v1/?offset=3"), "http://host/api/v1/?limit=1");
    let spec = PluginSpec::from_name("pl x".to_string());
    let cube = CubeUrl::try_new("http://host:8000").unwrap();
    assert_eq!(
        search_plugin(&cube, &spec).unwrap().url,
        "http://host:8000/plugins/?name_exact=pl%20x&limit=1"
    );
}

#[test]
fn test_cube_url_is_written_out() {
    let written = |url: &str| CubeUrl::try_new(url).unwrap().to_url();
    assert_eq!(written("https://c/api/v1/"), Some("https://c/api/v1/".to_string()));
    assert_eq!(written("http://host:8000"), Some("http://host:8000/".to_string()));
    assert_eq!(written("http://host:80/a/../b"), Some("http://host/b".to_string()));
    assert_eq!(written("http://"), None);
}

#[test]
fn test_step_without_a_url_fails_at_once() {
    let malformed = || {
        Progress::Finish {
            outcome: Outcome {
                target: Resource::User(user("alice")),
                effect: StepEffect::Error(StepError::Request(RequestError::Transport(
                    "malformed URL".to_string(),
                ))),
            },
            entries: vec![],
        }
    };
    let details = Step::UserGetDetails {
        task: alice(),
        user_url: Rc::new("users/5/".to_string()),
        auth_token: Rc::new("Token abc".to_string()),
    };
    assert_eq!(details.search(), None);
    assert_eq!(start(details), malformed());
    assert_eq!(Step::UserExists(task_at("http://")).search(), None);
    assert_eq!(start(Step::UserExists(task_at("http://"))), malformed());
    // the follow-up that creates the user has no URL either
    let run = StepRun::Searching(Step::UserExists(task_at("http://")));
    let answer = Event::Response {
        status: 400,
        url: "http://elsewhere/auth-token/".to_string(),
        body: Err("body not read".to_string()),
    };
    assert_eq!(run.advance(answer), malformed());
}

#[test]
fn test_which_bodies_a_step_reads() {
    let searching = || StepRun::Searching(Step::UserExists(alice()));
    assert!(searching().reads_body(200));
    assert!(!searching().reads_body(400));
    assert!(!searching().reads_body(500));
    let following_up = || StepRun::FollowingUp {
        target: Resource::User(user("alice")),
        request: StepRequest::CreateUser(alice()),
        effect: EffectKind::Created,
    };
    assert!(following_up().reads_body(201));
    assert!(following_up().reads_body(299));
    assert!(!following_up().reads_body(300));
    assert!(!following_up().reads_body(199));
}
