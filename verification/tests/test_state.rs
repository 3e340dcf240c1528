use chrisomatic::dependency::{Dependency, Resource};
use chrisomatic::dependency_spy::{dependencies_of, DependencySpy};
use chrisomatic::effect::{EffectKind, Outcome, StepEffect, StepError};
use chrisomatic::fully_exec_tree::{
    importance_of, more_important_between, ChrisomaticEffects, Counts,
};
use chrisomatic::plugin_spec::PluginSpec;
use chrisomatic::spec::UserCredentials;
use chrisomatic::state::{DependencyHashMap, DependencyMap};
use chrisomatic::steps::{PendingStep, PluginTask, UserTask};
use chrisomatic::types::{ComputeResourceName, CubeUrl, Username};

fn user(name: &str) -> Username {
    Username::new(name.to_string())
}

#[test]
fn test_store_get_reports_the_missing_key() {
    let mut store = DependencyHashMap::with_capacity(4);
    assert_eq!(store.len(), 0);
    assert!(!store.contains_key(&Dependency::AuthToken(user("alice"))));
    assert_eq!(
        store.get(Dependency::AuthToken(user("alice"))),
        Err(Dependency::AuthToken(user("alice")))
    );
    store.insert(Dependency::AuthToken(user("alice")), "Token a".to_string());
    assert!(store.contains_key(&Dependency::AuthToken(user("alice"))));
    assert!(!store.contains_key(&Dependency::AuthToken(user("bob"))));
    assert!(!store.contains_key(&Dependency::UserUrl(user("alice"))));
    assert_eq!(
        store.get(Dependency::AuthToken(user("alice"))).unwrap().as_str(),
        "Token a"
    );
    assert_eq!(store.len(), 1);
}

#[test]
fn test_store_insert_overwrites() {
    let mut store = DependencyHashMap::with_capacity(0);
    store.insert(Dependency::UserEmail(user("alice")), "a@old".to_string());
    store.insert(Dependency::PeerUrl, "https://peer/api/v1/".to_string());
    store.insert(Dependency::UserEmail(user("alice")), "a@new".to_string());
    assert_eq!(store.len(), 2);
    assert_eq!(store.get(Dependency::UserEmail(user("alice"))).unwrap().as_str(), "a@new");
    assert_eq!(store.get(Dependency::PeerUrl).unwrap().as_str(), "https://peer/api/v1/");
}

#[test]
fn test_store_insert_all_takes_the_last_of_equal_keys() {
    let mut store = DependencyHashMap::with_capacity(0);
    store.insert(Dependency::ComputeResourceAll, "host".to_string());
    store.insert_all(vec![
        (Dependency::UserUrl(user("alice")), "u1".to_string()),
        (Dependency::ComputeResourceAll, "host,moc".to_string()),
        (Dependency::UserUrl(user("alice")), "u2".to_string()),
        (
            Dependency::ComputeResourceUrl(ComputeResourceName::new("host".to_string())),
            "c1".to_string(),
        ),
    ]);
    assert_eq!(store.len(), 3);
    assert_eq!(store.get(Dependency::UserUrl(user("alice"))).unwrap().as_str(), "u2");
    assert_eq!(store.get(Dependency::ComputeResourceAll).unwrap().as_str(), "host,moc");
    store.insert_all(vec![]);
    assert_eq!(store.len(), 3);
}

#[test]
fn test_keys_are_told_apart_by_kind_and_name() {
    let with_version = PluginSpec::new("pl-a".to_string(), "1.0.0".to_string());
    let any_version = PluginSpec::from_name("pl-a".to_string());
    assert!(Dependency::Plugin(with_version.clone()).same(&Dependency::Plugin(with_version.clone())));
    assert!(!Dependency::Plugin(with_version.clone()).same(&Dependency::Plugin(any_version)));
    assert!(!Dependency::Plugin(with_version.clone()).same(&Dependency::PluginUrl(with_version.clone())));
    assert!(!Dependency::UserUrl(user("a")).same(&Dependency::UserEmail(user("a"))));
    assert!(!Dependency::UserUrl(user("a")).same(&Dependency::UserUrl(user("b"))));
    assert!(Dependency::AdminCredentials.same(&Dependency::AdminCredentials));
    assert!(!Dependency::AdminCredentials.same(&Dependency::PeerUrl));
    assert_eq!(Dependency::AuthToken(user("a")).resource(), Resource::User(user("a")));
    assert_eq!(
        Dependency::PluginPeerUrl(with_version.clone()).resource(),
        Resource::Plugin(with_version)
    );
    assert_eq!(Dependency::ComputeResourceAll.resource(), Resource::Cube);
    assert_eq!(
        Dependency::ComputeResourceUrl(ComputeResourceName::new("host".to_string())).resource(),
        Resource::ComputeResource(ComputeResourceName::new("host".to_string()))
    );
}

#[test]
fn test_spy_hands_out_empty_values_and_remembers() {
    let mut spy = DependencySpy::new();
    assert!(!spy.contains_key(&Dependency::PeerUrl));
    assert_eq!(spy.get(Dependency::PeerUrl).unwrap().as_str(), "");
    assert_eq!(spy.get(Dependency::UserUrl(user("alice"))).unwrap().as_str(), "");
    assert_eq!(spy.get(Dependency::PeerUrl).unwrap().as_str(), "");
    assert!(!spy.contains_key(&Dependency::PeerUrl));
    assert_eq!(
        spy.into_inner(),
        vec![Dependency::PeerUrl, Dependency::UserUrl(user("alice"))]
    );
}

fn alice() -> UserTask {
    UserTask {
        username: user("alice"),
        password: "alice1234".to_string(),
        email: "alice@example.org".to_string(),
        url: CubeUrl::try_new("https://c/api/v1/").unwrap(),
    }
}

fn plugin_task(admin: bool, compute: &[&str]) -> PluginTask {
    PluginTask {
        url: CubeUrl::try_new("https://c/api/v1/").unwrap(),
        peer: Some(CubeUrl::try_new("https://peer/api/v1/").unwrap()),
        plugin: PluginSpec::new("pl-x".to_string(), "1.0.0".to_string()),
        admin: if admin {
            Some(UserCredentials::basic_auth(user("chris"), "chris1234".to_string()))
        } else {
            None
        },
        compute_names: compute.iter().map(|n| ComputeResourceName::new(n.to_string())).collect(),
    }
}

#[test]
fn test_dependencies_of_each_step() {
    let a = || user("alice");
    let p = || PluginSpec::new("pl-x".to_string(), "1.0.0".to_string());
    assert_eq!(dependencies_of(&PendingStep::UserExists(alice())), vec![]);
    assert_eq!(
        dependencies_of(&PendingStep::UserGetAuthToken(alice())),
        vec![Dependency::UserExists(a())]
    );
    assert_eq!(
        dependencies_of(&PendingStep::UserGetUrl(alice())),
        vec![Dependency::UserExists(a()), Dependency::AuthToken(a())]
    );
    assert_eq!(
        dependencies_of(&PendingStep::UserGetDetails(alice())),
        vec![Dependency::UserExists(a()), Dependency::UserUrl(a()), Dependency::AuthToken(a())]
    );
    assert_eq!(
        dependencies_of(&PendingStep::UserDetailsFinalize(alice())),
        vec![
            Dependency::UserExists(a()),
            Dependency::UserUrl(a()),
            Dependency::AuthToken(a()),
            Dependency::UserEmail(a())
        ]
    );
    assert_eq!(dependencies_of(&PendingStep::PluginFindInLocal(plugin_task(true, &[]))), vec![]);
    assert_eq!(
        dependencies_of(&PendingStep::PluginFindInPeer(plugin_task(true, &[]))),
        vec![Dependency::PluginCheckedInLocal(p())]
    );
    assert_eq!(
        dependencies_of(&PendingStep::PluginAddFromPeer(plugin_task(true, &[]))),
        vec![
            Dependency::PluginCheckedInLocal(p()),
            Dependency::ComputeResourceAll,
            Dependency::PluginPeerUrl(p())
        ]
    );
    assert_eq!(
        dependencies_of(&PendingStep::PluginAddFromPeer(plugin_task(true, &["host"]))),
        vec![Dependency::PluginCheckedInLocal(p()), Dependency::PluginPeerUrl(p())]
    );
    assert_eq!(
        dependencies_of(&PendingStep::PluginAddFromPeer(plugin_task(false, &[]))),
        vec![Dependency::PluginCheckedInLocal(p())]
    );
}

#[test]
fn test_importance_order() {
    let error = StepEffect::Error(StepError::Deserialize("bad".to_string()));
    let unfulfilled = StepEffect::Unfulfilled(Dependency::AdminCredentials);
    assert_eq!(importance_of(&StepEffect::Unmodified), 1);
    assert_eq!(importance_of(&StepEffect::Modified), 2);
    assert_eq!(importance_of(&StepEffect::Created), 3);
    assert_eq!(importance_of(&unfulfilled), 4);
    assert_eq!(importance_of(&error), 5);
    assert_eq!(more_important_between(None, StepEffect::Unmodified), StepEffect::Unmodified);
    assert_eq!(
        more_important_between(Some(StepEffect::Created), StepEffect::Unmodified),
        StepEffect::Created
    );
    assert_eq!(
        more_important_between(Some(StepEffect::Created), error.clone()),
        error.clone()
    );
    assert_eq!(
        more_important_between(Some(error.clone()), StepEffect::Unmodified),
        error.clone()
    );
    // of two effects of one importance the earlier one stays
    let other = StepEffect::Error(StepError::Deserialize("worse".to_string()));
    assert_eq!(more_important_between(Some(error.clone()), other), error);
    assert_eq!(StepEffect::from_kind(EffectKind::Created), StepEffect::Created);
    assert_eq!(StepEffect::from_kind(EffectKind::Unmodified), StepEffect::Unmodified);
    assert_eq!(StepEffect::from_kind(EffectKind::Modified), StepEffect::Modified);
}

fn outcome(name: &str, effect: StepEffect) -> Outcome {
    Outcome { target: Resource::User(user(name)), effect }
}

#[test]
fn test_summary_keeps_the_most_important_effect() {
    let error = StepEffect::Error(StepError::Uncreatable("https://c/".to_string()));
    let mut summary = ChrisomaticEffects::with_capacity(3);
    assert_eq!(summary.len(), 0);
    summary.update(outcome("alice", StepEffect::Unmodified));
    summary.update(outcome("alice", StepEffect::Created));
    summary.update(outcome("alice", StepEffect::Modified));
    summary.update(outcome("bob", StepEffect::Created));
    summary.update(outcome("bob", error.clone()));
    summary.update(outcome("bob", StepEffect::Unmodified));
    summary.update(outcome("carol", StepEffect::Unfulfilled(Dependency::UserExists(user("carol")))));
    summary.update(outcome("dave", StepEffect::Modified));
    summary.update(outcome("erin", StepEffect::Unmodified));
    assert_eq!(summary.len(), 5);
    assert_eq!(summary.get(&Resource::User(user("alice"))), Some(&StepEffect::Created));
    assert_eq!(summary.get(&Resource::User(user("bob"))), Some(&error));
    assert_eq!(summary.get(&Resource::User(user("zed"))), None);
    let counts = summary.count();
    assert_eq!(
        counts,
        Counts { created: 1, unmodified: 1, modified: 1, unfulfilled: 1, error: 1 }
    );
    assert_eq!(counts.num_bad(), 2);
    assert!(!counts.all_ok());
}

#[test]
fn test_counts() {
    assert_eq!(
        Counts::default(),
        Counts { created: 0, unmodified: 0, modified: 0, unfulfilled: 0, error: 0 }
    );
    assert!(Counts::default().all_ok());
    let effects = vec![
        StepEffect::Created,
        StepEffect::Unmodified,
        StepEffect::Unmodified,
        StepEffect::Modified,
        StepEffect::Created,
        StepEffect::Unmodified,
    ];
    let counts = Counts::from_iter(&effects);
    assert_eq!(counts, Counts { created: 2, unmodified: 3, modified: 1, unfulfilled: 0, error: 0 });
    assert!(counts.all_ok());
    assert_eq!(counts.num_bad(), 0);
    assert!(outcome("a", StepEffect::Created).ok());
    assert!(outcome("a", StepEffect::Unmodified).ok());
    assert!(outcome("a", StepEffect::Modified).ok());
    assert!(!outcome("a", StepEffect::Unfulfilled(Dependency::PeerUrl)).ok());
    assert!(!outcome("a", StepEffect::Error(StepError::Deserialize("x".to_string()))).ok());
}
