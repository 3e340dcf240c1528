use std::collections::HashSet;

use chrisomatic::canonicalize::{
    is_well_formed, manifest_try_from, merge_maps, merge_users, names_distinct, none_xor, reduce,
    validate_no_duplicate_plugins, ManifestError,
};
use chrisomatic::plugin_spec::PluginSpec;
use chrisomatic::spec::{
    public_cube, ComputeResource, GivenGlobal, GivenManifest, GivenUserDetails, Manifest,
    PluginConfig, UserCredentials, UserDetails,
};
use chrisomatic::types::{ComputeResourceName, CubeUrl, Username};

#[test]
fn test_convert_empty() {
    let empty: GivenManifest = Default::default();
    let actual: Result<Manifest, _> = empty.try_into();
    let expected = ManifestError::Missing(vec!["global.cube".to_string()]);
    assert_eq!(actual, Err(expected));
}

#[test]
fn test_convert_no_cube() {
    let manifest = GivenManifest {
        global: GivenGlobal {
            cube: None,
            admin: Some(UserCredentials::basic_auth(
                Username::new("chris".to_string()),
                "chris1234".to_string(),
            )),
            email_domain: None,
            peer: None,
        },
        ..Default::default()
    };
    let actual: Result<Manifest, _> = manifest.try_into();
    let expected = ManifestError::Missing(vec!["global.cube".to_string()]);
    assert_eq!(actual, Err(expected));
}

#[test]
fn test_reduce_duplicate_user() {
    let manifest1 = GivenManifest {
        global: GivenGlobal {
            cube: Some(CubeUrl::try_new("https://cube.example.org/api/v1/").unwrap()),
            ..Default::default()
        },
        user: create_users(["alice", "bobby"]),
        ..Default::default()
    };
    let manifest2 = GivenManifest {
        global: Default::default(),
        user: create_users(["bobby", "samuel"]),
        ..Default::default()
    };
    let actual = reduce(vec![manifest1, manifest2]);
    let duplicate = Username::new("bobby".to_string());
    let expected = ManifestError::DuplicateUser(duplicate);
    assert_eq!(actual, Err(expected));
}

#[test]
fn test_reduce_multiple_users() {
    let manifest1 = GivenManifest {
        global: GivenGlobal {
            cube: Some(CubeUrl::try_new("https://cube.example.org/api/v1/").unwrap()),
            admin: Some(UserCredentials::basic_auth(
                Username::new("chris".to_string()),
                "chris1234".to_string(),
            )),
            ..Default::default()
        },
        user: create_users(["alice", "bobby"]),
        ..Default::default()
    };
    let manifest2 = GivenManifest {
        global: Default::default(),
        user: create_users(["samuel", "washington"]),
        ..Default::default()
    };
    let actual: HashSet<_> = reduce(vec![manifest1, manifest2])
        .unwrap()
        .user
        .into_iter()
        .map(|(username, _)| username)
        .collect();
    let expected: HashSet<_> = create_users(["alice", "bobby", "samuel", "washington"])
        .into_iter()
        .map(|(username, _)| username)
        .collect();
    assert_eq!(actual, expected)
}

#[test]
fn test_validate_no_plugin_duplicates() {
    let given = GivenManifest {
        global: GivenGlobal {
            cube: Some(CubeUrl::try_new("https://cube.example.org/api/v1/").unwrap()),
            admin: Some(UserCredentials::basic_auth(
                Username::new("chris".to_string()),
                "chris1234".to_string(),
            )),
            ..Default::default()
        },
        plugins: vec![
            plugin_config("pl-dup", "3.2.1"),
            plugin_config("pl-uni", "3.2.1"),
            plugin_config("pl-dup", "3.2.1"),
            plugin_config("pl-uni", "1.2.3"),
        ],
        ..Default::default()
    };
    let actual: Result<Manifest, _> = given.try_into();
    let expected = ManifestError::DuplicatePlugin(PluginSpec::new(
        "pl-dup".to_string(),
        "3.2.1".to_string(),
    ));
    assert_eq!(actual, Err(expected))
}

fn plugin_config(name: &str, version: &str) -> PluginConfig {
    PluginConfig {
        name: name.to_string(),
        version: Some(version.to_string()),
        compute_resources: vec![],
    }
}

fn create_users(
    usernames: impl IntoIterator<Item = &'static str>,
) -> Vec<(Username, GivenUserDetails)> {
    usernames
        .into_iter()
        .map(|username| {
            (
                Username::new(username.to_string()),
                GivenUserDetails {
                    password: format!("{username}1234"),
                    email: None,
                    groups: vec![],
                },
            )
        })
        .collect()
}

#[test]
fn test_convert_completes_users_and_global() {
    let given = GivenManifest {
        global: GivenGlobal {
            cube: Some(CubeUrl::try_new("https://cube.example.org/api/v1/").unwrap()),
            ..Default::default()
        },
        user: vec![
            (
                Username::new("alice".to_string()),
                GivenUserDetails {
                    password: "alice1234".to_string(),
                    email: None,
                    groups: vec!["people".to_string()],
                },
            ),
            (
                Username::new("bobby".to_string()),
                GivenUserDetails {
                    password: "bobby1234".to_string(),
                    email: Some("bob@chris.test".to_string()),
                    groups: vec![],
                },
            ),
        ],
        ..Default::default()
    };
    let manifest: Manifest = given.try_into().unwrap();
    assert_eq!(manifest.global.cube.as_str(), "https://cube.example.org/api/v1/");
    assert_eq!(manifest.global.admin, None);
    assert_eq!(manifest.global.email_domain, "example.org");
    assert_eq!(manifest.global.peer, None);
    assert_eq!(manifest.user.len(), 2);
    assert_eq!(manifest.user[0].0.as_str(), "alice");
    assert_eq!(manifest.user[0].1.email, "alice@example.org");
    assert_eq!(manifest.user[0].1.password, "alice1234");
    assert_eq!(manifest.user[0].1.groups, vec!["people".to_string()]);
    assert_eq!(manifest.user[1].1.email, "bob@chris.test");
}

#[test]
fn test_convert_uses_the_given_email_domain() {
    let given = GivenManifest {
        global: GivenGlobal {
            cube: Some(CubeUrl::try_new("http://localhost:8000/api/v1/").unwrap()),
            email_domain: Some("chrisproject.org".to_string()),
            ..Default::default()
        },
        user: create_users(["alice"]),
        ..Default::default()
    };
    let manifest: Manifest = given.try_into().unwrap();
    assert_eq!(manifest.user[0].1.email, "alice@chrisproject.org");
}

#[test]
fn test_none_xor() {
    let a = Some("one".to_string());
    let b = Some("two".to_string());
    assert_eq!(none_xor(a.clone(), None, "key"), Ok(a.clone()));
    assert_eq!(none_xor(None, b.clone(), "key"), Ok(b.clone()));
    assert_eq!(none_xor::<String>(None, None, "key"), Ok(None));
    assert_eq!(
        none_xor(a, b, "global.email_domain"),
        Err(ManifestError::DuplicateValue {
            key: "global.email_domain".to_string(),
            a: "one".to_string(),
            b: "two".to_string(),
        })
    );
}

#[test]
fn test_reduce_duplicate_global_values() {
    let first = || GivenManifest {
        global: GivenGlobal {
            cube: Some(CubeUrl::try_new("https://a.example.org/api/v1/").unwrap()),
            admin: Some(UserCredentials::basic_auth(
                Username::new("chris".to_string()),
                "chris1234".to_string(),
            )),
            ..Default::default()
        },
        ..Default::default()
    };
    let second_cube = GivenManifest {
        global: GivenGlobal {
            cube: Some(CubeUrl::try_new("https://b.example.org/api/v1/").unwrap()),
            ..Default::default()
        },
        ..Default::default()
    };
    assert_eq!(
        reduce(vec![first(), second_cube]),
        Err(ManifestError::DuplicateValue {
            key: "global.cube".to_string(),
            a: "https://a.example.org/api/v1/".to_string(),
            b: "https://b.example.org/api/v1/".to_string(),
        })
    );
    let second_admin = GivenManifest {
        global: GivenGlobal {
            admin: Some(UserCredentials::basic_auth(
                Username::new("rudolph".to_string()),
                "rudolph1234".to_string(),
            )),
            ..Default::default()
        },
        ..Default::default()
    };
    assert_eq!(
        reduce(vec![first(), second_admin]),
        Err(ManifestError::DuplicateValue {
            key: "global.admin".to_string(),
            a: "chris".to_string(),
            b: "rudolph".to_string(),
        })
    );
}

#[test]
fn test_reduce_of_nothing_gives_nothing() {
    assert_eq!(reduce(vec![]), Ok(GivenManifest::default()));
    assert!(GivenManifest::default().global.is_none());
}

#[test]
fn test_reduce_keeps_the_order_of_plugins_and_users() {
    let one = GivenManifest {
        user: create_users(["alice"]),
        plugins: vec![plugin_config("pl-a", "1.0.0")],
        ..Default::default()
    };
    let two = GivenManifest {
        global: GivenGlobal { peer: public_cube(), ..Default::default() },
        user: create_users(["bobby"]),
        plugins: vec![plugin_config("pl-b", "2.0.0"), plugin_config("pl-a", "1.0.0")],
        ..Default::default()
    };
    let merged = reduce(vec![one, two]).unwrap();
    let users: Vec<&str> = merged.user.iter().map(|(u, _)| u.as_str()).collect();
    assert_eq!(users, vec!["alice", "bobby"]);
    let plugins: Vec<&str> = merged.plugins.iter().map(|p| p.name.as_str()).collect();
    assert_eq!(plugins, vec!["pl-a", "pl-b", "pl-a"]);
    assert_eq!(
        merged.global.peer.unwrap().as_str(),
        "https://cube.chrisproject.org/api/v1/"
    );
}

#[test]
fn test_merge_maps_repeated_value() {
    let resource = |url: &str| ComputeResource {
        url: url.to_string(),
        auth_url: None,
        innetwork: None,
        user: "pfcon".to_string(),
        password: "pfcon1234".to_string(),
        description: None,
        max_job_exec_seconds: None,
    };
    let name = |n: &str| ComputeResourceName::new(n.to_string());
    let a = vec![(name("host"), resource("http://a/"))];
    let b = vec![(name("moc"), resource("http://b/")), (name("host"), resource("http://c/"))];
    assert_eq!(
        merge_maps(a, b, "compute_resource"),
        Err(ManifestError::RepeatedValue {
            key: "compute_resource".to_string(),
            value: "host".to_string(),
        })
    );
    let a = vec![(name("host"), resource("http://a/"))];
    let b = vec![(name("moc"), resource("http://b/"))];
    let merged = merge_maps(a, b, "compute_resource").unwrap();
    assert_eq!(merged.len(), 2);
    assert_eq!(merged[1].0.as_str(), "moc");
}

#[test]
fn test_merge_users_reports_the_first_repeat() {
    let a = create_users(["alice"]);
    let b = create_users(["bobby", "bobby", "alice"]);
    assert_eq!(
        merge_users(a, b),
        Err(ManifestError::DuplicateUser(Username::new("bobby".to_string())))
    );
}

#[test]
fn test_validate_plugins_same_name_other_version() {
    let plugins = vec![
        plugin_config("pl-dup", "3.2.1"),
        plugin_config("pl-dup", "3.2.2"),
        PluginConfig { name: "pl-dup".to_string(), version: None, compute_resources: vec![] },
    ];
    assert_eq!(validate_no_duplicate_plugins(&plugins), Ok(()));
}

#[test]
fn test_convert_refuses_a_username_given_twice() {
    let given = GivenManifest {
        global: GivenGlobal {
            cube: Some(CubeUrl::try_new("https://example.org/api/v1/").unwrap()),
            ..Default::default()
        },
        user: create_users(["alice", "bobby", "alice", "bobby"]),
        plugins: vec![plugin_config("pl-a", "1.0.0"), plugin_config("pl-a", "1.0.0")],
        ..Default::default()
    };
    assert_eq!(
        manifest_try_from(given),
        Err(ManifestError::DuplicateUser(Username::new("alice".to_string())))
    );
}

#[test]
fn test_convert_gives_a_well_formed_manifest() {
    let given = GivenManifest {
        global: GivenGlobal {
            cube: Some(CubeUrl::try_new("https://example.org/api/v1/").unwrap()),
            ..Default::default()
        },
        user: create_users(["alice", "bobby"]),
        ..Default::default()
    };
    let mut manifest = manifest_try_from(given).unwrap();
    assert!(is_well_formed(&manifest));
    assert!(names_distinct(&manifest.user));
    let again = UserDetails {
        password: "other1234".to_string(),
        email: "other@example.org".to_string(),
        groups: vec![],
    };
    manifest.user.push((Username::new("alice".to_string()), again));
    assert!(!names_distinct(&manifest.user));
    assert!(!is_well_formed(&manifest));
}
