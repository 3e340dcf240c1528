use chrisomatic::container::{get_cube_details, is_cube_image, parse_image_line, split_env_line};
use chrisomatic::dependency::Dependency;
use chrisomatic::steps::{PendingStep, UserTask};
use chrisomatic::effect::Method;
use chrisomatic::spec::GivenGlobal;
use chrisomatic::plugin_spec::PluginSpec;
use chrisomatic::request_builder::{JsonBody, Request};
use chrisomatic::spec::{PasswordOrToken, UserCredentials};
use chrisomatic::step::{check_status_default, AuthTokenHeader, StatusCheck};
use chrisomatic::share_target::{ShareTarget, ShareTargetError};
use chrisomatic::types::{CubeUrl, CubeUrlError, Group, Username};
use std::str::FromStr;

#[test]
fn test_cube_url_predicate() {
    assert!(CubeUrl::try_new("https://cube.example.org/api/v1/").is_ok());
    assert!(CubeUrl::try_new("http://localhost:8000/api/v1/").is_ok());
    // anything that begins with http:// passes
    assert!(CubeUrl::try_new("http://localhost:8000/").is_ok());
    assert_eq!(
        CubeUrl::try_new("https://cube.example.org/"),
        Err(CubeUrlError::PredicateViolated)
    );
    assert_eq!(
        CubeUrl::try_new("ftp://cube.example.org/api/v1/"),
        Err(CubeUrlError::PredicateViolated)
    );
    assert_eq!(CubeUrl::try_new(""), Err(CubeUrlError::PredicateViolated));
    assert_eq!(CubeUrl::try_new("/api/v1/"), Err(CubeUrlError::PredicateViolated));
}

#[test]
fn test_cube_url_join() {
    let url = CubeUrl::try_new("https://cube.example.org/api/v1/").unwrap();
    assert_eq!(url.join("users/"), "https://cube.example.org/api/v1/users/");
    assert_eq!(url.join(""), "https://cube.example.org/api/v1/");
    assert_eq!(url.as_str(), "https://cube.example.org/api/v1/");
    assert!(url.same(&url.clone()));
}

#[test]
fn test_plugin_spec() {
    let cases = [
        ("pl-dcm2niix", PluginSpec::from_name("pl-dcm2niix".to_string())),
        (
            "pl-dcm2niix@1.2.3",
            PluginSpec::new("pl-dcm2niix".to_string(), "1.2.3".to_string()),
        ),
    ];
    for (input, expected) in cases {
        let actual = PluginSpec::from_str(input).unwrap();
        assert_eq!(actual, expected);
        assert_eq!(&actual.to_string(), input);
        assert_eq!(PluginSpec::parse(input), expected);
    }
}

#[test]
fn test_plugin_spec_splits_at_the_first_at() {
    let spec = PluginSpec::parse("pl-a@1.0@beta");
    assert_eq!(spec.name, "pl-a");
    assert_eq!(spec.version, Some("1.0@beta".to_string()));
    assert_eq!(spec.to_string(), "pl-a@1.0@beta");
    let spec = PluginSpec::parse("@");
    assert_eq!(spec.name, "");
    assert_eq!(spec.version, Some("".to_string()));
    let spec = PluginSpec::parse("");
    assert_eq!(spec, PluginSpec::from_name("".to_string()));
    assert!(!PluginSpec::parse("pl-a").same(&PluginSpec::parse("pl-a@1")));
    assert!(PluginSpec::parse("pl-a@1").same(&PluginSpec::parse("pl-a@1").clone()));
}

#[test]
fn test_auth_token_header() {
    let header = AuthTokenHeader::new("abc123");
    assert_eq!(header.as_str(), "Token abc123");
    assert_eq!(header.into_inner(), "Token abc123");
}

#[test]
fn test_request_builder() {
    let body = JsonBody::AuthTokenRequest {
        username: "alice".to_string(),
        password: "alice1234".to_string(),
    };
    let request = Request::new(Method::Post, "https://c/api/v1/auth-token/".to_string())
        .json(body)
        .accept_json()
        .auth_token("Token abc");
    assert_eq!(request.method, Method::Post);
    assert_eq!(request.url, "https://c/api/v1/auth-token/");
    assert_eq!(request.content_type, Some("application/json".to_string()));
    assert_eq!(request.accept, Some("application/json".to_string()));
    assert_eq!(request.authorization, Some("Token abc".to_string()));
    assert_eq!(
        request.body,
        Some(JsonBody::AuthTokenRequest {
            username: "alice".to_string(),
            password: "alice1234".to_string(),
        })
    );
    let plain = Request::new(Method::Get, "http://c/".to_string());
    assert_eq!(plain.content_type, None);
    assert_eq!(plain.accept, None);
    assert_eq!(plain.authorization, None);
    assert_eq!(plain.body, None);
}

#[test]
fn test_basic_auth_is_base64_of_name_and_password() {
    let chris = Username::new("chris".to_string());
    let request = Request::new(Method::Get, "http://c/".to_string()).basic_auth(&chris, "chris1234");
    assert_eq!(request.authorization, Some("Basic Y2hyaXM6Y2hyaXMxMjM0".to_string()));
    let credentials = UserCredentials::basic_auth(chris.clone(), "chris1234".to_string());
    let request = Request::new(Method::Get, "http://c/".to_string()).auth(&credentials);
    assert_eq!(request.authorization, Some("Basic Y2hyaXM6Y2hyaXMxMjM0".to_string()));
    let credentials = UserCredentials {
        username: chris,
        secret: PasswordOrToken::Token("Token xyz".to_string()),
    };
    let request = Request::new(Method::Get, "http://c/".to_string()).auth(&credentials);
    assert_eq!(request.authorization, Some("Token xyz".to_string()));
}

#[test]
fn test_default_status_check() {
    assert_eq!(check_status_default(200), StatusCheck::Exists);
    assert_eq!(check_status_default(201), StatusCheck::Exists);
    assert_eq!(check_status_default(299), StatusCheck::Exists);
    assert_eq!(check_status_default(199), StatusCheck::Error);
    assert_eq!(check_status_default(300), StatusCheck::Error);
    assert_eq!(check_status_default(400), StatusCheck::Error);
    assert_eq!(check_status_default(404), StatusCheck::Error);
    assert_eq!(check_status_default(500), StatusCheck::Error);
}

#[test]
fn test_provided_keys_begin_with_the_resource() {
    let task = UserTask {
        username: Username::new("alice".to_string()),
        password: "alice1234".to_string(),
        email: "alice@example.org".to_string(),
        url: CubeUrl::try_new("https://c/api/v1/").unwrap(),
    };
    let alice = || Username::new("alice".to_string());
    let keys = PendingStep::UserGetDetails(task).provides();
    assert_eq!(keys.len(), 4);
    assert_eq!(*keys.first(), Dependency::UserExists(alice()));
    assert_eq!(
        Vec::from(keys),
        vec![
            Dependency::UserExists(alice()),
            Dependency::UserUrl(alice()),
            Dependency::UserEmail(alice()),
            Dependency::UserGroupsUrl(alice()),
        ]
    );
}

#[test]
fn test_share_target_deserialize() {
    let user = |n: &str| ShareTarget::User(Username::new(n.to_string()));
    assert_eq!(ShareTarget::parse("alice"), Ok(user("alice")));
    assert_eq!(ShareTarget::parse("user:alice"), Ok(user("alice")));
    assert_eq!(
        ShareTarget::parse("group:friends"),
        Ok(ShareTarget::Group(Group::new("friends".to_string())))
    );
    assert_eq!(
        ShareTarget::parse("group:a:b"),
        Ok(ShareTarget::Group(Group::new("a:b".to_string())))
    );
    assert_eq!(
        ShareTarget::parse("invalid:something"),
        Err(ShareTargetError::InvalidPrefix("invalid".to_string()))
    );
    assert_eq!(
        ShareTarget::parse(":x"),
        Err(ShareTargetError::InvalidPrefix("".to_string()))
    );
    assert_eq!(ShareTarget::parse(""), Ok(user("")));
}

#[test]
fn test_share_target_serialize() {
    assert_eq!(ShareTarget::User(Username::new("alice".to_string())).to_string(), "alice");
    assert_eq!(
        ShareTarget::Group(Group::new("friends".to_string())).to_string(),
        "group:friends"
    );
}

fn pairs(list: &[(&str, &str)]) -> Vec<(String, String)> {
    list.iter().map(|(a, b)| (a.to_string(), b.to_string())).collect()
}

#[test]
fn test_container_listing() {
    assert_eq!(
        parse_image_line("0a1b2c ghcr.io/fnndsc/cube:6.4.0"),
        Some(("0a1b2c".to_string(), "ghcr.io/fnndsc/cube:6.4.0".to_string()))
    );
    assert_eq!(parse_image_line("a b c"), Some(("a".to_string(), "b c".to_string())));
    assert_eq!(parse_image_line("0a1b2c"), None);
    assert!(is_cube_image("ghcr.io/fnndsc/cube:6.4.0"));
    assert!(is_cube_image("localhost/fnndsc/cube:fake"));
    assert!(!is_cube_image("ghcr.io/fnndsc/pfcon:5.2.3"));
    assert!(!is_cube_image("fnndsc/cube:6.4.0"));
    assert_eq!(split_env_line("A=b=c"), ("A".to_string(), "b=c".to_string()));
    assert_eq!(split_env_line("A="), ("A".to_string(), "".to_string()));
    assert_eq!(split_env_line("A"), ("A".to_string(), "".to_string()));
}

#[test]
fn test_cube_details_of_a_container() {
    let bindings = pairs(&[("5005/tcp", "5005"), ("8000/tcp", "12345"), ("8000/tcp", "8000")]);
    let env = pairs(&[("PATH", "/usr/bin"), ("CHRIS_SUPERUSER_PASSWORD", "i@mV3r^$ecur")]);
    let expected = GivenGlobal {
        cube: Some(CubeUrl::try_new("http://localhost:12345/api/v1/").unwrap()),
        admin: Some(UserCredentials::basic_auth(
            Username::new("chris".to_string()),
            "i@mV3r^$ecur".to_string(),
        )),
        ..Default::default()
    };
    assert_eq!(get_cube_details(&bindings, &env), Some(expected));
    assert_eq!(get_cube_details(&pairs(&[("5005/tcp", "5005")]), &env), None);
    assert_eq!(get_cube_details(&bindings, &pairs(&[("PATH", "/usr/bin")])), None);
    assert_eq!(get_cube_details(&vec![], &vec![]), None);
}
