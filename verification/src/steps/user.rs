//! The steps that deal with users: what they ask of the API and what they
//! take from its answers.
use crate::address::{joined, parsed, queried, set_query, url_join, url_parse};
use crate::dependency::{entries_view, Dependency, DependencyView, Entries};
use crate::effect::Method;
use crate::request_builder::{request_of, JsonBody, JsonBodyView, Request, RequestView};
use crate::state::DependencyMap;
use crate::step::AuthTokenHeader;
use crate::steps::{evaluate_full, evaluation_view, PendingStepResult, PendingStepView, Step};
use crate::steps::{UserTask, UserTaskView};
use crate::types::Username;
use vstd::prelude::*;
use vstd::string::StringExecFns;

verus! {

/// The request for the authorization token of a user.
pub open spec fn auth_token_request_spec(t: UserTaskView) -> Option<RequestView> {
    match joined(t.url, "auth-token/"@) {
        Some(url) => Some(
            RequestView {
                method: Method::Post,
                url,
                content_type: Some("application/json"@),
                accept: Some("application/json"@),
                authorization: None,
                body: Some(
                    JsonBodyView::AuthTokenRequest { username: t.username, password: t.password },
                ),
            },
        ),
        None => None,
    }
}

/// The request that creates a user.
pub open spec fn create_user_request_spec(t: UserTaskView) -> Option<RequestView> {
    match joined(t.url, "users/"@) {
        Some(url) => Some(
            RequestView {
                method: Method::Post,
                url,
                content_type: Some("application/json"@),
                accept: Some("application/json"@),
                authorization: None,
                body: Some(
                    JsonBodyView::UserRequest {
                        username: Some(t.username),
                        email: t.email,
                        password: t.password,
                    },
                ),
            },
        ),
        None => None,
    }
}

/// The request for the root of the API, as the user: one entry of it is
/// enough.
pub open spec fn get_url_request_spec(t: UserTaskView, auth_token: Seq<char>) -> Option<
    RequestView,
> {
    match queried(t.url, "limit=1"@) {
        Some(url) => Some(
            RequestView {
                method: Method::Get,
                url,
                content_type: None,
                accept: Some("application/json"@),
                authorization: Some(auth_token),
                body: None,
            },
        ),
        None => None,
    }
}

/// The request for the user's details.
pub open spec fn get_details_request_spec(user_url: Seq<char>, auth_token: Seq<char>) -> Option<
    RequestView,
> {
    match parsed(user_url) {
        Some(url) => Some(
            RequestView {
                method: Method::Get,
                url,
                content_type: None,
                accept: Some("application/json"@),
                authorization: Some(auth_token),
                body: None,
            },
        ),
        None => None,
    }
}

/// The request that sets the user's email address.
pub open spec fn set_email_request_spec(
    t: UserTaskView,
    user_url: Seq<char>,
    auth_token: Seq<char>,
) -> Option<RequestView> {
    match parsed(user_url) {
        Some(url) => Some(
            RequestView {
                method: Method::Put,
                url,
                content_type: Some("application/json"@),
                accept: Some("application/json"@),
                authorization: Some(auth_token),
                body: Some(
                    JsonBodyView::UserRequest {
                        username: None,
                        email: t.email,
                        password: t.password,
                    },
                ),
            },
        ),
        None => None,
    }
}

/// What an authorization token tells: that the user exists, and the value of
/// the `Authorization` header for it.
pub open spec fn auth_token_entries(username: Seq<char>, token: Seq<char>) -> Seq<
    (DependencyView, Seq<char>),
> {
    seq![
        (DependencyView::UserExists(username), Seq::<char>::empty()),
        (DependencyView::AuthToken(username), "Token "@ + token),
    ]
}

/// What the root of the API tells: that the user exists, and where it is found.
pub open spec fn user_url_entries(username: Seq<char>, user: Seq<char>) -> Seq<
    (DependencyView, Seq<char>),
> {
    seq![
        (DependencyView::UserExists(username), Seq::<char>::empty()),
        (DependencyView::UserUrl(username), user),
    ]
}

/// What a user's details tell.
pub open spec fn user_entries(
    username: Seq<char>,
    url: Seq<char>,
    email: Seq<char>,
    groups: Seq<char>,
) -> Seq<(DependencyView, Seq<char>)> {
    seq![
        (DependencyView::UserExists(username), Seq::<char>::empty()),
        (DependencyView::UserUrl(username), url),
        (DependencyView::UserEmail(username), email),
        (DependencyView::UserGroupsUrl(username), groups),
    ]
}

/// The request for the authorization token of a user.
pub fn auth_token_request(task: &UserTask) -> (request: Option<Request>)
    ensures
        request_of(request) == auth_token_request_spec(task@),
{
    let body = JsonBody::AuthTokenRequest {
        username: String::from_str(task.username.as_str()),
        password: task.password.clone(),
    };
    match url_join(task.url.as_str(), "auth-token/") {
        Some(address) => Some(Request::new(Method::Post, address).json(body).accept_json()),
        None => None,
    }
}

/// The request that creates a user.
pub fn create_user_request(task: &UserTask) -> (request: Option<Request>)
    ensures
        request_of(request) == create_user_request_spec(task@),
{
    let body = JsonBody::UserRequest {
        username: Some(String::from_str(task.username.as_str())),
        email: task.email.clone(),
        password: task.password.clone(),
    };
    match url_join(task.url.as_str(), "users/") {
        Some(address) => Some(Request::new(Method::Post, address).json(body).accept_json()),
        None => None,
    }
}

/// The request for the root of the API, as the user.
pub fn get_url_request(task: &UserTask, auth_token: &str) -> (request: Option<Request>)
    ensures
        request_of(request) == get_url_request_spec(task@, auth_token@),
{
    match set_query(task.url.as_str(), "limit=1") {
        Some(address) => Some(
            Request::new(Method::Get, address).auth_token(auth_token).accept_json(),
        ),
        None => None,
    }
}

/// The request for the user's details.
pub fn get_details_request(user_url: &str, auth_token: &str) -> (request: Option<Request>)
    ensures
        request_of(request) == get_details_request_spec(user_url@, auth_token@),
{
    match url_parse(user_url) {
        Some(address) => Some(
            Request::new(Method::Get, address).auth_token(auth_token).accept_json(),
        ),
        None => None,
    }
}

/// The request that sets the user's email address.
pub fn set_email_request(task: &UserTask, user_url: &str, auth_token: &str) -> (request: Option<
    Request,
>)
    ensures
        request_of(request) == set_email_request_spec(task@, user_url@, auth_token@),
{
    let body = JsonBody::UserRequest {
        username: None,
        email: task.email.clone(),
        password: task.password.clone(),
    };
    match url_parse(user_url) {
        Some(address) => Some(
            Request::new(Method::Put, address).auth_token(auth_token).json(body).accept_json(),
        ),
        None => None,
    }
}

/// The entries that an authorization token gives.
pub fn deserialize_auth_token(username: &Username, token: &str) -> (entries: Entries)
    ensures
        entries_view(entries@) == auth_token_entries(username@, token@),
{
    let entries = vec![
        (Dependency::UserExists(username.clone()), String::new()),
        (Dependency::AuthToken(username.clone()), AuthTokenHeader::new(token).into_inner()),
    ];
    assert(entries_view(entries@) =~= auth_token_entries(username@, token@));
    entries
}

/// The entries that the root of the API gives.
pub fn deserialize_root_response(username: &Username, user: String) -> (entries: Entries)
    ensures
        entries_view(entries@) == user_url_entries(username@, user@),
{
    let ghost text = user@;
    let entries = vec![
        (Dependency::UserExists(username.clone()), String::new()),
        (Dependency::UserUrl(username.clone()), user),
    ];
    assert(entries_view(entries@) =~= user_url_entries(username@, text));
    entries
}

/// The entries that a user's details give.
pub fn deserialize_user_response(
    username: &Username,
    url: String,
    email: String,
    groups: String,
) -> (entries: Entries)
    ensures
        entries_view(entries@) == user_entries(username@, url@, email@, groups@),
{
    let ghost want = user_entries(username@, url@, email@, groups@);
    let entries = vec![
        (Dependency::UserExists(username.clone()), String::new()),
        (Dependency::UserUrl(username.clone()), url),
        (Dependency::UserEmail(username.clone()), email),
        (Dependency::UserGroupsUrl(username.clone()), groups),
    ];
    assert(entries_view(entries@) =~= want);
    entries
}

/// Evaluates the step that makes sure that a user exists.
pub fn evaluate_exists<M: DependencyMap>(task: &UserTask, map: &mut M) -> (r: PendingStepResult)
    requires
        old(map).wf(),
    ensures
        final(map).wf(),
        final(map).answers() == old(map).answers(),
        final(map).log() == old(map).log() + evaluate_full(
            PendingStepView::UserExists(task@),
            old(map).answers(),
        ).1,
        evaluation_view(r) == evaluate_full(
            PendingStepView::UserExists(task@),
            old(map).answers(),
        ).0,
{
    let exists = Dependency::UserExists(task.username.clone());
    proof {
        assert(map.log() =~= old(map).log() + Seq::<DependencyView>::empty());
    }
    if map.contains_key(&exists) {
        Ok(None)
    } else {
        Ok(Some(Step::UserExists(task.clone())))
    }
}

/// Evaluates the step that gets a user's authorization token.
pub fn evaluate_get_auth_token<M: DependencyMap>(task: &UserTask, map: &mut M) -> (r:
    PendingStepResult)
    requires
        old(map).wf(),
    ensures
        final(map).wf(),
        final(map).answers() == old(map).answers(),
        final(map).log() == old(map).log() + evaluate_full(
            PendingStepView::UserGetAuthToken(task@),
            old(map).answers(),
        ).1,
        evaluation_view(r) == evaluate_full(
            PendingStepView::UserGetAuthToken(task@),
            old(map).answers(),
        ).0,
{
    let ghost exists = DependencyView::UserExists(task.username@);
    match map.get(Dependency::UserExists(task.username.clone())) {
        Err(missing) => {
            proof {
                assert(map.log() =~= old(map).log() + seq![exists]);
            }
            return Err(missing);
        },
        Ok(_) => {},
    }
    proof {
        assert(map.log() =~= old(map).log() + seq![exists]);
    }
    if map.contains_key(&Dependency::AuthToken(task.username.clone())) {
        Ok(None)
    } else {
        Ok(Some(Step::UserGetAuthToken(task.clone())))
    }
}

/// Evaluates the step that finds where a user is found in the API.
pub fn evaluate_get_url<M: DependencyMap>(task: &UserTask, map: &mut M) -> (r: PendingStepResult)
    requires
        old(map).wf(),
    ensures
        final(map).wf(),
        final(map).answers() == old(map).answers(),
        final(map).log() == old(map).log() + evaluate_full(
            PendingStepView::UserGetUrl(task@),
            old(map).answers(),
        ).1,
        evaluation_view(r) == evaluate_full(
            PendingStepView::UserGetUrl(task@),
            old(map).answers(),
        ).0,
{
    let ghost exists = DependencyView::UserExists(task.username@);
    let ghost token = DependencyView::AuthToken(task.username@);
    match map.get(Dependency::UserExists(task.username.clone())) {
        Err(missing) => {
            proof {
                assert(map.log() =~= old(map).log() + seq![exists]);
            }
            return Err(missing);
        },
        Ok(_) => {},
    }
    if map.contains_key(&Dependency::UserUrl(task.username.clone())) {
        proof {
            assert(map.log() =~= old(map).log() + seq![exists]);
        }
        return Ok(None);
    }
    let found = map.get(Dependency::AuthToken(task.username.clone()));
    proof {
        assert(map.log() =~= old(map).log() + seq![exists, token]);
    }
    match found {
        Err(missing) => Err(missing),
        Ok(auth_token) => Ok(Some(Step::UserGetUrl { task: task.clone(), auth_token })),
    }
}

/// Evaluates the step that gets a user's details.
pub fn evaluate_get_details<M: DependencyMap>(task: &UserTask, map: &mut M) -> (r:
    PendingStepResult)
    requires
        old(map).wf(),
    ensures
        final(map).wf(),
        final(map).answers() == old(map).answers(),
        final(map).log() == old(map).log() + evaluate_full(
            PendingStepView::UserGetDetails(task@),
            old(map).answers(),
        ).1,
        evaluation_view(r) == evaluate_full(
            PendingStepView::UserGetDetails(task@),
            old(map).answers(),
        ).0,
{
    let ghost exists = DependencyView::UserExists(task.username@);
    let ghost url = DependencyView::UserUrl(task.username@);
    let ghost token = DependencyView::AuthToken(task.username@);
    match map.get(Dependency::UserExists(task.username.clone())) {
        Err(missing) => {
            proof {
                assert(map.log() =~= old(map).log() + seq![exists]);
            }
            return Err(missing);
        },
        Ok(_) => {},
    }
    let user_url = map.get(Dependency::UserUrl(task.username.clone()));
    if user_url.is_ok() && map.contains_key(&Dependency::UserGroupsUrl(task.username.clone()))
        && map.contains_key(&Dependency::UserEmail(task.username.clone())) {
        proof {
            assert(map.log() =~= old(map).log() + seq![exists, url]);
        }
        return Ok(None);
    }
    let found = map.get(Dependency::AuthToken(task.username.clone()));
    proof {
        assert(map.log() =~= old(map).log() + seq![exists, url, token]);
    }
    let auth_token = match found {
        Err(missing) => {
            return Err(missing);
        },
        Ok(auth_token) => auth_token,
    };
    match user_url {
        Err(missing) => Err(missing),
        Ok(user_url) => Ok(Some(Step::UserGetDetails { task: task.clone(), user_url, auth_token })),
    }
}

/// Evaluates the step that sets a user's email address.
pub fn evaluate_details_finalize<M: DependencyMap>(task: &UserTask, map: &mut M) -> (r:
    PendingStepResult)
    requires
        old(map).wf(),
    ensures
        final(map).wf(),
        final(map).answers() == old(map).answers(),
        final(map).log() == old(map).log() + evaluate_full(
            PendingStepView::UserDetailsFinalize(task@),
            old(map).answers(),
        ).1,
        evaluation_view(r) == evaluate_full(
            PendingStepView::UserDetailsFinalize(task@),
            old(map).answers(),
        ).0,
{
    let ghost exists = DependencyView::UserExists(task.username@);
    let ghost url = DependencyView::UserUrl(task.username@);
    let ghost token = DependencyView::AuthToken(task.username@);
    let ghost email = DependencyView::UserEmail(task.username@);
    match map.get(Dependency::UserExists(task.username.clone())) {
        Err(missing) => {
            proof {
                assert(map.log() =~= old(map).log() + seq![exists]);
            }
            return Err(missing);
        },
        Ok(_) => {},
    }
    let user_url = match map.get(Dependency::UserUrl(task.username.clone())) {
        Err(missing) => {
            proof {
                assert(map.log() =~= old(map).log() + seq![exists, url]);
            }
            return Err(missing);
        },
        Ok(user_url) => user_url,
    };
    let auth_token = match map.get(Dependency::AuthToken(task.username.clone())) {
        Err(missing) => {
            proof {
                assert(map.log() =~= old(map).log() + seq![exists, url, token]);
            }
            return Err(missing);
        },
        Ok(auth_token) => auth_token,
    };
    let found = map.get(Dependency::UserEmail(task.username.clone()));
    proof {
        assert(map.log() =~= old(map).log() + seq![exists, url, token, email]);
    }
    let prev_email = match found {
        Err(missing) => {
            return Err(missing);
        },
        Ok(prev_email) => prev_email,
    };
    if *prev_email == task.email {
        Ok(None)
    } else {
        Ok(Some(Step::UserSetEmail { task: task.clone(), user_url, auth_token }))
    }
}

} // verus!
