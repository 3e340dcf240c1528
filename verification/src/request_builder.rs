//! HTTP requests as the steps describe them, before a client sends them.
use crate::effect::Method;
use crate::spec::{PasswordOrToken, PasswordOrTokenView, UserCredentials, UserCredentialsView};
use crate::types::Username;
use base64::Engine;
use vstd::prelude::*;
use vstd::string::StringExecFns;

verus! {

/// What a request carries as its JSON body.
#[derive(Debug, PartialEq, Eq)]
#[allow(inconsistent_fields)]
pub enum JsonBody {
    /// Credentials, to obtain an authorization token.
    AuthTokenRequest { username: String, password: String },
    /// The details of a user to create or to change.
    UserRequest { username: Option<String>, email: String, password: String },
    /// A plugin to register from a peer.
    PluginAdminRequest { compute_names: String, plugin_store_url: String },
}

/// What a [`JsonBody`] says.
#[allow(inconsistent_fields)]
pub enum JsonBodyView {
    AuthTokenRequest { username: Seq<char>, password: Seq<char> },
    UserRequest { username: Option<Seq<char>>, email: Seq<char>, password: Seq<char> },
    PluginAdminRequest { compute_names: Seq<char>, plugin_store_url: Seq<char> },
}

/// The text of an optional string.
pub open spec fn text_of(s: Option<String>) -> Option<Seq<char>> {
    match s {
        Some(s) => Some(s@),
        None => None,
    }
}

impl View for JsonBody {
    type V = JsonBodyView;

    open spec fn view(&self) -> JsonBodyView {
        match self {
            JsonBody::AuthTokenRequest { username, password } => JsonBodyView::AuthTokenRequest {
                username: username@,
                password: password@,
            },
            JsonBody::UserRequest { username, email, password } => JsonBodyView::UserRequest {
                username: text_of(*username),
                email: email@,
                password: password@,
            },
            JsonBody::PluginAdminRequest {
                compute_names,
                plugin_store_url,
            } => JsonBodyView::PluginAdminRequest {
                compute_names: compute_names@,
                plugin_store_url: plugin_store_url@,
            },
        }
    }
}

/// An HTTP request: where it goes, what it carries, and the three headers
/// that the steps set.
#[derive(Debug, PartialEq, Eq)]
pub struct Request {
    pub method: Method,
    pub url: String,
    /// The `Content-Type` header.
    pub content_type: Option<String>,
    /// The `Accept` header.
    pub accept: Option<String>,
    /// The `Authorization` header.
    pub authorization: Option<String>,
    /// The body, to be written as JSON.
    pub body: Option<JsonBody>,
}

/// What a [`Request`] says.
pub struct RequestView {
    pub method: Method,
    pub url: Seq<char>,
    pub content_type: Option<Seq<char>>,
    pub accept: Option<Seq<char>>,
    pub authorization: Option<Seq<char>>,
    pub body: Option<JsonBodyView>,
}

impl View for Request {
    type V = RequestView;

    open spec fn view(&self) -> RequestView {
        RequestView {
            method: self.method,
            url: self.url@,
            content_type: text_of(self.content_type),
            accept: text_of(self.accept),
            authorization: text_of(self.authorization),
            body: match self.body {
                Some(b) => Some(b@),
                None => None,
            },
        }
    }
}

/// What a request says, where there is one.
pub open spec fn request_of(request: Option<Request>) -> Option<RequestView> {
    match request {
        Some(request) => Some(request@),
        None => None,
    }
}

/// The standard base64 encoding, with padding, of the UTF-8 bytes of a text.
pub uninterp spec fn base64_text(text: Seq<char>) -> Seq<char>;

/// `Engine::encode` of `base64::prelude::BASE64_STANDARD`: the encoding of
/// the text's bytes.
#[verifier::external_body]
fn base64_standard(text: &str) -> (encoded: String)
    ensures
        encoded@ == base64_text(text@),
{
    base64::prelude::BASE64_STANDARD.encode(text)
}

/// A request with no header and no body.
pub open spec fn plain_request(method: Method, url: Seq<char>) -> RequestView {
    RequestView {
        method,
        url,
        content_type: None,
        accept: None,
        authorization: None,
        body: None,
    }
}

/// The value of the `Authorization` header for HTTP basic auth.
pub open spec fn basic_auth_text(username: Seq<char>, password: Seq<char>) -> Seq<char> {
    "Basic "@ + base64_text(username + ":"@ + password)
}

/// The value of the `Authorization` header for the given credentials.
pub open spec fn auth_text(credentials: UserCredentialsView) -> Seq<char> {
    match credentials.secret {
        PasswordOrTokenView::Password(password) => basic_auth_text(credentials.username, password),
        PasswordOrTokenView::Token(token) => token,
    }
}

impl Request {
    /// A request with no header and no body.
    pub fn new(method: Method, url: String) -> (request: Request)
        ensures
            request@ == plain_request(method, url@),
    {
        Request { method, url, content_type: None, accept: None, authorization: None, body: None }
    }

    /// Add a JSON body.
    pub fn json(self, body: JsonBody) -> (request: Request)
        ensures
            request@ == (RequestView {
                content_type: Some("application/json"@),
                body: Some(body@),
                ..self@
            }),
    {
        Request {
            method: self.method,
            url: self.url,
            content_type: Some(String::from_str("application/json")),
            accept: self.accept,
            authorization: self.authorization,
            body: Some(body),
        }
    }

    /// Expect JSON response.
    pub fn accept_json(self) -> (request: Request)
        ensures
            request@ == (RequestView { accept: Some("application/json"@), ..self@ }),
    {
        Request {
            method: self.method,
            url: self.url,
            content_type: self.content_type,
            accept: Some(String::from_str("application/json")),
            authorization: self.authorization,
            body: self.body,
        }
    }

    /// Set the Authorization header to use token authorization.
    pub fn auth_token(self, value: &str) -> (request: Request)
        ensures
            request@ == (RequestView { authorization: Some(value@), ..self@ }),
    {
        Request {
            method: self.method,
            url: self.url,
            content_type: self.content_type,
            accept: self.accept,
            authorization: Some(String::from_str(value)),
            body: self.body,
        }
    }

    /// Set the Authorization header to use HTTP basic auth.
    pub fn basic_auth(self, username: &Username, password: &str) -> (request: Request)
        ensures
            request@ == (RequestView {
                authorization: Some(basic_auth_text(username@, password@)),
                ..self@
            }),
    {
        let value = String::from_str("Basic ").concat(encode(username, password).as_str());
        Request {
            method: self.method,
            url: self.url,
            content_type: self.content_type,
            accept: self.accept,
            authorization: Some(value),
            body: self.body,
        }
    }

    /// Set the Authorization header.
    pub fn auth(self, credentials: &UserCredentials) -> (request: Request)
        ensures
            request@ == (RequestView {
                authorization: Some(auth_text(credentials@)),
                ..self@
            }),
    {
        match &credentials.secret {
            PasswordOrToken::Password(password) => self.basic_auth(
                &credentials.username,
                password.as_str(),
            ),
            PasswordOrToken::Token(token) => self.auth_token(token.as_str()),
        }
    }
}

/// The base64 encoding of `{username}:{password}`.
fn encode(username: &Username, password: &str) -> (encoded: String)
    ensures
        encoded@ == base64_text(username@ + ":"@ + password@),
{
    let text = String::from_str(username.as_str()).concat(":").concat(password);
    base64_standard(text.as_str())
}

} // verus!
