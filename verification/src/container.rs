//! Finding a _ChRIS_ backend among the containers that run on this machine:
//! what the listing of a container engine says, and which container is the
//! backend.
use crate::spec::{GivenGlobal, UserCredentials};
use crate::text::{contains_text, str_contains, str_split_once};
use crate::types::{CubeUrl, Username};
use vstd::prelude::*;
use vstd::string::StringExecFns;

verus! {

/// What one line of the listing of running containers says: the container's
/// ID, which is what stands before the first space, and its image, which is
/// the rest. A line without a space says nothing.
pub fn parse_image_line(line: &str) -> (r: Option<(String, String)>)
    ensures
        match r {
            Some((id, image)) => line@ == id@ + seq![' '] + image@ && !id@.contains(' '),
            None => !line@.contains(' '),
        },
{
    str_split_once(line, ' ')
}

/// The image is one of the backend.
pub open spec fn is_cube_image_spec(image: Seq<char>) -> bool {
    contains_text(image, "/fnndsc/cube:"@)
}

/// Returns `true` if the image is one of the backend: its name holds
/// `/fnndsc/cube:`.
pub fn is_cube_image(image: &str) -> (b: bool)
    ensures
        b == is_cube_image_spec(image@),
{
    str_contains(image, "/fnndsc/cube:")
}

/// What one line of a container's environment says: the name of a variable,
/// which is what stands before the first `=`, and its value, which is the
/// rest. A line without `=` names a variable with an empty value.
pub fn split_env_line(line: &str) -> (r: (String, String))
    ensures
        if line@.contains('=') {
            line@ == r.0@ + seq!['='] + r.1@ && !r.0@.contains('=')
        } else {
            r.0@ == line@ && r.1@ == Seq::<char>::empty()
        },
{
    match str_split_once(line, '=') {
        Some((name, value)) => {
            proof {
                let whole = name@ + seq!['='] + value@;
                assert(whole[name@.len() as int] == '=');
            }
            (name, value)
        },
        None => (String::from_str(line), String::new()),
    }
}

/// The place of the first pair whose first part is `key`, among the first
/// `n` pairs.
pub open spec fn first_with(pairs: Seq<(String, String)>, key: Seq<char>, n: int) -> Option<int>
    decreases n,
{
    if n <= 0 {
        None
    } else {
        match first_with(pairs, key, n - 1) {
            Some(i) => Some(i),
            None => if pairs[n - 1].0@ == key {
                Some(n - 1)
            } else {
                None
            },
        }
    }
}

/// A match that shows among the first pairs stays the first match.
proof fn lemma_first_with_stays(pairs: Seq<(String, String)>, key: Seq<char>, k: int, n: int)
    requires
        0 <= k <= n,
        first_with(pairs, key, k) is Some,
    ensures
        first_with(pairs, key, n) == first_with(pairs, key, k),
    decreases n - k,
{
    if k < n {
        lemma_first_with_stays(pairs, key, k, n - 1);
    }
}

/// The second part of the first pair whose first part is `key`.
fn lookup<'a>(pairs: &'a Vec<(String, String)>, key: &str) -> (r: Option<&'a String>)
    ensures
        match r {
            Some(value) => first_with(pairs@, key@, pairs@.len() as int) matches Some(i) && *value
                == pairs@[i].1,
            None => first_with(pairs@, key@, pairs@.len() as int) is None,
        },
{
    let wanted = String::from_str(key);
    let mut i: usize = 0;
    while i < pairs.len()
        invariant
            i <= pairs@.len(),
            wanted@ == key@,
            first_with(pairs@, key@, i as int) is None,
        decreases pairs@.len() - i,
    {
        if pairs[i].0 == wanted {
            proof {
                assert(first_with(pairs@, key@, i + 1) == Some(i as int));
                lemma_first_with_stays(pairs@, key@, i + 1, pairs@.len() as int);
            }
            return Some(&pairs[i].1);
        }
        i += 1;
    }
    None
}

/// The global configuration for the backend in a container, if the container
/// is one: the port of the container that the backend listens on,
/// `8000/tcp`, must be bound to a port of this machine, and the container's
/// environment must hold the password of the superuser.
///
/// `bindings` pairs each container port with the port of this machine that
/// it is bound to; `env` pairs each variable with its value. The backend is
/// reached at `http://localhost:{port}/api/v1/`, and its admin is `chris`
/// with the password found.
pub fn get_cube_details(bindings: &Vec<(String, String)>, env: &Vec<(String, String)>) -> (r:
    Option<GivenGlobal>)
    ensures
        match r {
            Some(global) => {
                &&& first_with(bindings@, "8000/tcp"@, bindings@.len() as int) matches Some(i)
                &&& first_with(env@, "CHRIS_SUPERUSER_PASSWORD"@, env@.len() as int) matches Some(j)
                &&& global.cube matches Some(url)
                &&& url@ == "http://localhost:"@ + bindings@[i].1@ + "/api/v1/"@
                &&& global.admin matches Some(admin)
                &&& admin@ == (crate::spec::UserCredentialsView {
                    username: "chris"@,
                    secret: crate::spec::PasswordOrTokenView::Password(env@[j].1@),
                })
                &&& global.email_domain is None
                &&& global.peer is None
            },
            None => first_with(bindings@, "8000/tcp"@, bindings@.len() as int) is None
                || first_with(env@, "CHRIS_SUPERUSER_PASSWORD"@, env@.len() as int) is None,
        },
{
    let port = match lookup(bindings, "8000/tcp") {
        Some(port) => port,
        None => {
            return None;
        },
    };
    let password = match lookup(env, "CHRIS_SUPERUSER_PASSWORD") {
        Some(password) => password,
        None => {
            return None;
        },
    };
    let address = String::from_str("http://localhost:").concat(port.as_str()).concat("/api/v1/");
    proof {
        reveal_strlit("http://localhost:");
        reveal_strlit("http://");
        let prefix = "http://"@;
        assert(address@.subrange(0, prefix.len() as int) =~= prefix);
    }
    let url = match CubeUrl::try_new(address.as_str()) {
        Ok(url) => url,
        Err(_) => {
            return None;
        },
    };
    Some(
        GivenGlobal {
            cube: Some(url),
            admin: Some(
                UserCredentials::basic_auth(
                    Username::new(String::from_str("chris")),
                    password.clone(),
                ),
            ),
            email_domain: None,
            peer: None,
        },
    )
}

} // verus!
