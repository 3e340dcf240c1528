//! Addresses: what the steps do with URLs, by the `url` crate as `reqwest`
//! hands it on.
//!
//! Each function marked as believed makes one call into that crate. It takes
//! its URL as a text and hands the result back as a text, written out as
//! `Url::as_str` writes it.
use crate::request_builder::text_of;
use reqwest::Url;
use vstd::prelude::*;
use vstd::string::StrSliceExecFns;

verus! {

/// The URL that a text stands for; `None` where the text is no URL.
pub uninterp spec fn parsed(text: Seq<char>) -> Option<Seq<char>>;

/// The URL that a reference leads to from a base URL; `None` where the base
/// is no URL, or the reference leads nowhere from it.
pub uninterp spec fn joined(base: Seq<char>, reference: Seq<char>) -> Option<Seq<char>>;

/// The URL with another query; `None` where the text is no URL.
pub uninterp spec fn with_query(url: Seq<char>, query: Seq<char>) -> Option<Seq<char>>;

/// The URL with another path; `None` where the text is no URL.
pub uninterp spec fn with_path(url: Seq<char>, path: Seq<char>) -> Option<Seq<char>>;

/// The path of a URL; `None` where the text is no URL.
pub uninterp spec fn path_of(url: Seq<char>) -> Option<Seq<char>>;

/// The longest text, in characters, that is given to the `url` crate as a
/// part of a URL: with parts no longer than this a URL stays within the
/// length that the crate can hold.
pub const PART_LIMIT: usize = 1048576;

/// `Url::parse`: the URL that the text stands for, or `None` where the crate
/// refuses the text.
#[verifier::external_body]
pub(crate) fn url_parse(text: &str) -> (r: Option<String>)
    ensures
        text_of(r) == parsed(text@),
{
    match Url::parse(text) {
        Ok(url) => Some(String::from(url)),
        Err(_) => None,
    }
}

/// `Url::join`, on the URL that `Url::parse` reads from `base`: the URL that
/// `reference` leads to from there, or `None` where the crate refuses either.
#[verifier::external_body]
pub(crate) fn url_join(base: &str, reference: &str) -> (r: Option<String>)
    ensures
        text_of(r) == joined(base@, reference@),
{
    match Url::parse(base) {
        Ok(url) => match url.join(reference) {
            Ok(target) => Some(String::from(target)),
            Err(_) => None,
        },
        Err(_) => None,
    }
}

/// `Url::set_query`, on the URL that `Url::parse` reads from `url`: the URL
/// with `query` in place of its own query, or `None` where the crate refuses
/// the URL. Longer texts are left out: the crate panics on a URL of more
/// than `u32::MAX` bytes.
#[verifier::external_body]
pub(crate) fn url_set_query(url: &str, query: &str) -> (r: Option<String>)
    requires
        url@.len() <= PART_LIMIT,
        query@.len() <= PART_LIMIT,
    ensures
        text_of(r) == with_query(url@, query@),
{
    match Url::parse(url) {
        Ok(mut target) => {
            target.set_query(Some(query));
            Some(String::from(target))
        },
        Err(_) => None,
    }
}

/// `Url::set_path`, on the URL that `Url::parse` reads from `url`: the URL
/// with `path` in place of its own path, or `None` where the crate refuses
/// the URL. Longer texts are left out: the crate panics on a URL of more
/// than `u32::MAX` bytes.
#[verifier::external_body]
pub(crate) fn url_set_path(url: &str, path: &str) -> (r: Option<String>)
    requires
        url@.len() <= PART_LIMIT,
        path@.len() <= PART_LIMIT,
    ensures
        text_of(r) == with_path(url@, path@),
{
    match Url::parse(url) {
        Ok(mut target) => {
            target.set_path(path);
            Some(String::from(target))
        },
        Err(_) => None,
    }
}

/// `Url::path`, on the URL that `Url::parse` reads from `url`: its path, or
/// `None` where the crate refuses the URL.
#[verifier::external_body]
pub(crate) fn url_path(url: &str) -> (r: Option<String>)
    ensures
        text_of(r) == path_of(url@),
{
    match Url::parse(url) {
        Ok(target) => Some(String::from(target.path())),
        Err(_) => None,
    }
}

/// The URL with another query, where both texts are short enough.
pub open spec fn queried(url: Seq<char>, query: Seq<char>) -> Option<Seq<char>> {
    if url.len() <= PART_LIMIT && query.len() <= PART_LIMIT {
        with_query(url, query)
    } else {
        None
    }
}

/// The URL with another path, where both texts are short enough.
pub open spec fn pathed(url: Seq<char>, path: Seq<char>) -> Option<Seq<char>> {
    if url.len() <= PART_LIMIT && path.len() <= PART_LIMIT {
        with_path(url, path)
    } else {
        None
    }
}

/// The URL with `query` in place of its own query. There is none where
/// `url` is no URL, or where one of the two texts is too long.
pub fn set_query(url: &str, query: &str) -> (r: Option<String>)
    ensures
        text_of(r) == queried(url@, query@),
{
    if url.unicode_len() > PART_LIMIT || query.unicode_len() > PART_LIMIT {
        None
    } else {
        url_set_query(url, query)
    }
}

/// The URL with `path` in place of its own path. There is none where `url`
/// is no URL, or where one of the two texts is too long.
pub fn set_path(url: &str, path: &str) -> (r: Option<String>)
    ensures
        text_of(r) == pathed(url@, path@),
{
    if url.unicode_len() > PART_LIMIT || path.unicode_len() > PART_LIMIT {
        None
    } else {
        url_set_path(url, path)
    }
}

} // verus!
