//! String operations of the standard library that the verifier has no
//! contract for. Each function here makes one such call; what it states of
//! the result is believed, not proved.
use std::rc::Rc;
use vstd::prelude::*;

verus! {

/// `a` is the beginning of `s`.
pub open spec fn starts_with(s: Seq<char>, a: Seq<char>) -> bool {
    a.len() <= s.len() && s.subrange(0, a.len() as int) == a
}

/// `a` is the end of `s`.
pub open spec fn ends_with(s: Seq<char>, a: Seq<char>) -> bool {
    a.len() <= s.len() && s.subrange(s.len() - a.len(), s.len() as int) == a
}

/// `a` stands somewhere in `s`.
pub open spec fn contains_text(s: Seq<char>, a: Seq<char>) -> bool {
    exists|i: int| 0 <= i <= s.len() - a.len() && #[trigger] s.subrange(i, i + a.len()) == a
}

/// `str::contains`: whether `pattern` stands somewhere in `s`.
#[verifier::external_body]
pub(crate) fn str_contains(s: &str, pattern: &str) -> (b: bool)
    ensures
        b == contains_text(s@, pattern@),
{
    s.contains(pattern)
}

/// `str::starts_with`: whether `prefix` is the beginning of `s`.
#[verifier::external_body]
pub(crate) fn str_starts_with(s: &str, prefix: &str) -> (b: bool)
    ensures
        b == starts_with(s@, prefix@),
{
    s.starts_with(prefix)
}

/// `str::ends_with`: whether `suffix` is the end of `s`.
#[verifier::external_body]
pub(crate) fn str_ends_with(s: &str, suffix: &str) -> (b: bool)
    ensures
        b == ends_with(s@, suffix@),
{
    s.ends_with(suffix)
}

/// `str::split_once`: the text before the first `delimiter` and the text
/// after it, or `None` where `s` holds no `delimiter`.
#[verifier::external_body]
pub(crate) fn str_split_once(s: &str, delimiter: char) -> (parts: Option<(String, String)>)
    ensures
        match parts {
            Some((before, after)) => s@ == before@ + seq![delimiter] + after@ && !before@.contains(
                delimiter,
            ),
            None => !s@.contains(delimiter),
        },
{
    s.split_once(delimiter).map(|(before, after)| (before.to_string(), after.to_string()))
}

/// `s` with `to` in place of each `from`, the occurrences of `from` taken
/// from the left, none of them over another.
pub open spec fn replaced(s: Seq<char>, from: Seq<char>, to: Seq<char>) -> Seq<char>
    decreases s.len(),
{
    if from.len() == 0 || s.len() < from.len() {
        s
    } else if s.subrange(0, from.len() as int) == from {
        to + replaced(s.subrange(from.len() as int, s.len() as int), from, to)
    } else {
        seq![s[0]] + replaced(s.subrange(1, s.len() as int), from, to)
    }
}

/// `str::replace`: the text with `to` in place of each match of `from`.
#[verifier::external_body]
pub(crate) fn str_replace(s: &str, from: &str, to: &str) -> (r: String)
    requires
        from@.len() > 0,
    ensures
        r@ == replaced(s@, from@, to@),
{
    s.replace(from, to)
}

/// `Rc::clone`: another handle to the same value.
#[verifier::external_body]
pub(crate) fn rc_clone(value: &Rc<String>) -> (handle: Rc<String>)
    ensures
        handle == *value,
{
    Rc::clone(value)
}

} // verus!
