//! The keys that a step provides: a list that is never empty, kept by the
//! `nonempty` crate.
//!
//! Everything in this file is believed, not proved: each function here makes
//! one call into `nonempty` and states what that call does to the keys of
//! the list.
use crate::dependency::{keys_view, Dependency, DependencyView};
use nonempty::NonEmpty;
use vstd::prelude::*;

verus! {

/// A list with a first item: `NonEmpty` of the `nonempty` crate.
#[verifier::external_type_specification]
#[verifier::external_body]
#[verifier::reject_recursive_types(T)]
pub struct ExNonEmpty<T>(NonEmpty<T>);

/// The keys of a list, the first one first.
pub uninterp spec fn provided_keys(keys: NonEmpty<Dependency>) -> Seq<DependencyView>;

/// `NonEmpty::new`: the list of one key.
#[verifier::external_body]
pub(crate) fn keys_new(first: Dependency) -> (keys: NonEmpty<Dependency>)
    ensures
        provided_keys(keys) == seq![first@],
{
    NonEmpty::new(first)
}

/// `NonEmpty::push`: the key is put at the end of the list.
#[verifier::external_body]
pub(crate) fn keys_push(keys: &mut NonEmpty<Dependency>, key: Dependency)
    ensures
        provided_keys(*final(keys)) == provided_keys(*old(keys)).push(key@),
{
    keys.push(key)
}

/// `Vec::from` a `NonEmpty`: the keys of the list, in their order.
#[verifier::external_body]
pub(crate) fn keys_into_vec(keys: NonEmpty<Dependency>) -> (list: Vec<Dependency>)
    ensures
        keys_view(list@) == provided_keys(keys),
{
    Vec::from(keys)
}

} // verus!
