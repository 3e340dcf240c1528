//! With whom a resource is shared.
use crate::text::str_split_once;
use crate::types::{Group, Username};
use vstd::prelude::*;
use vstd::string::StringExecFns;

verus! {

/// User or group to share a ChRIS resource with.
///
/// Written as `alice` or `user:alice` for a user, and as `group:friends` for
/// a group.
#[derive(Debug, PartialEq, Eq)]
pub enum ShareTarget {
    /// Username to share with
    User(Username),
    /// Group to share with
    Group(Group),
}

/// What a [`ShareTarget`] says.
pub enum ShareTargetView {
    User(Seq<char>),
    Group(Seq<char>),
}

impl View for ShareTarget {
    type V = ShareTargetView;

    open spec fn view(&self) -> ShareTargetView {
        match self {
            ShareTarget::User(u) => ShareTargetView::User(u@),
            ShareTarget::Group(g) => ShareTargetView::Group(g@),
        }
    }
}

/// Why a text names nobody to share with.
#[derive(Debug, PartialEq, Eq)]
pub enum ShareTargetError {
    /// What stands before the colon is neither `user` nor `group`.
    InvalidPrefix(String),
}

/// Whom a text names, or what stands before its first colon where that is
/// neither `user` nor `group`. A text without a colon names a user.
pub open spec fn parse_share_target(s: Seq<char>) -> Result<ShareTargetView, Seq<char>> {
    match s.index_of_first(':') {
        Some(i) => {
            let prefix = s.subrange(0, i);
            let name = s.subrange(i + 1, s.len() as int);
            if prefix == "group"@ {
                Ok(ShareTargetView::Group(name))
            } else if prefix == "user"@ {
                Ok(ShareTargetView::User(name))
            } else {
                Err(prefix)
            }
        },
        None => Ok(ShareTargetView::User(s)),
    }
}

/// The written form of a share target: the name of a user as it is, the name
/// of a group after `group:`.
pub open spec fn share_target_text(target: ShareTargetView) -> Seq<char> {
    match target {
        ShareTargetView::User(name) => name,
        ShareTargetView::Group(name) => "group:"@ + name,
    }
}

/// Where a text is cut at a colon that nothing before it equals, that colon
/// is the first.
proof fn lemma_first_colon(s: Seq<char>, before: Seq<char>, after: Seq<char>)
    requires
        s == before + seq![':'] + after,
        !before.contains(':'),
    ensures
        s.index_of_first(':') == Some(before.len() as int),
        s.subrange(0, before.len() as int) == before,
        s.subrange(before.len() as int + 1, s.len() as int) == after,
{
    s.index_of_first_ensures(':');
    let at = before.len() as int;
    assert(s[at] == ':');
    assert(s.contains(':'));
    let i = s.index_of_first(':').unwrap();
    if i < at {
        assert(before[i] == s[i]);
        assert(before.contains(':'));
    }
    assert(s.subrange(0, at) =~= before);
    assert(s.subrange(at + 1, s.len() as int) =~= after);
}

/// Reading the written form of a group gives back the group.
pub proof fn lemma_parse_of_group_text(name: Seq<char>)
    ensures
        parse_share_target(share_target_text(ShareTargetView::Group(name))) == Ok::<
            ShareTargetView,
            Seq<char>,
        >(ShareTargetView::Group(name)),
{
    reveal_strlit("group:");
    reveal_strlit("group");
    reveal_strlit("user");
    let text = "group:"@ + name;
    let before = "group"@;
    assert(text =~= before + seq![':'] + name);
    assert(!before.contains(':')) by {
        if before.contains(':') {
            let i = choose|i: int| 0 <= i < before.len() && before[i] == ':';
            assert(before[i] == ':');
        }
    }
    lemma_first_colon(text, before, name);
}

impl ShareTarget {
    /// Reads whom a text names.
    pub fn parse(s: &str) -> (r: Result<ShareTarget, ShareTargetError>)
        ensures
            match r {
                Ok(target) => parse_share_target(s@) == Ok::<ShareTargetView, Seq<char>>(target@),
                Err(ShareTargetError::InvalidPrefix(prefix)) => parse_share_target(s@) == Err::<
                    ShareTargetView,
                    Seq<char>,
                >(prefix@),
            },
    {
        match str_split_once(s, ':') {
            Some((prefix, name)) => {
                proof {
                    lemma_first_colon(s@, prefix@, name@);
                }
                if prefix == String::from_str("group") {
                    Ok(ShareTarget::Group(Group::new(name)))
                } else if prefix == String::from_str("user") {
                    Ok(ShareTarget::User(Username::new(name)))
                } else {
                    Err(ShareTargetError::InvalidPrefix(prefix))
                }
            },
            None => {
                proof {
                    s@.index_of_first_ensures(':');
                }
                Ok(ShareTarget::User(Username::new(String::from_str(s))))
            },
        }
    }

    /// Writes the share target: a user as its name, a group as `group:` and
    /// its name.
    pub fn to_string(&self) -> (text: String)
        ensures
            text@ == share_target_text(self@),
    {
        match self {
            ShareTarget::User(username) => String::from_str(username.as_str()),
            ShareTarget::Group(group) => String::from_str("group:").concat(group.as_str()),
        }
    }
}

} // verus!
