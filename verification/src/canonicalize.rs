//! Merging what a user gave into one manifest, and checking that it is
//! complete.
use crate::plugin_spec::{PluginSpec, PluginSpecView};
use crate::spec::{ComputeResource, GivenGlobal, GivenManifest, GivenUserDetails};
use crate::spec::{Global, Manifest, PluginConfig, UserCredentials, UserDetails};
use crate::types::{ComputeResourceName, CubeUrl, Username};
use vstd::prelude::*;
use vstd::string::StringExecFns;

verus! {

/// Error merging [`GivenManifest`] into [`Manifest`].
#[derive(Debug, PartialEq, Eq)]
pub enum ManifestError {
    /// Values that are required were not given.
    Missing(Vec<String>),
    /// Username specified more than once.
    DuplicateUser(Username),
    /// A value was given twice.
    DuplicateValue { key: String, a: String, b: String },
    /// A plugin was listed twice.
    DuplicatePlugin(PluginSpec),
    /// Multiple definitions for one name.
    RepeatedValue { key: String, value: String },
}

/// What a [`ManifestError`] says.
pub enum ManifestErrorView {
    Missing(Seq<Seq<char>>),
    DuplicateUser(Seq<char>),
    DuplicateValue { key: Seq<char>, a: Seq<char>, b: Seq<char> },
    DuplicatePlugin(PluginSpecView),
    RepeatedValue { key: Seq<char>, value: Seq<char> },
}

impl View for ManifestError {
    type V = ManifestErrorView;

    open spec fn view(&self) -> ManifestErrorView {
        match self {
            ManifestError::Missing(keys) => ManifestErrorView::Missing(crate::spec::texts(keys@)),
            ManifestError::DuplicateUser(u) => ManifestErrorView::DuplicateUser(u@),
            ManifestError::DuplicateValue { key, a, b } => ManifestErrorView::DuplicateValue {
                key: key@,
                a: a@,
                b: b@,
            },
            ManifestError::DuplicatePlugin(p) => ManifestErrorView::DuplicatePlugin(p@),
            ManifestError::RepeatedValue { key, value } => ManifestErrorView::RepeatedValue {
                key: key@,
                value: value@,
            },
        }
    }
}

/// Something that is known by a name.
pub trait Name {
    /// The name.
    spec fn text(&self) -> Seq<char>;

    /// Whether two things have the same name.
    fn same_name(&self, other: &Self) -> (b: bool)
        ensures
            b == (self.text() == other.text()),
    ;

    /// The name, as a `String`.
    fn to_text(&self) -> (s: String)
        ensures
            s@ == self.text(),
    ;
}

impl Name for Username {
    open spec fn text(&self) -> Seq<char> {
        self@
    }

    fn same_name(&self, other: &Self) -> (b: bool) {
        self.same(other)
    }

    fn to_text(&self) -> (s: String) {
        String::from_str(self.as_str())
    }
}

impl Name for ComputeResourceName {
    open spec fn text(&self) -> Seq<char> {
        self@
    }

    fn same_name(&self, other: &Self) -> (b: bool) {
        self.same(other)
    }

    fn to_text(&self) -> (s: String) {
        String::from_str(self.as_str())
    }
}

impl Name for CubeUrl {
    open spec fn text(&self) -> Seq<char> {
        self@
    }

    fn same_name(&self, other: &Self) -> (b: bool) {
        self.same(other)
    }

    fn to_text(&self) -> (s: String) {
        String::from_str(self.as_str())
    }
}

impl Name for String {
    open spec fn text(&self) -> Seq<char> {
        self@
    }

    fn same_name(&self, other: &Self) -> (b: bool) {
        *self == *other
    }

    fn to_text(&self) -> (s: String) {
        self.clone()
    }
}

/// Return the value of `a` or `b`, but produce an error if both are [`Some`].
pub fn none_xor<T: Name>(a: Option<T>, b: Option<T>, key: &str) -> (r: Result<
    Option<T>,
    ManifestError,
>)
    ensures
        match (a, b) {
            (Some(x), Some(y)) => r matches Err(e) && e@ == (ManifestErrorView::DuplicateValue {
                key: key@,
                a: x.text(),
                b: y.text(),
            }),
            (Some(x), None) => r == Ok::<Option<T>, ManifestError>(Some(x)),
            (None, y) => r == Ok::<Option<T>, ManifestError>(y),
        },
{
    match a {
        Some(a) => match b {
            Some(b) => Err(
                ManifestError::DuplicateValue {
                    key: String::from_str(key),
                    a: a.to_text(),
                    b: b.to_text(),
                },
            ),
            None => Ok(Some(a)),
        },
        None => Ok(b),
    }
}

/// The credentials of `a` or of `b`, but an error if both are given.
pub fn merge_credentials(a: Option<UserCredentials>, b: Option<UserCredentials>) -> (r: Result<
    Option<UserCredentials>,
    ManifestError,
>)
    ensures
        match (a, b) {
            (Some(x), Some(y)) => r matches Err(e) && e@ == (ManifestErrorView::DuplicateValue {
                key: "global.admin"@,
                a: x.username@,
                b: y.username@,
            }),
            (Some(x), None) => r == Ok::<Option<UserCredentials>, ManifestError>(Some(x)),
            (None, y) => r == Ok::<Option<UserCredentials>, ManifestError>(y),
        },
{
    match a {
        Some(a) => match b {
            Some(b) => Err(
                ManifestError::DuplicateValue {
                    key: String::from_str("global.admin"),
                    a: a.username.into_inner(),
                    b: b.username.into_inner(),
                },
            ),
            None => Ok(Some(a)),
        },
        None => Ok(b),
    }
}

/// The first of the four settings that both `a` and `b` give, if there is
/// one: its key, and the two values.
pub open spec fn global_clash(a: GivenGlobal, b: GivenGlobal) -> Option<ManifestErrorView> {
    if a.cube is Some && b.cube is Some {
        Some(
            ManifestErrorView::DuplicateValue {
                key: "global.cube"@,
                a: a.cube.unwrap()@,
                b: b.cube.unwrap()@,
            },
        )
    } else if a.admin is Some && b.admin is Some {
        Some(
            ManifestErrorView::DuplicateValue {
                key: "global.admin"@,
                a: a.admin.unwrap().username@,
                b: b.admin.unwrap().username@,
            },
        )
    } else if a.email_domain is Some && b.email_domain is Some {
        Some(
            ManifestErrorView::DuplicateValue {
                key: "global.email_domain"@,
                a: a.email_domain.unwrap()@,
                b: b.email_domain.unwrap()@,
            },
        )
    } else if a.peer is Some && b.peer is Some {
        Some(
            ManifestErrorView::DuplicateValue {
                key: "global.public_cube"@,
                a: a.peer.unwrap()@,
                b: b.peer.unwrap()@,
            },
        )
    } else {
        None
    }
}

/// Of two optional values of which at most one is given, the one that is.
pub open spec fn either<T>(a: Option<T>, b: Option<T>) -> Option<T> {
    if a is Some {
        a
    } else {
        b
    }
}

/// Merges two global configurations: each setting is taken from the one that
/// gives it; a setting that both give is an error.
pub fn merge_global(a: GivenGlobal, b: GivenGlobal) -> (r: Result<GivenGlobal, ManifestError>)
    ensures
        match r {
            Ok(g) => global_clash(a, b) is None && g.cube == either(a.cube, b.cube) && g.admin
                == either(a.admin, b.admin) && g.email_domain == either(
                a.email_domain,
                b.email_domain,
            ) && g.peer == either(a.peer, b.peer),
            Err(e) => global_clash(a, b) == Some(e@),
        },
{
    let cube = match none_xor(a.cube, b.cube, "global.cube") {
        Ok(v) => v,
        Err(e) => {
            return Err(e);
        },
    };
    let admin = match merge_credentials(a.admin, b.admin) {
        Ok(v) => v,
        Err(e) => {
            return Err(e);
        },
    };
    let email_domain = match none_xor(a.email_domain, b.email_domain, "global.email_domain") {
        Ok(v) => v,
        Err(e) => {
            return Err(e);
        },
    };
    let peer = match none_xor(a.peer, b.peer, "global.public_cube") {
        Ok(v) => v,
        Err(e) => {
            return Err(e);
        },
    };
    Ok(GivenGlobal { cube, admin, email_domain, peer })
}

/// One of the entries carries the name.
pub open spec fn has_name<K: Name, V>(entries: Seq<(K, V)>, name: Seq<char>) -> bool {
    exists|i: int| 0 <= i < entries.len() && (#[trigger] entries[i]).0.text() == name
}

/// The place of the first among the first `n` entries of `b` whose name is
/// that of an entry of `a` or of an earlier entry of `b`, if there is one.
pub open spec fn first_repeat<K: Name, V>(a: Seq<(K, V)>, b: Seq<(K, V)>, n: int) -> Option<int>
    decreases n,
{
    if n <= 0 {
        None
    } else {
        match first_repeat(a, b, n - 1) {
            Some(i) => Some(i),
            None => if has_name(a + b.take(n - 1), b[n - 1].0.text()) {
                Some(n - 1)
            } else {
                None
            },
        }
    }
}

/// A repeat that shows among the first entries stays the first repeat.
pub proof fn lemma_first_repeat_stays<K: Name, V>(a: Seq<(K, V)>, b: Seq<(K, V)>, k: int, n: int)
    requires
        0 <= k <= n,
        first_repeat(a, b, k) is Some,
    ensures
        first_repeat(a, b, n) == first_repeat(a, b, k),
    decreases n - k,
{
    if k < n {
        lemma_first_repeat_stays(a, b, k, n - 1);
    }
}

/// No name stands twice among the entries.
pub open spec fn distinct_names<K: Name, V>(entries: Seq<(K, V)>) -> bool {
    forall|i: int, j: int|
        0 <= i < j < entries.len() ==> (#[trigger] entries[i]).0.text() != (
        #[trigger] entries[j]).0.text()
}

/// Entries that follow nothing hold no repeat exactly when no name stands
/// twice among them.
pub proof fn lemma_no_repeat_is_distinct<K: Name, V>(b: Seq<(K, V)>, n: int)
    requires
        0 <= n <= b.len(),
    ensures
        first_repeat(Seq::<(K, V)>::empty(), b, n) is None <==> distinct_names(b.take(n)),
    decreases n,
{
    if n > 0 {
        lemma_no_repeat_is_distinct(b, n - 1);
        let none = Seq::<(K, V)>::empty();
        let front = none + b.take(n - 1);
        let name = b[n - 1].0.text();
        assert(front =~= b.take(n - 1));
        if first_repeat(none, b, n) is None {
            assert forall|i: int, j: int| 0 <= i < j < n implies (#[trigger] b.take(n)[i]).0.text()
                != (#[trigger] b.take(n)[j]).0.text() by {
                if j < n - 1 {
                    assert(b.take(n - 1)[i].0.text() != b.take(n - 1)[j].0.text());
                } else {
                    assert(front[i].0.text() != name);
                }
            }
        } else if first_repeat(none, b, n - 1) is Some {
            let (i, j) = choose|i: int, j: int|
                0 <= i < j < n - 1 && (#[trigger] b.take(n - 1)[i]).0.text() == (
                #[trigger] b.take(n - 1)[j]).0.text();
            assert(b.take(n)[i].0.text() == b.take(n)[j].0.text());
        } else {
            let i = choose|i: int| 0 <= i < front.len() && (#[trigger] front[i]).0.text() == name;
            assert(b.take(n)[i].0.text() == b.take(n)[n - 1].0.text());
        }
    }
}

/// Returns `true` if no name stands twice among the entries.
pub fn names_distinct<K: Name, V>(entries: &Vec<(K, V)>) -> (b: bool)
    ensures
        b == distinct_names(entries@),
{
    let mut j: usize = 0;
    while j < entries.len()
        invariant
            j <= entries@.len(),
            forall|x: int, y: int|
                0 <= x < y < j ==> (#[trigger] entries@[x]).0.text() != (
                #[trigger] entries@[y]).0.text(),
        decreases entries@.len() - j,
    {
        let mut i: usize = 0;
        while i < j
            invariant
                i <= j,
                j < entries@.len(),
                forall|x: int|
                    0 <= x < i ==> (#[trigger] entries@[x]).0.text() != entries@[j as int].0.text(),
            decreases j - i,
        {
            if entries[i].0.same_name(&entries[j].0) {
                return false;
            }
            i += 1;
        }
        j += 1;
    }
    true
}

/// Returns `true` if the manifest is well-formed: no two of its users carry
/// one name, and no two of its compute resources.
pub fn is_well_formed(manifest: &Manifest) -> (b: bool)
    ensures
        b == manifest.wf(),
{
    names_distinct(&manifest.user) && names_distinct(&manifest.compute_resource)
}

/// Returns `true` if one of the entries carries the name of `key`.
fn contains_name<K: Name, V>(entries: &Vec<(K, V)>, key: &K) -> (b: bool)
    ensures
        b == has_name(entries@, key.text()),
{
    let mut i: usize = 0;
    while i < entries.len()
        invariant
            i <= entries@.len(),
            forall|j: int| 0 <= j < i ==> (#[trigger] entries@[j]).0.text() != key.text(),
        decreases entries@.len() - i,
    {
        if entries[i].0.same_name(key) {
            return true;
        }
        i += 1;
    }
    false
}

/// The items of a list, the last one first.
fn reversed<T>(list: Vec<T>) -> (r: Vec<T>)
    ensures
        r@.len() == list@.len(),
        forall|i: int| 0 <= i < r@.len() ==> r@[i] == list@[list@.len() - 1 - i],
{
    let ghost n = list@.len() as int;
    let mut rest = list;
    let mut r: Vec<T> = Vec::new();
    while rest.len() > 0
        invariant
            n == list@.len(),
            rest@.len() + r@.len() == n,
            rest@ == list@.take(rest@.len() as int),
            forall|i: int| 0 <= i < r@.len() ==> r@[i] == list@[n - 1 - i],
        decreases rest@.len(),
    {
        let item = rest.pop().unwrap();
        r.push(item);
        assert(rest@ =~= list@.take(rest@.len() as int));
    }
    r
}

/// Puts the entries of `b` after those of `a`, up to the first entry whose
/// name is taken already: it is handed back as the error's value.
fn merge_entries<K: Name, V>(a: Vec<(K, V)>, b: Vec<(K, V)>) -> (r: Result<Vec<(K, V)>, K>)
    ensures
        match r {
            Ok(merged) => first_repeat(a@, b@, b@.len() as int) is None && merged@ == a@ + b@,
            Err(k) => first_repeat(a@, b@, b@.len() as int) matches Some(i) && k == b@[i].0,
        },
{
    let ghost n = b@.len() as int;
    let mut merged = a;
    let mut stack = reversed(b);
    while stack.len() > 0
        invariant
            n == b@.len(),
            stack@.len() <= n,
            forall|i: int| 0 <= i < stack@.len() ==> stack@[i] == b@[n - 1 - i],
            first_repeat(a@, b@, n - stack@.len()) is None,
            merged@ == a@ + b@.take(n - stack@.len()),
        decreases stack@.len(),
    {
        let ghost done = n - stack@.len();
        let (k, v) = stack.pop().unwrap();
        proof {
            assert((k, v) == b@[done]);
            assert(b@.take(done + 1) =~= b@.take(done).push(b@[done]));
        }
        if contains_name(&merged, &k) {
            proof {
                assert(first_repeat(a@, b@, done + 1) == Some(done));
                lemma_first_repeat_stays(a@, b@, done + 1, n);
            }
            return Err(k);
        }
        merged.push((k, v));
        proof {
            assert(merged@ =~= a@ + b@.take(done + 1));
        }
    }
    proof {
        assert(b@.take(n) =~= b@);
    }
    Ok(merged)
}

/// Merges two maps from names; a name that both hold is an error.
pub fn merge_maps<K: Name, V>(a: Vec<(K, V)>, b: Vec<(K, V)>, key: &str) -> (r: Result<
    Vec<(K, V)>,
    ManifestError,
>)
    ensures
        match r {
            Ok(merged) => first_repeat(a@, b@, b@.len() as int) is None && merged@ == a@ + b@,
            Err(e) => first_repeat(a@, b@, b@.len() as int) matches Some(i) && e@ == (
            ManifestErrorView::RepeatedValue { key: key@, value: b@[i].0.text() }),
        },
{
    match merge_entries(a, b) {
        Ok(merged) => Ok(merged),
        Err(k) => Err(
            ManifestError::RepeatedValue { key: String::from_str(key), value: k.to_text() },
        ),
    }
}

/// Merges the users of two manifests; a username that both hold is an error.
pub fn merge_users<T>(a: Vec<(Username, T)>, b: Vec<(Username, T)>) -> (r: Result<
    Vec<(Username, T)>,
    ManifestError,
>)
    ensures
        match r {
            Ok(merged) => first_repeat(a@, b@, b@.len() as int) is None && merged@ == a@ + b@,
            Err(e) => first_repeat(a@, b@, b@.len() as int) matches Some(i) && e@
                == ManifestErrorView::DuplicateUser(b@[i].0@),
        },
{
    match merge_entries(a, b) {
        Ok(merged) => Ok(merged),
        Err(username) => Err(ManifestError::DuplicateUser(username)),
    }
}

/// What goes wrong when two manifests are merged, if anything does: a clash
/// of global settings first, then a repeated username, then a repeated
/// compute resource.
pub open spec fn merge_clash(a: GivenManifest, b: GivenManifest) -> Option<ManifestErrorView> {
    let user = first_repeat(a.user@, b.user@, b.user@.len() as int);
    let resource = first_repeat(
        a.compute_resource@,
        b.compute_resource@,
        b.compute_resource@.len() as int,
    );
    if global_clash(a.global, b.global) is Some {
        global_clash(a.global, b.global)
    } else if user is Some {
        Some(ManifestErrorView::DuplicateUser(b.user@[user.unwrap()].0@))
    } else if resource is Some {
        Some(
            ManifestErrorView::RepeatedValue {
                key: "compute_resource"@,
                value: b.compute_resource@[resource.unwrap()].0@,
            },
        )
    } else {
        None
    }
}

/// `m` is what merging `a` and `b` gives: every global setting from the one
/// that gives it, the users, compute resources and plugins of `a` followed
/// by those of `b`.
pub open spec fn is_merge(a: GivenManifest, b: GivenManifest, m: GivenManifest) -> bool {
    &&& m.global.cube == either(a.global.cube, b.global.cube)
    &&& m.global.admin == either(a.global.admin, b.global.admin)
    &&& m.global.email_domain == either(a.global.email_domain, b.global.email_domain)
    &&& m.global.peer == either(a.global.peer, b.global.peer)
    &&& m.user@ == a.user@ + b.user@
    &&& m.compute_resource@ == a.compute_resource@ + b.compute_resource@
    &&& m.plugins@ == a.plugins@ + b.plugins@
}

/// Merges two manifests.
pub fn merge(a: GivenManifest, b: GivenManifest) -> (r: Result<GivenManifest, ManifestError>)
    ensures
        match r {
            Ok(m) => merge_clash(a, b) is None && is_merge(a, b, m),
            Err(e) => merge_clash(a, b) == Some(e@),
        },
{
    let mut plugins = a.plugins;
    let mut b_plugins = b.plugins;
    plugins.append(&mut b_plugins);
    let global = match merge_global(a.global, b.global) {
        Ok(v) => v,
        Err(e) => {
            return Err(e);
        },
    };
    let user = match merge_users(a.user, b.user) {
        Ok(v) => v,
        Err(e) => {
            return Err(e);
        },
    };
    let compute_resource = match merge_maps(
        a.compute_resource,
        b.compute_resource,
        "compute_resource",
    ) {
        Ok(v) => v,
        Err(e) => {
            return Err(e);
        },
    };
    Ok(GivenManifest { global, user, compute_resource, plugins })
}

/// The manifest gives nothing.
pub open spec fn is_empty_manifest(m: GivenManifest) -> bool {
    &&& m.global.cube is None
    &&& m.global.admin is None
    &&& m.global.email_domain is None
    &&& m.global.peer is None
    &&& m.user@.len() == 0
    &&& m.compute_resource@.len() == 0
    &&& m.plugins@.len() == 0
}

/// `r` is what merging one more manifest into `front` gives: an error stays,
/// and a manifest is merged with the next one.
pub open spec fn is_next(
    front: Result<GivenManifest, ManifestErrorView>,
    next: GivenManifest,
    r: Result<GivenManifest, ManifestErrorView>,
) -> bool {
    match front {
        Err(e) => r == Err::<GivenManifest, ManifestErrorView>(e),
        Ok(acc) => match r {
            Ok(m) => merge_clash(acc, next) is None && is_merge(acc, next, m),
            Err(e) => merge_clash(acc, next) == Some(e),
        },
    }
}

/// `r` is what merging the manifests one after the other gives, starting
/// from a manifest that gives nothing: the first error ends it.
pub open spec fn is_reduction(
    values: Seq<GivenManifest>,
    r: Result<GivenManifest, ManifestErrorView>,
) -> bool
    decreases values.len(),
{
    if values.len() == 0 {
        r matches Ok(m) && is_empty_manifest(m)
    } else {
        exists|front: Result<GivenManifest, ManifestErrorView>|
            #![trigger is_next(front, values.last(), r)]
            is_reduction(values.drop_last(), front) && is_next(front, values.last(), r)
    }
}

/// What a result says, with the error as its view.
pub open spec fn result_view(r: Result<GivenManifest, ManifestError>) -> Result<
    GivenManifest,
    ManifestErrorView,
> {
    match r {
        Ok(m) => Ok(m),
        Err(e) => Err(e@),
    }
}

/// Merge multiple [`GivenManifest`] into one.
pub fn reduce(values: Vec<GivenManifest>) -> (r: Result<GivenManifest, ManifestError>)
    ensures
        is_reduction(values@, result_view(r)),
{
    let ghost all = values@;
    let ghost n = all.len() as int;
    let mut stack = reversed(values);
    let mut acc = GivenManifest::default();
    while stack.len() > 0
        invariant
            all == values@,
            n == all.len(),
            stack@.len() <= n,
            forall|i: int| 0 <= i < stack@.len() ==> stack@[i] == all[n - 1 - i],
            is_reduction(all.take(n - stack@.len()), Ok(acc)),
        decreases stack@.len(),
    {
        let ghost done = n - stack@.len();
        let ghost front = acc;
        let next = stack.pop().unwrap();
        proof {
            assert(next == all[done]);
            assert(all.take(done + 1).drop_last() =~= all.take(done));
            assert(all.take(done + 1).last() == all[done]);
        }
        match merge(acc, next) {
            Ok(m) => {
                acc = m;
                proof {
                    let witness = Ok::<GivenManifest, ManifestErrorView>(front);
                    let s = all.take(done + 1);
                    assert(s.len() == done + 1);
                    assert(is_reduction(s.drop_last(), witness));
                    assert(is_next(witness, s.last(), Ok(acc)));
                    assert(is_reduction(s, Ok(acc)));
                }
            },
            Err(e) => {
                proof {
                    let witness = Ok::<GivenManifest, ManifestErrorView>(front);
                    let s = all.take(done + 1);
                    assert(s.len() == done + 1);
                    assert(is_reduction(s.drop_last(), witness));
                    assert(is_next(witness, s.last(), Err(e@)));
                    assert(is_reduction(s, Err(e@)));
                    lemma_reduction_error(all, done + 1, e@);
                }
                return Err(e);
            },
        }
    }
    proof {
        assert(all.take(n) =~= all);
    }
    Ok(acc)
}

/// Once merging the first manifests fails, merging all of them fails alike.
proof fn lemma_reduction_error(all: Seq<GivenManifest>, k: int, e: ManifestErrorView)
    requires
        0 <= k <= all.len(),
        is_reduction(all.take(k), Err(e)),
    ensures
        is_reduction(all, Err(e)),
    decreases all.len() - k,
{
    if k == all.len() {
        assert(all.take(k) =~= all);
    } else {
        let next = all.take(k + 1);
        assert(next.len() == k + 1);
        assert(next.drop_last() =~= all.take(k));
        let witness = Err::<GivenManifest, ManifestErrorView>(e);
        assert(is_reduction(next.drop_last(), witness));
        assert(is_next(witness, next.last(), Err(e)));
        assert(is_reduction(next, Err(e)));
        lemma_reduction_error(all, k + 1, e);
    }
}

/// The place of the first among the first `n` plugins that an earlier one
/// equals in name and version, if there is one.
pub open spec fn first_duplicate(plugins: Seq<PluginConfig>, n: int) -> Option<int>
    decreases n,
{
    if n <= 0 {
        None
    } else {
        match first_duplicate(plugins, n - 1) {
            Some(i) => Some(i),
            None => if exists|j: int|
                0 <= j < n - 1 && plugin_of((#[trigger] plugins[j])@) == plugin_of(plugins[n - 1]@) {
                Some(n - 1)
            } else {
                None
            },
        }
    }
}

/// The plugin that a configuration names.
pub open spec fn plugin_of(config: crate::spec::PluginConfigView) -> PluginSpecView {
    PluginSpecView { name: config.name, version: config.version }
}

/// A duplicate that shows among the first plugins stays the first duplicate.
pub proof fn lemma_first_duplicate_stays(plugins: Seq<PluginConfig>, k: int, n: int)
    requires
        0 <= k <= n,
        first_duplicate(plugins, k) is Some,
    ensures
        first_duplicate(plugins, n) == first_duplicate(plugins, k),
    decreases n - k,
{
    if k < n {
        lemma_first_duplicate_stays(plugins, k, n - 1);
    }
}

/// The plugin that a configuration names.
fn plugin_spec_of(config: &PluginConfig) -> (plugin: PluginSpec)
    ensures
        plugin@ == plugin_of(config@),
{
    PluginSpec {
        name: config.name.clone(),
        version: match &config.version {
            Some(v) => Some(v.clone()),
            None => None,
        },
    }
}

/// Checks that no plugin is listed twice: the error names the first plugin
/// that an earlier one equals in name and version.
pub fn validate_no_duplicate_plugins(plugins: &Vec<PluginConfig>) -> (r: Result<(), ManifestError>)
    ensures
        match r {
            Ok(_) => first_duplicate(plugins@, plugins@.len() as int) is None,
            Err(e) => first_duplicate(plugins@, plugins@.len() as int) matches Some(i) && e@
                == ManifestErrorView::DuplicatePlugin(plugin_of(plugins@[i]@)),
        },
{
    let mut seen: Vec<PluginSpec> = Vec::new();
    let mut i: usize = 0;
    while i < plugins.len()
        invariant
            i <= plugins@.len(),
            seen@.len() == i,
            forall|j: int| 0 <= j < i ==> (#[trigger] seen@[j])@ == plugin_of(plugins@[j]@),
            first_duplicate(plugins@, i as int) is None,
        decreases plugins@.len() - i,
    {
        let plugin = plugin_spec_of(&plugins[i]);
        let mut j: usize = 0;
        let mut found = false;
        while j < seen.len()
            invariant
                j <= seen@.len(),
                seen@.len() == i,
                i < plugins@.len(),
                plugin@ == plugin_of(plugins@[i as int]@),
                forall|x: int| 0 <= x < i ==> (#[trigger] seen@[x])@ == plugin_of(plugins@[x]@),
                found <==> exists|x: int|
                    0 <= x < j && plugin_of((#[trigger] plugins@[x])@) == plugin_of(
                        plugins@[i as int]@,
                    ),
            decreases seen@.len() - j,
        {
            if seen[j].same(&plugin) {
                found = true;
                assert(seen@[j as int]@ == plugin_of(plugins@[j as int]@));
            }
            proof {
                if !found {
                    assert forall|x: int| 0 <= x < j + 1 implies plugin_of(
                        (#[trigger] plugins@[x])@,
                    ) != plugin_of(plugins@[i as int]@) by {
                        if x == j {
                            assert(seen@[j as int]@ == plugin_of(plugins@[j as int]@));
                        }
                    }
                }
            }
            j += 1;
        }
        if found {
            proof {
                assert(first_duplicate(plugins@, i + 1) == Some(i as int));
                lemma_first_duplicate_stays(plugins@, i + 1, plugins@.len() as int);
            }
            return Err(ManifestError::DuplicatePlugin(plugin));
        }
        seen.push(plugin);
        i += 1;
    }
    Ok(())
}

/// The address `{username}@{domain}`.
pub open spec fn default_email(username: Seq<char>, domain: Seq<char>) -> Seq<char> {
    username + "@"@ + domain
}

/// The global configuration is complete: the URL of the backend is given.
/// The domain for email addresses is `example.org` unless another is given.
pub fn global_try_from(value: GivenGlobal) -> (r: Result<Global, ManifestError>)
    ensures
        match r {
            Ok(global) => value.cube == Some(global.cube) && global.admin == value.admin
                && global.peer == value.peer && global.email_domain@ == (match value.email_domain {
                Some(domain) => domain@,
                None => "example.org"@,
            }),
            Err(e) => value.cube is None && e@ == ManifestErrorView::Missing(seq!["global.cube"@]),
        },
{
    let cube = match value.cube {
        Some(cube) => cube,
        None => {
            let keys = vec![String::from_str("global.cube")];
            assert(crate::spec::texts(keys@) =~= seq!["global.cube"@]);
            return Err(ManifestError::Missing(keys));
        },
    };
    let email_domain = match value.email_domain {
        Some(domain) => domain,
        None => String::from_str("example.org"),
    };
    Ok(Global { cube, admin: value.admin, email_domain, peer: value.peer })
}

/// `details` are what is given, with the email address `{username}@{domain}`
/// where none is given.
pub open spec fn is_completed(
    username: Seq<char>,
    domain: Seq<char>,
    given: GivenUserDetails,
    details: UserDetails,
) -> bool {
    &&& details.password == given.password
    &&& details.groups == given.groups
    &&& details.email@ == (match given.email {
        Some(email) => email@,
        None => default_email(username, domain),
    })
}

/// Completes the details of every user.
fn complete_users(users: Vec<(Username, GivenUserDetails)>, domain: &String) -> (r: Vec<
    (Username, UserDetails),
>)
    ensures
        r@.len() == users@.len(),
        forall|i: int|
            0 <= i < r@.len() ==> (#[trigger] r@[i]).0 == users@[i].0 && is_completed(
                users@[i].0@,
                domain@,
                users@[i].1,
                r@[i].1,
            ),
{
    let ghost n = users@.len() as int;
    let mut stack = reversed(users);
    let mut r: Vec<(Username, UserDetails)> = Vec::new();
    while stack.len() > 0
        invariant
            n == users@.len(),
            stack@.len() + r@.len() == n,
            forall|i: int| 0 <= i < stack@.len() ==> stack@[i] == users@[n - 1 - i],
            forall|i: int|
                0 <= i < r@.len() ==> (#[trigger] r@[i]).0 == users@[i].0 && is_completed(
                    users@[i].0@,
                    domain@,
                    users@[i].1,
                    r@[i].1,
                ),
        decreases stack@.len(),
    {
        let ghost at = r@.len() as int;
        let (username, given) = stack.pop().unwrap();
        assert((username, given) == users@[at]);
        let email = match given.email {
            Some(email) => email,
            None => String::from_str(username.as_str()).concat("@").concat(domain.as_str()),
        };
        let details = UserDetails { password: given.password, email, groups: given.groups };
        r.push((username, details));
    }
    r
}

/// Why what was given is no manifest, if it is none: the URL of the backend
/// is missing; or else a username stands twice; or else the name of a compute
/// resource; or else a plugin is listed twice.
pub open spec fn manifest_fault(given: GivenManifest) -> Option<ManifestErrorView> {
    let user = first_repeat(
        Seq::<(Username, GivenUserDetails)>::empty(),
        given.user@,
        given.user@.len() as int,
    );
    let resource = first_repeat(
        Seq::<(ComputeResourceName, ComputeResource)>::empty(),
        given.compute_resource@,
        given.compute_resource@.len() as int,
    );
    let plugin = first_duplicate(given.plugins@, given.plugins@.len() as int);
    if given.global.cube is None {
        Some(ManifestErrorView::Missing(seq!["global.cube"@]))
    } else if user is Some {
        Some(ManifestErrorView::DuplicateUser(given.user@[user.unwrap()].0@))
    } else if resource is Some {
        Some(
            ManifestErrorView::RepeatedValue {
                key: "compute_resource"@,
                value: given.compute_resource@[resource.unwrap()].0@,
            },
        )
    } else if plugin is Some {
        Some(ManifestErrorView::DuplicatePlugin(plugin_of(given.plugins@[plugin.unwrap()]@)))
    } else {
        None
    }
}

/// `m` is the manifest that `given` stands for.
pub open spec fn is_manifest_of(given: GivenManifest, m: Manifest) -> bool {
    &&& given.global.cube == Some(m.global.cube)
    &&& m.global.admin == given.global.admin
    &&& m.global.peer == given.global.peer
    &&& m.global.email_domain@ == (match given.global.email_domain {
        Some(domain) => domain@,
        None => "example.org"@,
    })
    &&& m.user@.len() == given.user@.len()
    &&& forall|i: int|
        0 <= i < m.user@.len() ==> (#[trigger] m.user@[i]).0 == given.user@[i].0 && is_completed(
            given.user@[i].0@,
            m.global.email_domain@,
            given.user@[i].1,
            m.user@[i].1,
        )
    &&& m.compute_resource@ == given.compute_resource@
    &&& m.plugins == given.plugins
}

/// Checks that what was given is a manifest, and completes it.
///
/// The URL of the backend must be given; no username and no name of a compute
/// resource may stand twice, and no plugin may be listed twice. A user
/// without an email address gets `{username}@{domain}`.
pub fn manifest_try_from(value: GivenManifest) -> (r: Result<Manifest, ManifestError>)
    ensures
        match r {
            Ok(m) => manifest_fault(value) is None && is_manifest_of(value, m) && m.wf(),
            Err(e) => manifest_fault(value) == Some(e@),
        },
{
    let global = match global_try_from(value.global) {
        Ok(global) => global,
        Err(e) => {
            return Err(e);
        },
    };
    let given_user = match merge_users(Vec::new(), value.user) {
        Ok(user) => user,
        Err(e) => {
            return Err(e);
        },
    };
    let compute_resource = match merge_maps(Vec::new(), value.compute_resource, "compute_resource") {
        Ok(compute_resource) => compute_resource,
        Err(e) => {
            return Err(e);
        },
    };
    proof {
        assert(given_user@ =~= value.user@);
        assert(compute_resource@ =~= value.compute_resource@);
        lemma_no_repeat_is_distinct(value.user@, value.user@.len() as int);
        lemma_no_repeat_is_distinct(value.compute_resource@, value.compute_resource@.len() as int);
        assert(value.user@.take(value.user@.len() as int) =~= value.user@);
        assert(value.compute_resource@.take(value.compute_resource@.len() as int)
            =~= value.compute_resource@);
    }
    let user = complete_users(given_user, &global.email_domain);
    match validate_no_duplicate_plugins(&value.plugins) {
        Ok(_) => {},
        Err(e) => {
            return Err(e);
        },
    }
    let manifest = Manifest { global, user, compute_resource, plugins: value.plugins };
    proof {
        assert forall|i: int, j: int| 0 <= i < j < manifest.user@.len() implies (
        #[trigger] manifest.user@[i]).0@ != (#[trigger] manifest.user@[j]).0@ by {
            assert(value.user@[i].0.text() != value.user@[j].0.text());
        }
        assert forall|i: int, j: int| 0 <= i < j < manifest.compute_resource@.len() implies (
        #[trigger] manifest.compute_resource@[i]).0@ != (
        #[trigger] manifest.compute_resource@[j]).0@ by {
            assert(value.compute_resource@[i].0.text() != value.compute_resource@[j].0.text());
        }
    }
    Ok(manifest)
}

impl TryFrom<GivenGlobal> for Global {
    type Error = ManifestError;

    /// The global configuration is complete: the URL of the backend is given.
    /// The domain for email addresses is `example.org` unless another is given.
    fn try_from(value: GivenGlobal) -> (r: Result<Self, Self::Error>)
        ensures
            match r {
                Ok(global) => value.cube == Some(global.cube) && global.admin == value.admin
                    && global.peer == value.peer && global.email_domain@ == (
                match value.email_domain {
                    Some(domain) => domain@,
                    None => "example.org"@,
                }),
                Err(e) => value.cube is None && e@ == ManifestErrorView::Missing(
                    seq!["global.cube"@],
                ),
            },
    {
        global_try_from(value)
    }
}

impl vstd::std_specs::convert::TryFromSpecImpl<GivenGlobal> for Global {
    open spec fn obeys_try_from_spec() -> bool {
        false
    }

    open spec fn try_from_spec(v: GivenGlobal) -> Result<Self, ManifestError> {
        arbitrary()
    }
}

impl TryFrom<GivenManifest> for Manifest {
    type Error = ManifestError;

    /// Checks that what was given is a manifest, and completes it.
    ///
    /// The URL of the backend must be given; no username and no name of a
    /// compute resource may stand twice, and no plugin may be listed twice.
    /// A user without an email address gets `{username}@{domain}`.
    fn try_from(value: GivenManifest) -> (r: Result<Self, Self::Error>)
        ensures
            match r {
                Ok(m) => manifest_fault(value) is None && is_manifest_of(value, m) && m.wf(),
                Err(e) => manifest_fault(value) == Some(e@),
            },
    {
        manifest_try_from(value)
    }
}

impl vstd::std_specs::convert::TryFromSpecImpl<GivenManifest> for Manifest {
    open spec fn obeys_try_from_spec() -> bool {
        false
    }

    open spec fn try_from_spec(v: GivenManifest) -> Result<Self, ManifestError> {
        arbitrary()
    }
}

} // verus!
