//! How a manifest names a plugin.
use crate::text::str_split_once;
use vstd::prelude::*;
use vstd::string::StringExecFns;

verus! {

/// A specified _ChRIS_ plugin.
///
/// A plugin may be specified by either:
///
/// - `{name}`, e.g. `pl-dcm2niix` specifies to use any version
/// - `{name}@{version}`, e.g. `pl-dcm2niix@0.1.0` specifies to use v0.1.0
#[derive(Debug, PartialEq, Eq, Hash)]
pub struct PluginSpec {
    pub name: String,
    pub version: Option<String>,
}

/// What a [`PluginSpec`] says: a name and, where one is asked for, a version.
pub struct PluginSpecView {
    pub name: Seq<char>,
    pub version: Option<Seq<char>>,
}

impl View for PluginSpec {
    type V = PluginSpecView;

    open spec fn view(&self) -> PluginSpecView {
        PluginSpecView {
            name: self.name@,
            version: match self.version {
                Some(v) => Some(v@),
                None => None,
            },
        }
    }
}

/// The written form of a plugin specification: the name, then `@` and the
/// version where there is one.
pub open spec fn plugin_spec_text(p: PluginSpecView) -> Seq<char> {
    match p.version {
        Some(v) => p.name + seq!['@'] + v,
        None => p.name,
    }
}

/// The plugin specification that a text stands for: what is before the first
/// `@` is the name and what is after it the version; a text without `@` is a
/// name alone.
pub open spec fn parse_plugin_spec(s: Seq<char>) -> PluginSpecView {
    match s.index_of_first('@') {
        Some(i) => PluginSpecView {
            name: s.subrange(0, i),
            version: Some(s.subrange(i + 1, s.len() as int)),
        },
        None => PluginSpecView { name: s, version: None },
    }
}

/// Where a text is cut at an `@` that nothing before it equals, that `@` is
/// the first.
pub proof fn lemma_first_at(s: Seq<char>, before: Seq<char>, after: Seq<char>)
    requires
        s == before + seq!['@'] + after,
        !before.contains('@'),
    ensures
        s.index_of_first('@') == Some(before.len() as int),
        s.subrange(0, before.len() as int) == before,
        s.subrange(before.len() as int + 1, s.len() as int) == after,
{
    s.index_of_first_ensures('@');
    let at = before.len() as int;
    assert(s[at] == '@');
    assert(s.contains('@'));
    let i = s.index_of_first('@').unwrap();
    if i < at {
        assert(before[i] == s[i]);
        assert(before.contains('@'));
    }
    assert(s.subrange(0, at) =~= before);
    assert(s.subrange(at + 1, s.len() as int) =~= after);
}

/// Writing out what was read gives the text that was read.
pub proof fn lemma_text_of_parsed(s: Seq<char>)
    ensures
        plugin_spec_text(parse_plugin_spec(s)) == s,
        !parse_plugin_spec(s).name.contains('@'),
{
    s.index_of_first_ensures('@');
    match s.index_of_first('@') {
        Some(i) => {
            assert(s.subrange(0, i) + seq!['@'] + s.subrange(i + 1, s.len() as int) =~= s);
            let name = s.subrange(0, i);
            if name.contains('@') {
                let j = choose|j: int| 0 <= j < name.len() && name[j] == '@';
                assert(s[j] == '@');
            }
        },
        None => {},
    }
}

/// Reading what was written gives back the specification, where its name
/// holds no `@`.
pub proof fn lemma_parse_of_text(p: PluginSpecView)
    requires
        !p.name.contains('@'),
    ensures
        parse_plugin_spec(plugin_spec_text(p)) == p,
{
    match p.version {
        Some(v) => {
            lemma_first_at(plugin_spec_text(p), p.name, v);
        },
        None => {
            p.name.index_of_first_ensures('@');
        },
    }
}

impl PluginSpec {
    /// Specify plugin with specific version.
    pub fn new(name: String, version: String) -> (spec: Self)
        ensures
            spec@ == (PluginSpecView { name: name@, version: Some(version@) }),
    {
        PluginSpec { name, version: Some(version) }
    }

    /// Specify plugin by name with any version.
    pub fn from_name(name: String) -> (spec: Self)
        ensures
            spec@ == (PluginSpecView { name: name@, version: None }),
    {
        PluginSpec { name, version: None }
    }

    /// Reads a plugin specification: `{name}` or `{name}@{version}`.
    pub fn parse(s: &str) -> (spec: Self)
        ensures
            spec@ == parse_plugin_spec(s@),
    {
        match str_split_once(s, '@') {
            Some((name, version)) => {
                proof {
                    lemma_first_at(s@, name@, version@);
                }
                PluginSpec::new(name, version)
            },
            None => {
                proof {
                    s@.index_of_first_ensures('@');
                }
                PluginSpec::from_name(String::from_str(s))
            },
        }
    }

    /// Writes the specification as `{name}` or `{name}@{version}`.
    pub fn to_string(&self) -> (text: String)
        ensures
            text@ == plugin_spec_text(self@),
    {
        let mut value = self.name.clone();
        match &self.version {
            Some(version) => {
                value.append("@");
                value.append(version.as_str());
                proof {
                    reveal_strlit("@");
                    assert("@"@ =~= seq!['@']);
                }
            },
            None => {},
        }
        value
    }

    /// Whether two specifications name the same plugin and version.
    pub fn same(&self, other: &PluginSpec) -> (b: bool)
        ensures
            b == (self@ == other@),
    {
        let versions = match (&self.version, &other.version) {
            (Some(a), Some(b)) => *a == *b,
            (None, None) => true,
            _ => false,
        };
        self.name == other.name && versions
    }
}

impl Clone for PluginSpec {
    fn clone(&self) -> (copy: Self)
        ensures
            copy@ == self@,
    {
        PluginSpec {
            name: self.name.clone(),
            version: match &self.version {
                Some(v) => Some(v.clone()),
                None => None,
            },
        }
    }
}

impl std::str::FromStr for PluginSpec {
    type Err = std::convert::Infallible;

    /// Reads a plugin specification: `{name}` or `{name}@{version}`. Every
    /// text is one.
    fn from_str(s: &str) -> (r: Result<Self, Self::Err>)
        ensures
            r matches Ok(spec) && spec@ == parse_plugin_spec(s@),
    {
        Ok(PluginSpec::parse(s))
    }
}

} // verus!
