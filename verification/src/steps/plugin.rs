//! The steps that deal with plugins: what they ask of the API and what they
//! take from its answers.
use crate::address::{joined, path_of, pathed, queried, set_path, set_query, url_join, url_path};
use crate::dependency::{entries_view, Dependency, DependencyView, Entries};
use crate::effect::Method;
use crate::plugin_spec::{PluginSpec, PluginSpecView};
use crate::request_builder::{auth_text, request_of, text_of};
use crate::request_builder::{JsonBody, JsonBodyView, Request, RequestView};
use crate::spec::{UserCredentials, UserCredentialsView};
use crate::state::DependencyMap;
use crate::step::{PluginInfo, PluginInfoView};
use crate::steps::{evaluate_full, evaluation_view, join_names, names_view};
use crate::steps::{PendingStepResult, PendingStepView, PluginTask, Step};
use crate::text::{replaced, str_replace};
use crate::types::{ComputeResourceName, CubeUrl};
use vstd::prelude::*;
use vstd::string::{StrSliceExecFns, StringExecFns};

verus! {

/// The query that finds a plugin by its name and, where one is asked for, its
/// version.
pub open spec fn query_of_spec(plugin: PluginSpecView) -> Seq<char> {
    match plugin.version {
        Some(version) => "name_exact="@ + plugin.name + "&version="@ + version + "&limit=1"@,
        None => "name_exact="@ + plugin.name + "&limit=1"@,
    }
}

/// The request that searches a backend for a plugin.
pub open spec fn search_plugin_spec(url: Seq<char>, plugin: PluginSpecView) -> Option<RequestView> {
    match search_url_spec(url, plugin) {
        Some(url) => Some(
            RequestView {
                method: Method::Get,
                url,
                content_type: None,
                accept: Some("application/json"@),
                authorization: None,
                body: None,
            },
        ),
        None => None,
    }
}

/// Where a backend is searched for a plugin: at its `plugins/`, with the
/// query that finds the plugin.
pub open spec fn search_url_spec(url: Seq<char>, plugin: PluginSpecView) -> Option<Seq<char>> {
    match joined(url, "plugins/"@) {
        Some(plugins) => queried(plugins, query_of_spec(plugin)),
        None => None,
    }
}

/// Where the admin API of a backend is found: at the backend's URL, with
/// `/chris-admin/api/v1/` in place of each `/api/v1/` in its path.
pub open spec fn admin_url_spec(url: Seq<char>) -> Option<Seq<char>> {
    match path_of(url) {
        Some(path) => pathed(url, replaced(path, "/api/v1/"@, "/chris-admin/api/v1/"@)),
        None => None,
    }
}

/// The request that registers a plugin from a peer.
pub open spec fn add_plugin_request_spec(
    url: Seq<char>,
    admin: UserCredentialsView,
    plugin_peer_url: Seq<char>,
    compute_names_csv: Seq<char>,
) -> Option<RequestView> {
    match admin_url_spec(url) {
        Some(url) => Some(add_plugin_at(url, admin, plugin_peer_url, compute_names_csv)),
        None => None,
    }
}

/// The request that registers a plugin from a peer, at the admin API's URL.
pub open spec fn add_plugin_at(
    url: Seq<char>,
    admin: UserCredentialsView,
    plugin_peer_url: Seq<char>,
    compute_names_csv: Seq<char>,
) -> RequestView {
    RequestView {
        method: Method::Post,
        url,
        content_type: Some("application/json"@),
        accept: Some("application/json"@),
        authorization: Some(auth_text(admin)),
        body: Some(
            JsonBodyView::PluginAdminRequest {
                compute_names: compute_names_csv,
                plugin_store_url: plugin_peer_url,
            },
        ),
    }
}

/// What a search of the targeted backend tells where it found nothing: that
/// the plugin was looked for.
pub open spec fn checked_entries(plugin: PluginSpecView) -> Seq<(DependencyView, Seq<char>)> {
    seq![
        (DependencyView::Plugin(plugin), Seq::<char>::empty()),
        (DependencyView::PluginCheckedInLocal(plugin), Seq::<char>::empty()),
    ]
}

/// What a search of the targeted backend tells where it found the plugin.
pub open spec fn found_local_entries(plugin: PluginSpecView, info: PluginInfoView) -> Seq<
    (DependencyView, Seq<char>),
> {
    seq![
        (DependencyView::Plugin(plugin), Seq::<char>::empty()),
        (DependencyView::PluginCheckedInLocal(plugin), Seq::<char>::empty()),
        (DependencyView::PluginUrl(plugin), info.url),
        (DependencyView::PluginVersion(plugin), info.version),
    ]
}

/// What a search of the peer tells where it found the plugin.
pub open spec fn found_peer_entries(plugin: PluginSpecView, info: PluginInfoView) -> Seq<
    (DependencyView, Seq<char>),
> {
    seq![
        (DependencyView::Plugin(plugin), Seq::<char>::empty()),
        (DependencyView::PluginPeerUrl(plugin), info.url),
    ]
}

/// What a registered plugin tells.
pub open spec fn plugin_entries(plugin: PluginSpecView, info: PluginInfoView) -> Seq<
    (DependencyView, Seq<char>),
> {
    seq![
        (DependencyView::Plugin(plugin), info.id),
        (DependencyView::PluginUrl(plugin), info.url),
        (DependencyView::PluginVersion(plugin), info.version),
    ]
}

/// The query that finds a plugin.
pub fn query_of(plugin: &PluginSpec) -> (query: String)
    ensures
        query@ == query_of_spec(plugin@),
{
    let query = String::from_str("name_exact=").concat(plugin.name.as_str());
    match &plugin.version {
        Some(version) => query.concat("&version=").concat(version.as_str()).concat("&limit=1"),
        None => query.concat("&limit=1"),
    }
}

/// The request that searches a backend for a plugin.
pub fn search_plugin(url: &CubeUrl, plugin: &PluginSpec) -> (request: Option<Request>)
    ensures
        request_of(request) == search_plugin_spec(url@, plugin@),
{
    let plugins = match url_join(url.as_str(), "plugins/") {
        Some(plugins) => plugins,
        None => {
            return None;
        },
    };
    match set_query(plugins.as_str(), query_of(plugin).as_str()) {
        Some(address) => Some(Request::new(Method::Get, address).accept_json()),
        None => None,
    }
}

/// Where the admin API of a backend is found.
pub fn admin_url(url: &CubeUrl) -> (address: Option<String>)
    ensures
        text_of(address) == admin_url_spec(url@),
{
    let path = match url_path(url.as_str()) {
        Some(path) => path,
        None => {
            return None;
        },
    };
    proof {
        reveal_strlit("/api/v1/");
    }
    let admin_path = str_replace(path.as_str(), "/api/v1/", "/chris-admin/api/v1/");
    set_path(url.as_str(), admin_path.as_str())
}

/// The request that registers a plugin from a peer.
pub fn add_plugin_request(
    url: &CubeUrl,
    admin: &UserCredentials,
    plugin_peer_url: &str,
    compute_names_csv: &str,
) -> (request: Option<Request>)
    ensures
        request_of(request) == add_plugin_request_spec(
            url@,
            admin@,
            plugin_peer_url@,
            compute_names_csv@,
        ),
{
    let body = JsonBody::PluginAdminRequest {
        compute_names: String::from_str(compute_names_csv),
        plugin_store_url: String::from_str(plugin_peer_url),
    };
    match admin_url(url) {
        Some(address) => Some(
            Request::new(Method::Post, address).auth(admin).json(body).accept_json(),
        ),
        None => None,
    }
}

/// The entries that a search of the targeted backend gives.
pub fn deserialize_local_search(plugin: &PluginSpec, first: Option<PluginInfo>) -> (entries:
    Entries)
    ensures
        entries_view(entries@) == (match first {
            Some(info) => found_local_entries(plugin@, info@),
            None => checked_entries(plugin@),
        }),
{
    match first {
        Some(info) => {
            let ghost want = found_local_entries(plugin@, info@);
            let entries = vec![
                (Dependency::Plugin(plugin.clone()), String::new()),
                (Dependency::PluginCheckedInLocal(plugin.clone()), String::new()),
                (Dependency::PluginUrl(plugin.clone()), info.url),
                (Dependency::PluginVersion(plugin.clone()), info.version),
            ];
            assert(entries_view(entries@) =~= want);
            entries
        },
        None => {
            let entries = vec![
                (Dependency::Plugin(plugin.clone()), String::new()),
                (Dependency::PluginCheckedInLocal(plugin.clone()), String::new()),
            ];
            assert(entries_view(entries@) =~= checked_entries(plugin@));
            entries
        },
    }
}

/// The entries that a plugin found in the peer gives.
pub fn deserialize_peer_search(plugin: &PluginSpec, info: PluginInfo) -> (entries: Entries)
    ensures
        entries_view(entries@) == found_peer_entries(plugin@, info@),
{
    let ghost want = found_peer_entries(plugin@, info@);
    let entries = vec![
        (Dependency::Plugin(plugin.clone()), String::new()),
        (Dependency::PluginPeerUrl(plugin.clone()), info.url),
    ];
    assert(entries_view(entries@) =~= want);
    entries
}

/// The entries that a registered plugin gives.
pub fn deserialize_plugin(plugin: &PluginSpec, info: PluginInfo) -> (entries: Entries)
    ensures
        entries_view(entries@) == plugin_entries(plugin@, info@),
{
    let ghost want = plugin_entries(plugin@, info@);
    let entries = vec![
        (Dependency::Plugin(plugin.clone()), info.id),
        (Dependency::PluginUrl(plugin.clone()), info.url),
        (Dependency::PluginVersion(plugin.clone()), info.version),
    ];
    assert(entries_view(entries@) =~= want);
    entries
}

/// The names, with a comma between one and the next.
pub fn join_compute_names(names: &Vec<ComputeResourceName>) -> (csv: String)
    ensures
        csv@ == join_names(names_view(names@)),
{
    let ghost all = names_view(names@);
    let mut csv = String::new();
    let mut i: usize = 0;
    while i < names.len()
        invariant
            i <= names@.len(),
            all == names_view(names@),
            csv@ == join_names(all.take(i as int)),
        decreases names@.len() - i,
    {
        proof {
            assert(all.take(i + 1).drop_last() =~= all.take(i as int));
            assert(all.take(i + 1).last() == names@[i as int]@);
            reveal_strlit(",");
            assert(","@ =~= seq![',']);
        }
        if i > 0 {
            csv.append(",");
            proof {
                if i == 1 {
                    assert(all.take(1).drop_last() =~= all.take(0));
                    assert(all.take(1)[0] == all[0]);
                }
            }
        } else {
            proof {
                assert(csv@ =~= Seq::<char>::empty());
                assert(all.take(1)[0] == names@[0]@);
                assert(Seq::<char>::empty() + names@[0]@ =~= names@[0]@);
            }
        }
        csv.append(names[i].as_str());
        i += 1;
    }
    proof {
        assert(all.take(names@.len() as int) =~= all);
    }
    csv
}

/// Evaluates the step that looks for a plugin in the targeted backend.
pub fn evaluate_find_in_local<M: DependencyMap>(task: &PluginTask, map: &mut M) -> (r:
    PendingStepResult)
    requires
        old(map).wf(),
    ensures
        final(map).wf(),
        final(map).answers() == old(map).answers(),
        final(map).log() == old(map).log() + evaluate_full(
            PendingStepView::PluginFindInLocal(task@),
            old(map).answers(),
        ).1,
        evaluation_view(r) == evaluate_full(
            PendingStepView::PluginFindInLocal(task@),
            old(map).answers(),
        ).0,
{
    proof {
        assert(map.log() =~= old(map).log() + Seq::<DependencyView>::empty());
    }
    if map.contains_key(&Dependency::Plugin(task.plugin.clone())) && map.contains_key(
        &Dependency::PluginCheckedInLocal(task.plugin.clone()),
    ) {
        Ok(None)
    } else {
        Ok(Some(Step::PluginFindInLocal(task.clone())))
    }
}

/// Evaluates the step that looks for a plugin in the peer backend.
pub fn evaluate_find_in_peer<M: DependencyMap>(task: &PluginTask, map: &mut M) -> (r:
    PendingStepResult)
    requires
        old(map).wf(),
    ensures
        final(map).wf(),
        final(map).answers() == old(map).answers(),
        final(map).log() == old(map).log() + evaluate_full(
            PendingStepView::PluginFindInPeer(task@),
            old(map).answers(),
        ).1,
        evaluation_view(r) == evaluate_full(
            PendingStepView::PluginFindInPeer(task@),
            old(map).answers(),
        ).0,
{
    let ghost checked = DependencyView::PluginCheckedInLocal(task.plugin@);
    if map.contains_key(&Dependency::PluginUrl(task.plugin.clone())) || (map.contains_key(
        &Dependency::Plugin(task.plugin.clone()),
    ) && map.contains_key(&Dependency::PluginPeerUrl(task.plugin.clone()))) {
        proof {
            assert(map.log() =~= old(map).log() + Seq::<DependencyView>::empty());
        }
        return Ok(None);
    }
    let found = map.get(Dependency::PluginCheckedInLocal(task.plugin.clone()));
    proof {
        assert(map.log() =~= old(map).log() + seq![checked]);
    }
    match found {
        Err(missing) => {
            return Err(missing);
        },
        Ok(_) => {},
    }
    match &task.peer {
        Some(peer) => Ok(Some(Step::PluginFindInPeer { task: task.clone(), peer: peer.clone() })),
        None => Err(Dependency::PeerUrl),
    }
}

/// Evaluates the step that registers a plugin from the peer.
pub fn evaluate_add_from_peer<M: DependencyMap>(task: &PluginTask, map: &mut M) -> (r:
    PendingStepResult)
    requires
        old(map).wf(),
    ensures
        final(map).wf(),
        final(map).answers() == old(map).answers(),
        final(map).log() == old(map).log() + evaluate_full(
            PendingStepView::PluginAddFromPeer(task@),
            old(map).answers(),
        ).1,
        evaluation_view(r) == evaluate_full(
            PendingStepView::PluginAddFromPeer(task@),
            old(map).answers(),
        ).0,
{
    let ghost checked = DependencyView::PluginCheckedInLocal(task.plugin@);
    let ghost all = DependencyView::ComputeResourceAll;
    let ghost peer_url = DependencyView::PluginPeerUrl(task.plugin@);
    if map.contains_key(&Dependency::PluginUrl(task.plugin.clone())) {
        proof {
            assert(map.log() =~= old(map).log() + Seq::<DependencyView>::empty());
        }
        return Ok(None);
    }
    let found = map.get(Dependency::PluginCheckedInLocal(task.plugin.clone()));
    proof {
        assert(map.log() =~= old(map).log() + seq![checked]);
    }
    match found {
        Err(missing) => {
            return Err(missing);
        },
        Ok(_) => {},
    }
    let admin = match &task.admin {
        Some(admin) => admin.clone(),
        None => {
            return Err(Dependency::AdminCredentials);
        },
    };
    // If the compute resources of a plugin are not specified,
    // then register it to all compute resources.
    if task.compute_names.len() == 0 {
        let every = map.get(Dependency::ComputeResourceAll);
        proof {
            assert(map.log() =~= old(map).log() + seq![checked, all]);
        }
        let compute_names_csv = match every {
            Err(missing) => {
                return Err(missing);
            },
            Ok(csv) => (*csv).clone(),
        };
        let peer = map.get(Dependency::PluginPeerUrl(task.plugin.clone()));
        proof {
            assert(map.log() =~= old(map).log() + seq![checked, all, peer_url]);
        }
        match peer {
            Err(missing) => Err(missing),
            Ok(plugin_peer_url) => Ok(
                Some(
                    Step::PluginAddFromPeer {
                        task: task.clone(),
                        admin,
                        plugin_peer_url,
                        compute_names_csv,
                    },
                ),
            ),
        }
    } else {
        let compute_names_csv = join_compute_names(&task.compute_names);
        let peer = map.get(Dependency::PluginPeerUrl(task.plugin.clone()));
        proof {
            assert(map.log() =~= old(map).log() + seq![checked, peer_url]);
        }
        match peer {
            Err(missing) => Err(missing),
            Ok(plugin_peer_url) => Ok(
                Some(
                    Step::PluginAddFromPeer {
                        task: task.clone(),
                        admin,
                        plugin_peer_url,
                        compute_names_csv,
                    },
                ),
            ),
        }
    }
}

} // verus!
