//! The step that deals with compute resources: what it asks of the API and
//! what it takes from the answer.
use crate::dependency::{entries_view, Dependency, DependencyView, Entries};
use crate::effect::Method;
use crate::address::{joined, url_join};
use crate::request_builder::{auth_text, request_of, Request, RequestView};
use crate::state::DependencyMap;
use crate::step::name_texts;
use crate::steps::{evaluate_full, evaluation_view, join_names};
use crate::steps::{CubeTask, CubeTaskView, PendingStepResult, PendingStepView, Step};
use vstd::prelude::*;
use vstd::string::StringExecFns;

verus! {

/// The request for the list of compute resources: as the admin, where there
/// is one.
pub open spec fn get_all_request_spec(t: CubeTaskView) -> Option<RequestView> {
    match joined(t.url, "computeresources/"@) {
        Some(url) => Some(
            RequestView {
                method: Method::Get,
                url,
                content_type: None,
                accept: Some("application/json"@),
                authorization: match t.admin {
                    Some(admin) => Some(auth_text(admin)),
                    None => None,
                },
                body: None,
            },
        ),
        None => None,
    }
}

/// What the list of compute resources tells: their names, with a comma
/// between one and the next.
pub open spec fn all_entries(names: Seq<Seq<char>>) -> Seq<(DependencyView, Seq<char>)> {
    seq![(DependencyView::ComputeResourceAll, join_names(names))]
}

/// The request for the list of compute resources.
pub fn get_all_request(task: &CubeTask) -> (request: Option<Request>)
    ensures
        request_of(request) == get_all_request_spec(task@),
{
    let address = match url_join(task.url.as_str(), "computeresources/") {
        Some(address) => address,
        None => {
            return None;
        },
    };
    let request = Request::new(Method::Get, address);
    match &task.admin {
        Some(admin) => Some(request.auth(admin).accept_json()),
        None => Some(request.accept_json()),
    }
}

/// The texts, with a comma between one and the next.
pub fn join_texts(names: &Vec<String>) -> (csv: String)
    ensures
        csv@ == join_names(name_texts(names@)),
{
    let ghost all = name_texts(names@);
    let mut csv = String::new();
    let mut i: usize = 0;
    while i < names.len()
        invariant
            i <= names@.len(),
            all == name_texts(names@),
            csv@ == join_names(all.take(i as int)),
        decreases names@.len() - i,
    {
        proof {
            assert(all.take(i + 1).drop_last() =~= all.take(i as int));
            assert(all.take(i + 1).last() == names@[i as int]@);
            reveal_strlit(",");
            assert(","@ =~= seq![',']);
        }
        if i > 0 {
            csv.append(",");
            proof {
                if i == 1 {
                    assert(all.take(1).drop_last() =~= all.take(0));
                    assert(all.take(1)[0] == all[0]);
                }
            }
        } else {
            proof {
                assert(csv@ =~= Seq::<char>::empty());
                assert(all.take(1)[0] == names@[0]@);
                assert(Seq::<char>::empty() + names@[0]@ =~= names@[0]@);
            }
        }
        csv.append(names[i].as_str());
        i += 1;
    }
    proof {
        assert(all.take(names@.len() as int) =~= all);
    }
    csv
}

/// The entries that the list of compute resources gives.
pub fn deserialize_all(names: &Vec<String>) -> (entries: Entries)
    ensures
        entries_view(entries@) == all_entries(name_texts(names@)),
{
    let entries = vec![(Dependency::ComputeResourceAll, join_texts(names))];
    assert(entries_view(entries@) =~= all_entries(name_texts(names@)));
    entries
}

/// Evaluates the step that lists the compute resources of the backend.
pub fn evaluate_get_all<M: DependencyMap>(task: &CubeTask, map: &mut M) -> (r: PendingStepResult)
    requires
        old(map).wf(),
    ensures
        final(map).wf(),
        final(map).answers() == old(map).answers(),
        final(map).log() == old(map).log() + evaluate_full(
            PendingStepView::ComputeResourceGetAll(task@),
            old(map).answers(),
        ).1,
        evaluation_view(r) == evaluate_full(
            PendingStepView::ComputeResourceGetAll(task@),
            old(map).answers(),
        ).0,
{
    proof {
        assert(map.log() =~= old(map).log() + Seq::<DependencyView>::empty());
    }
    if map.contains_key(&Dependency::ComputeResourceAll) {
        Ok(None)
    } else {
        Ok(Some(Step::ComputeResourceGetAll(task.clone())))
    }
}

} // verus!
