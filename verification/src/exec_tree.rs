//! The scheduler: runs the steps of a plan in topological order.
//!
//! The executor holds the plan and the values that finished steps left. It
//! decides which steps can start; the caller runs them, in any order and any
//! number at a time, and reports each one that has finished.
//!
//! Notes:
//!
//! - Every node of the plan gets one outcome: a step that is skipped counts
//!   as `Unmodified`.
//! - If an outcome containing an error is produced, it is likely that many
//!   unfulfilled dependencies will follow.
//! - If an outcome containing an unfulfilled dependency appears without a
//!   preceding error, it means there is a bug in the plan.
use crate::dependency::resource_of;
use crate::dependency::{entries_view, DependencyView, Entries};
use crate::dependency_tree::{ids_of, DependencyTree};
use crate::effect::{Outcome, OutcomeView, StepEffect, StepEffectView};
use crate::schedule::{lemma_complete, lemma_finish, lemma_launch, lemma_push_contains};
use crate::schedule::{lemma_settle, lemma_topological, sched_inv, Schedule};
use crate::state::{entry_keys, insert_all_spec, lemma_insert_all_keys};
use crate::state::{DependencyHashMap, DependencyMap};
use crate::steps::{answers_of, evaluate_spec, pledged, EvaluationView};
use crate::steps::{PendingStep, PendingStepView, Step};
use vstd::prelude::*;

verus! {

/// What the executor decided: the outcomes of nodes that are done, each with
/// the node's index, and the steps to run, each with its node's index. The
/// outcomes are to be reported before the steps are started.
#[derive(Debug, PartialEq, Eq)]
pub struct Dispatch {
    pub outcomes: Vec<(usize, Outcome)>,
    pub launches: Vec<(usize, Step)>,
}

/// The outcome of a node that is done without running: `Unmodified` where the
/// step is skipped, the missing key where a dependency is unfulfilled; `None`
/// where the step is to run.
pub open spec fn settled_outcome(
    job: PendingStepView,
    values: Map<DependencyView, Seq<char>>,
) -> Option<OutcomeView> {
    let target = resource_of(pledged(job)[0]);
    match evaluate_spec(job, answers_of(values)) {
        EvaluationView::Skip => Some(OutcomeView { target, effect: StepEffectView::Unmodified }),
        EvaluationView::Unfulfilled(k) => Some(
            OutcomeView { target, effect: StepEffectView::Unfulfilled(k) },
        ),
        EvaluationView::Run(_) => None,
    }
}

/// As long as a user is not known to exist, each step for the user but the
/// first is done without running, with the user as its unfulfilled
/// dependency.
pub proof fn lemma_unknown_user_settles(
    t: crate::steps::UserTaskView,
    values: Map<DependencyView, Seq<char>>,
    job: PendingStepView,
)
    requires
        !values.dom().contains(DependencyView::UserExists(t.username)),
        job == PendingStepView::UserGetAuthToken(t) || job == PendingStepView::UserGetUrl(t) || job
            == PendingStepView::UserGetDetails(t) || job == PendingStepView::UserDetailsFinalize(t),
    ensures
        settled_outcome(job, values) == Some(
            OutcomeView {
                target: crate::dependency::ResourceView::User(t.username),
                effect: StepEffectView::Unfulfilled(DependencyView::UserExists(t.username)),
            },
        ),
{
    crate::steps::lemma_unknown_user_blocks(t, values);
}

/// The scheduler's state: what is left of the plan, the values that finished
/// steps left, and the nodes whose steps are running.
pub struct TreeExecutor {
    tree: DependencyTree<PendingStep>,
    store: DependencyHashMap,
    inflight: Vec<usize>,
    nodes0: Ghost<Set<usize>>,
    edges0: Ghost<Set<(usize, usize)>>,
    jobs0: Ghost<Map<usize, PendingStepView>>,
    emitted: Ghost<nat>,
    handed: Ghost<Set<DependencyView>>,
}

/// A clone of a pending step says what the step says.
proof fn lemma_cloned(a: PendingStep, b: PendingStep)
    requires
        cloned(a, b),
    ensures
        b@ == a@,
{
}

/// Takes `id` out of a list that holds no number twice, if it is there.
fn take_out(list: &mut Vec<usize>, id: usize) -> (found: bool)
    requires
        old(list)@.no_duplicates(),
    ensures
        found == old(list)@.contains(id),
        !found ==> final(list)@ == old(list)@,
        final(list)@.no_duplicates(),
        forall|n: usize| final(list)@.contains(n) <==> old(list)@.contains(n) && n != id,
{
    let mut i: usize = 0;
    while i < list.len()
        invariant
            i <= list@.len(),
            list@ == old(list)@,
            list@.no_duplicates(),
            forall|j: int| 0 <= j < i ==> list@[j] != id,
        decreases list@.len() - i,
    {
        if list[i] == id {
            let ghost before = list@;
            let _ = list.swap_remove(i);
            proof {
                let last = before.len() - 1;
                assert forall|a: int, b: int| 0 <= a < b < list@.len() implies list@[a]
                    != list@[b] by {
                    let x = if a == i {
                        last
                    } else {
                        a
                    };
                    let y = if b == i {
                        last
                    } else {
                        b
                    };
                    assert(list@[a] == before[x] && list@[b] == before[y]);
                }
                assert forall|n: usize| list@.contains(n) <==> before.contains(n) && n != id by {
                    if list@.contains(n) {
                        let a = choose|a: int| 0 <= a < list@.len() && list@[a] == n;
                        let x = if a == i {
                            last
                        } else {
                            a
                        };
                        assert(before[x] == n);
                        assert(x != i);
                    }
                    if before.contains(n) && n != id {
                        let x = choose|x: int| 0 <= x < before.len() && before[x] == n;
                        if x == last {
                            assert(list@[i as int] == n);
                        } else {
                            assert(list@[x] == n);
                        }
                    }
                }
            }
            return true;
        }
        i += 1;
    }
    proof {
        assert forall|n: usize| list@.contains(n) <==> old(list)@.contains(n) && n != id by {
            if list@.contains(n) {
                let a = choose|a: int| 0 <= a < list@.len() && list@[a] == n;
                assert(list@[a] != id);
            }
        }
    }
    false
}

/// When a node has left the plan, the nodes that stay carry the jobs that
/// they were planned with, and so do the children that were handed out.
proof fn lemma_jobs_stay(
    before: DependencyTree<PendingStep>,
    after: DependencyTree<PendingStep>,
    jobs: Map<usize, PendingStepView>,
    id: usize,
    children: Seq<(usize, PendingStep)>,
)
    requires
        before.wf(),
        forall|n: usize| #[trigger] before.nodes().contains(n) ==> before.item(n)@ == jobs[n],
        after.nodes() == before.nodes().remove(id),
        forall|n: usize| n != id ==> after.item(n) == before.item(n),
        forall|n: usize|
            #![trigger ids_of(children).contains(n)]
            #![trigger before.edges().contains((id, n))]
            ids_of(children).contains(n) <==> before.edges().contains((id, n)) && after.ready(n),
        forall|k: int|
            0 <= k < children.len() ==> cloned(after.item((#[trigger] children[k]).0), children[k].1),
    ensures
        forall|n: usize| after.ready(n) == crate::schedule::no_pred(after.edges(), n),
        forall|n: usize| #[trigger] after.nodes().contains(n) ==> after.item(n)@ == jobs[n],
        forall|k: int|
            0 <= k < children.len() ==> (#[trigger] children[k]).1@ == jobs[children[k].0],
{
    before.lemma_wf();
    let kids = ids_of(children);
    assert forall|n: usize| after.ready(n) == crate::schedule::no_pred(after.edges(), n) by {}
    assert forall|n: usize| #[trigger] after.nodes().contains(n) implies after.item(n)@
        == jobs[n] by {
        assert(before.nodes().contains(n));
    }
    assert forall|k: int| 0 <= k < children.len() implies (#[trigger] children[k]).1@
        == jobs[children[k].0] by {
        let c = children[k].0;
        lemma_cloned(after.item(c), children[k].1);
        assert(kids[k] == c);
        assert(kids.contains(c));
        assert(before.edges().contains((id, c)));
        assert(before.nodes().contains(c) && c != id);
    }
}

impl TreeExecutor {
    /// The nodes of the plan as it was handed over.
    pub closed spec fn nodes(&self) -> Set<usize> {
        self.nodes0@
    }

    /// The edges of the plan as it was handed over.
    pub closed spec fn edges(&self) -> Set<(usize, usize)> {
        self.edges0@
    }

    /// The pending step at a node of the plan.
    pub closed spec fn job(&self, n: usize) -> PendingStepView {
        self.jobs0@[n]
    }

    /// The nodes that are not done yet: waiting, or running.
    pub closed spec fn remaining(&self) -> Set<usize> {
        self.tree.nodes()
    }

    /// The nodes whose steps are running.
    pub closed spec fn running(&self) -> Seq<usize> {
        self.inflight@
    }

    /// The values that finished steps left.
    pub closed spec fn values(&self) -> Map<DependencyView, Seq<char>> {
        self.store@
    }

    /// The number of outcomes handed out so far.
    pub closed spec fn emitted(&self) -> nat {
        self.emitted@
    }

    /// The keys of the entries that finished steps handed in.
    pub closed spec fn handed(&self) -> Set<DependencyView> {
        self.handed@
    }

    /// The keys that the steps of the plan pledge.
    pub open spec fn pledged_keys(&self) -> Set<DependencyView> {
        Set::new(
            |k: DependencyView|
                exists|n: usize| self.nodes().contains(n) && #[trigger] pledged(self.job(n)).contains(k),
        )
    }

    /// The node is done: an outcome was handed out for it.
    pub open spec fn done(&self, n: usize) -> bool {
        self.nodes().contains(n) && !self.remaining().contains(n)
    }

    /// The run as plain mathematics, with the nodes that wait to be looked at.
    closed spec fn model(&self, work: Seq<usize>) -> Schedule {
        Schedule {
            nodes0: self.nodes0@,
            edges0: self.edges0@,
            nodes: self.tree.nodes(),
            edges: self.tree.edges(),
            flying: self.inflight@,
            work,
            emitted: self.emitted@,
        }
    }

    /// What holds while nodes that can run wait in `work` to be looked at.
    closed spec fn inv(&self, work: Seq<usize>) -> bool {
        &&& self.tree.wf()
        &&& self.store.distinct()
        &&& sched_inv(self.model(work))
        &&& forall|n: usize| #[trigger]
            self.tree.nodes().contains(n) ==> self.tree.item(n)@ == self.jobs0@[n]
        &&& self.store@.dom() == self.handed@
    }

    /// What holds of every executor between two calls.
    pub closed spec fn wf(&self) -> bool {
        self.inv(Seq::empty())
    }

    /// Takes a node that can run out of the plan, as done, and hands back the
    /// nodes that can run now because of that.
    fn settle(&mut self, id: usize, Ghost(rest): Ghost<Seq<usize>>) -> (children: Vec<
        (usize, PendingStep),
    >)
        requires
            old(self).inv(rest.push(id)),
        ensures
            final(self).inv(rest + ids_of(children@)),
            old(self).tree.nodes().contains(id),
            final(self).tree.nodes() == old(self).tree.nodes().remove(id),
            final(self).inflight@ == old(self).inflight@,
            final(self).store == old(self).store,
            final(self).nodes0 == old(self).nodes0,
            final(self).edges0 == old(self).edges0,
            final(self).jobs0 == old(self).jobs0,
            final(self).handed == old(self).handed,
            final(self).emitted@ == old(self).emitted@ + 1,
            forall|k: int|
                0 <= k < children@.len() ==> (#[trigger] children@[k]).1@ == final(self).jobs0@[children@[k].0],
    {
        proof {
            old(self).tree.lemma_wf();
        }
        let children = self.tree.after(id);
        self.emitted = Ghost(self.emitted@ + 1);
        proof {
            let kids = ids_of(children@);
            lemma_jobs_stay(old(self).tree, self.tree, self.jobs0@, id, children@);
            lemma_settle(
                old(self).model(rest.push(id)),
                id,
                rest,
                kids,
                self.model(rest + kids),
            );
        }
        children
    }

    /// Starts the step of a node that waited to be looked at.
    fn launch(&mut self, id: usize, Ghost(rest): Ghost<Seq<usize>>)
        requires
            old(self).inv(rest.push(id)),
        ensures
            final(self).inv(rest),
            !old(self).inflight@.contains(id),
            final(self).inflight@ == old(self).inflight@.push(id),
            final(self).tree == old(self).tree,
            final(self).store == old(self).store,
            final(self).nodes0 == old(self).nodes0,
            final(self).edges0 == old(self).edges0,
            final(self).jobs0 == old(self).jobs0,
            final(self).handed == old(self).handed,
            final(self).emitted == old(self).emitted,
    {
        self.inflight.push(id);
        proof {
            lemma_launch(old(self).model(rest.push(id)), id, rest, self.model(rest));
        }
    }

    /// Looks at the nodes that can run: a node whose step is to run is handed
    /// out to be started; a node whose step is skipped, or lacks a value, is
    /// done, and the nodes that can run because of that are looked at in turn.
    ///
    /// `settled` lists the nodes that are done by this, `launched` those
    /// whose steps are handed out, both in the order of the result.
    fn dispatch(&mut self, work: Vec<(usize, PendingStep)>, outcomes: Vec<(usize, Outcome)>) -> (r: (
        Dispatch,
        Ghost<Seq<usize>>,
        Ghost<Seq<usize>>,
    ))
        requires
            old(self).inv(ids_of(work@)),
            forall|k: int|
                0 <= k < work@.len() ==> (#[trigger] work@[k]).1@ == old(self).jobs0@[work@[k].0],
        ensures
            final(self).wf(),
            final(self).nodes0 == old(self).nodes0,
            final(self).edges0 == old(self).edges0,
            final(self).jobs0 == old(self).jobs0,
            final(self).handed == old(self).handed,
            final(self).store@ == old(self).store@,
            final(self).emitted@ == old(self).emitted@ + r.1@.len(),
            final(self).inflight@ == old(self).inflight@ + r.2@,
            r.1@.no_duplicates(),
            forall|n: usize| #[trigger]
                final(self).tree.nodes().contains(n) <==> old(self).tree.nodes().contains(n)
                    && !r.1@.contains(n),
            forall|k: int| 0 <= k < r.1@.len() ==> old(self).tree.nodes().contains(#[trigger] r.1@[k]),
            r.0.outcomes@.len() == outcomes@.len() + r.1@.len(),
            forall|k: int| 0 <= k < outcomes@.len() ==> #[trigger] r.0.outcomes@[k] == outcomes@[k],
            forall|k: int|
                outcomes@.len() <= k < r.0.outcomes@.len() ==> {
                    &&& (#[trigger] r.0.outcomes@[k]).0 == r.1@[k - outcomes@.len()]
                    &&& settled_outcome(final(self).jobs0@[r.0.outcomes@[k].0], final(self).store@)
                        == Some(r.0.outcomes@[k].1@)
                },
            r.0.launches@.len() == r.2@.len(),
            forall|k: int|
                0 <= k < r.2@.len() ==> {
                    &&& (#[trigger] r.0.launches@[k]).0 == r.2@[k]
                    &&& evaluate_spec(final(self).jobs0@[r.2@[k]], answers_of(final(self).store@))
                        == EvaluationView::Run(r.0.launches@[k].1@)
                },
    {
        let ghost first = outcomes@.len() as int;
        let ghost given = outcomes@;
        let ghost mut settled: Seq<usize> = Seq::empty();
        let ghost mut launched: Seq<usize> = Seq::empty();
        let mut work = work;
        let mut outcomes = outcomes;
        let mut launches: Vec<(usize, Step)> = Vec::new();
        proof {
            assert(self.inflight@ + launched =~= self.inflight@);
        }
        while work.len() > 0
            invariant
                self.inv(ids_of(work@)),
                forall|k: int|
                    0 <= k < work@.len() ==> (#[trigger] work@[k]).1@ == self.jobs0@[work@[k].0],
                self.nodes0 == old(self).nodes0,
                self.edges0 == old(self).edges0,
                self.jobs0 == old(self).jobs0,
                self.handed == old(self).handed,
                self.store@ == old(self).store@,
                self.emitted@ == old(self).emitted@ + settled.len(),
                self.inflight@ == old(self).inflight@ + launched,
                settled.no_duplicates(),
                forall|n: usize| #[trigger]
                    self.tree.nodes().contains(n) <==> old(self).tree.nodes().contains(n)
                        && !settled.contains(n),
                forall|k: int|
                    0 <= k < settled.len() ==> old(self).tree.nodes().contains(#[trigger] settled[k]),
                first == given.len(),
                outcomes@.len() == first + settled.len(),
                forall|k: int| 0 <= k < first ==> outcomes@[k] == given[k],
                forall|k: int|
                    first <= k < outcomes@.len() ==> {
                        &&& (#[trigger] outcomes@[k]).0 == settled[k - first]
                        &&& settled_outcome(self.jobs0@[outcomes@[k].0], self.store@) == Some(
                            outcomes@[k].1@,
                        )
                    },
                launches@.len() == launched.len(),
                forall|k: int|
                    0 <= k < launched.len() ==> {
                        &&& (#[trigger] launches@[k]).0 == launched[k]
                        &&& evaluate_spec(self.jobs0@[launched[k]], answers_of(self.store@))
                            == EvaluationView::Run(launches@[k].1@)
                    },
            decreases self.tree.nodes().len(), work@.len(),
        {
            let ghost all = ids_of(work@);
            let ghost seen = outcomes@;
            let ghost started = launches@;
            let ghost nodes_before = self.tree.nodes();
            let (id, job) = work.pop().unwrap();
            let ghost rest = ids_of(work@);
            proof {
                assert(all =~= rest.push(id));
            }
            let verdict = job.evaluate(&mut self.store);
            match verdict {
                Ok(Some(step)) => {
                    self.launch(id, Ghost(rest));
                    launches.push((id, step));
                    proof {
                        assert(self.inflight@ =~= old(self).inflight@ + launched.push(id));
                        launched = launched.push(id);
                        assert forall|k: int| 0 <= k < launched.len() implies {
                            &&& (#[trigger] launches@[k]).0 == launched[k]
                            &&& evaluate_spec(self.jobs0@[launched[k]], answers_of(self.store@))
                                == EvaluationView::Run(launches@[k].1@)
                        } by {
                            if k < started.len() {
                                assert(launches@[k] == started[k]);
                            }
                        }
                    }
                },
                settled_as => {
                    let effect = match settled_as {
                        Err(missing) => StepEffect::Unfulfilled(missing),
                        _ => StepEffect::Unmodified,
                    };
                    let outcome = Outcome { target: job.target(), effect };
                    outcomes.push((id, outcome));
                    let mut children = self.settle(id, Ghost(rest));
                    let ghost kids = children@;
                    work.append(&mut children);
                    proof {
                        assert(ids_of(work@) =~= rest + ids_of(kids));
                        assert forall|k: int| 0 <= k < work@.len() implies (#[trigger] work@[k]).1@
                            == self.jobs0@[work@[k].0] by {
                            if k >= rest.len() {
                                assert(work@[k] == kids[k - rest.len()]);
                            }
                        }
                        lemma_push_contains(settled, id);
                        assert(!settled.contains(id));
                        let before = settled;
                        settled = settled.push(id);
                        assert forall|n: usize| #[trigger]
                            self.tree.nodes().contains(n) <==> old(self).tree.nodes().contains(n)
                                && !settled.contains(n) by {
                            assert(nodes_before.contains(n) <==> old(self).tree.nodes().contains(n)
                                && !before.contains(n));
                        }
                        assert forall|k: int| first <= k < outcomes@.len() implies {
                            &&& (#[trigger] outcomes@[k]).0 == settled[k - first]
                            &&& settled_outcome(self.jobs0@[outcomes@[k].0], self.store@) == Some(
                                outcomes@[k].1@,
                            )
                        } by {
                            if k < seen.len() {
                                assert(outcomes@[k] == seen[k]);
                            }
                        }
                        assert forall|k: int| 0 <= k < first implies outcomes@[k] == given[k] by {
                            assert(outcomes@[k] == seen[k]);
                        }
                        assert forall|k: int|
                            0 <= k < settled.len() implies old(self).tree.nodes().contains(
                            #[trigger] settled[k],
                        ) by {
                            if k < before.len() {
                                assert(settled[k] == before[k]);
                            }
                        }
                        assert(nodes_before.finite()) by {
                            self.tree.lemma_wf();
                        }
                    }
                },
            }
        }
        proof {
            assert(ids_of(work@) =~= Seq::<usize>::empty());
        }
        (Dispatch { outcomes, launches }, Ghost(settled), Ghost(launched))
    }

    /// Takes over a plan and looks at its roots.
    ///
    /// Every node that is done by this has its outcome in the result, and the
    /// step of every node that runs now is in the result.
    pub fn new(tree: DependencyTree<PendingStep>) -> (r: (TreeExecutor, Dispatch))
        requires
            tree.wf(),
        ensures
            r.0.wf(),
            r.0.nodes() == tree.nodes(),
            r.0.edges() == tree.edges(),
            forall|n: usize| tree.nodes().contains(n) ==> r.0.job(n) == #[trigger] tree.item(n)@,
            r.0.values() == Map::<DependencyView, Seq<char>>::empty(),
            r.0.handed() == Set::<DependencyView>::empty(),
            r.0.emitted() == r.1.outcomes@.len(),
            ids_of(r.1.outcomes@).no_duplicates(),
            forall|n: usize| #[trigger]
                r.0.remaining().contains(n) <==> tree.nodes().contains(n) && !ids_of(
                    r.1.outcomes@,
                ).contains(n),
            forall|k: int|
                0 <= k < r.1.outcomes@.len() ==> {
                    &&& tree.nodes().contains((#[trigger] r.1.outcomes@[k]).0)
                    &&& settled_outcome(r.0.job(r.1.outcomes@[k].0), r.0.values()) == Some(
                        r.1.outcomes@[k].1@,
                    )
                },
            r.0.running() == ids_of(r.1.launches@),
            forall|k: int|
                0 <= k < r.1.launches@.len() ==> evaluate_spec(
                    r.0.job((#[trigger] r.1.launches@[k]).0),
                    answers_of(r.0.values()),
                ) == EvaluationView::Run(r.1.launches@[k].1@),
    {
        let count = tree.count();
        let capacity = if count <= usize::MAX / 4 {
            count * 4
        } else {
            count
        };
        let store = DependencyHashMap::with_capacity(capacity);
        let ready = tree.start();
        let ghost jobs = Map::new(|n: usize| tree.nodes().contains(n), |n: usize| tree.item(n)@);
        let mut executor = TreeExecutor {
            tree,
            store,
            inflight: Vec::new(),
            nodes0: Ghost(tree.nodes()),
            edges0: Ghost(tree.edges()),
            jobs0: Ghost(jobs),
            emitted: Ghost(0),
            handed: Ghost(Set::empty()),
        };
        proof {
            tree.lemma_wf();
            assert forall|n: usize| tree.ready(n) == crate::schedule::no_pred(tree.edges(), n) by {}
            assert(tree.roots() =~= Set::new(
                |n: usize| tree.nodes().contains(n) && crate::schedule::no_pred(tree.edges(), n),
            ));
            crate::schedule::lemma_begin(tree.nodes(), tree.edges(), ids_of(ready@));
            assert(executor.model(ids_of(ready@)) == crate::schedule::begin(
                tree.nodes(),
                tree.edges(),
                ids_of(ready@),
            ));
            assert forall|k: int| 0 <= k < ready@.len() implies (#[trigger] ready@[k]).1@
                == executor.jobs0@[ready@[k].0] by {
                lemma_cloned(tree.item(ready@[k].0), ready@[k].1);
                assert(ids_of(ready@)[k] == ready@[k].0);
                assert(ids_of(ready@).contains(ready@[k].0));
                assert(ids_of(ready@).to_set().contains(ready@[k].0));
            }
        }
        let (dispatch, Ghost(settled), Ghost(launched)) = executor.dispatch(ready, Vec::new());
        proof {
            assert(ids_of(dispatch.outcomes@) =~= settled);
            assert(ids_of(dispatch.launches@) =~= launched);
            assert(executor.inflight@ =~= launched);
        }
        (executor, dispatch)
    }

    /// Takes the report that the step of node `id` has finished, with its
    /// outcome and the entries it hands in, and looks at the nodes that can run
    /// because of that.
    ///
    /// The entries are inserted, the node is done, and its outcome is the first
    /// of the result. A report for a node whose step is not running changes
    /// nothing and gives an empty result.
    pub fn complete(&mut self, id: usize, outcome: Outcome, entries: Entries) -> (d: Dispatch)
        requires
            old(self).wf(),
        ensures
            final(self).wf(),
            final(self).nodes() == old(self).nodes(),
            final(self).edges() == old(self).edges(),
            forall|n: usize| final(self).job(n) == old(self).job(n),
            !old(self).running().contains(id) ==> {
                &&& final(self).remaining() == old(self).remaining()
                &&& final(self).running() == old(self).running()
                &&& final(self).values() == old(self).values()
                &&& final(self).handed() == old(self).handed()
                &&& final(self).emitted() == old(self).emitted()
                &&& d.outcomes@.len() == 0
                &&& d.launches@.len() == 0
            },
            old(self).running().contains(id) ==> {
                &&& final(self).values() == insert_all_spec(
                    old(self).values(),
                    entries_view(entries@),
                )
                &&& final(self).handed() == old(self).handed().union(
                    entry_keys(entries_view(entries@)),
                )
                &&& final(self).emitted() == old(self).emitted() + d.outcomes@.len()
                &&& d.outcomes@.len() >= 1
                &&& d.outcomes@[0] == (id, outcome)
                &&& ids_of(d.outcomes@).no_duplicates()
                &&& forall|n: usize| #[trigger]
                    final(self).remaining().contains(n) <==> old(self).remaining().contains(n)
                        && !ids_of(d.outcomes@).contains(n)
                &&& forall|k: int|
                    0 <= k < d.outcomes@.len() ==> old(self).remaining().contains(
                        (#[trigger] d.outcomes@[k]).0,
                    )
                &&& forall|k: int|
                    1 <= k < d.outcomes@.len() ==> settled_outcome(
                        final(self).job((#[trigger] d.outcomes@[k]).0),
                        final(self).values(),
                    ) == Some(d.outcomes@[k].1@)
                &&& final(self).running().no_duplicates()
                &&& forall|n: usize|
                    final(self).running().contains(n) <==> (old(self).running().contains(n) && n
                        != id) || ids_of(d.launches@).contains(n)
                &&& forall|k: int|
                    0 <= k < d.launches@.len() ==> {
                        &&& !old(self).running().contains((#[trigger] d.launches@[k]).0)
                        &&& evaluate_spec(
                            final(self).job(d.launches@[k].0),
                            answers_of(final(self).values()),
                        ) == EvaluationView::Run(d.launches@[k].1@)
                    }
            },
    {
        proof {
            old(self).lemma_running();
        }
        if !take_out(&mut self.inflight, id) {
            return Dispatch { outcomes: Vec::new(), launches: Vec::new() };
        }
        proof {
            lemma_insert_all_keys(self.store@, entries_view(entries@));
            old(self).tree.lemma_wf();
        }
        self.store.insert_all(entries);
        self.handed = Ghost(self.handed@.union(entry_keys(entries_view(entries@))));
        let mut outcomes: Vec<(usize, Outcome)> = Vec::new();
        outcomes.push((id, outcome));
        let children = self.tree.after(id);
        self.emitted = Ghost(self.emitted@ + 1);
        let ghost kids = ids_of(children@);
        let ghost mid = *self;
        let ghost given = outcomes@;
        assert(given.len() == 1 && given[0] == (id, outcome));
        proof {
            lemma_jobs_stay(old(self).tree, self.tree, self.jobs0@, id, children@);
            lemma_finish(old(self).model(Seq::empty()), id, kids, self.model(kids));
        }
        let (d, Ghost(settled), Ghost(launched)) = self.dispatch(children, outcomes);
        proof {
            let ids = ids_of(d.outcomes@);
            assert(d.outcomes@[0] == given[0]);
            assert forall|k: int| 0 <= k < ids.len() implies ids[k] == (seq![id] + settled)[k] by {
                if k >= 1 {
                    assert(d.outcomes@[k].0 == settled[k - 1]);
                }
            }
            assert(ids =~= seq![id] + settled);
            assert(ids_of(d.launches@) =~= launched);
            assert(ids.no_duplicates()) by {
                assert forall|i: int, j: int| 0 <= i < j < ids.len() implies ids[i] != ids[j] by {
                    if i == 0 {
                        assert(mid.tree.nodes().contains(settled[j - 1]));
                    } else {
                        assert(settled[i - 1] != settled[j - 1]);
                    }
                }
            }
            assert forall|n: usize| ids.contains(n) <==> n == id || settled.contains(n) by {
                if ids.contains(n) {
                    let i = choose|i: int| 0 <= i < ids.len() && ids[i] == n;
                    if i > 0 {
                        assert(settled[i - 1] == n);
                    }
                }
                if settled.contains(n) {
                    let i = choose|i: int| 0 <= i < settled.len() && settled[i] == n;
                    assert(ids[i + 1] == n);
                }
                if n == id {
                    assert(ids[0] == n);
                }
            }
            assert forall|k: int| 0 <= k < d.outcomes@.len() implies old(self).tree.nodes().contains(
                (#[trigger] d.outcomes@[k]).0,
            ) by {
                if k > 0 {
                    assert(d.outcomes@[k].0 == settled[k - 1]);
                    assert(mid.tree.nodes().contains(settled[k - 1]));
                }
            }
            assert forall|n: usize| #[trigger]
                self.inflight@.contains(n) <==> mid.inflight@.contains(n) || launched.contains(
                    n,
                ) by {
                if self.inflight@.contains(n) {
                    let i = choose|i: int| 0 <= i < self.inflight@.len() && self.inflight@[i] == n;
                    if i < mid.inflight@.len() {
                        assert(mid.inflight@[i] == n);
                        assert(mid.inflight@.contains(n));
                    } else {
                        assert(launched[i - mid.inflight@.len()] == n);
                    }
                }
                if mid.inflight@.contains(n) {
                    let i = choose|i: int| 0 <= i < mid.inflight@.len() && mid.inflight@[i] == n;
                    assert(self.inflight@[i] == n);
                }
                if launched.contains(n) {
                    let i = choose|i: int| 0 <= i < launched.len() && launched[i] == n;
                    assert(self.inflight@[mid.inflight@.len() + i] == n);
                }
            }
            assert forall|n: usize|
                self.running().contains(n) <==> (old(self).running().contains(n) && n != id)
                    || ids_of(d.launches@).contains(n) by {
                assert(mid.inflight@.contains(n) <==> old(self).inflight@.contains(n) && n != id);
                assert(self.inflight@.contains(n) <==> mid.inflight@.contains(n)
                    || launched.contains(n));
            }
            self.lemma_running();
            assert forall|k: int| 0 <= k < d.launches@.len() implies !old(self).running().contains(
                (#[trigger] d.launches@[k]).0,
            ) by {
                let n = d.launches@[k].0;
                assert(launched[k] == n);
                assert(self.inflight@[mid.inflight@.len() + k] == n);
                if old(self).inflight@.contains(n) {
                    if n == id {
                        assert(self.tree.nodes().contains(self.inflight@[mid.inflight@.len() + k]));
                    } else {
                        assert(mid.inflight@.contains(n));
                        let i = choose|i: int|
                            0 <= i < mid.inflight@.len() && mid.inflight@[i] == n;
                        assert(self.inflight@[i] == n);
                    }
                }
            }
        }
        d
    }

    /// No step runs twice at a time, and what runs is left in the plan.
    proof fn lemma_running(&self)
        requires
            self.wf(),
        ensures
            self.inflight@.no_duplicates(),
            forall|i: int|
                0 <= i < self.inflight@.len() ==> self.tree.nodes().contains(
                    #[trigger] self.inflight@[i],
                ),
    {
        crate::schedule::lemma_flying(self.model(Seq::empty()));
    }

    /// A node whose step is running is a node of the plan that is not done.
    pub proof fn law_running(&self, n: usize)
        requires
            self.wf(),
            self.running().contains(n),
        ensures
            self.nodes().contains(n),
            self.remaining().contains(n),
    {
        self.lemma_running();
        crate::schedule::lemma_flying(self.model(Seq::empty()));
        let i = choose|i: int| 0 <= i < self.inflight@.len() && self.inflight@[i] == n;
        assert(self.tree.nodes().contains(self.inflight@[i]));
    }

    /// Returns `true` if no step is running: the run is over.
    pub fn is_finished(&self) -> (b: bool)
        ensures
            b == (self.running().len() == 0),
    {
        self.inflight.len() == 0
    }

    /// Count the nodes that are not done yet.
    pub fn count(&self) -> (n: usize)
        requires
            self.wf(),
        ensures
            n == self.remaining().len(),
    {
        self.tree.count()
    }

    /// The values that finished steps left.
    pub fn store(&self) -> (store: &DependencyHashMap)
        requires
            self.wf(),
        ensures
            store@ == self.values(),
            store.distinct(),
    {
        &self.store
    }

    /// Topological execution: a node whose step was started, or that is
    /// done, has nothing before it in the plan that is not done.
    pub proof fn law_topological(&self, a: usize, b: usize)
        requires
            self.wf(),
            self.edges().contains((a, b)),
            self.done(b) || self.running().contains(b),
        ensures
            self.done(a),
    {
        lemma_topological(self.model(Seq::empty()), a, b);
    }

    /// Completeness: once no step is running, every node of the plan is done,
    /// and as many outcomes were handed out as the plan has nodes.
    pub proof fn law_complete(&self)
        requires
            self.wf(),
            self.running().len() == 0,
        ensures
            self.remaining() == Set::<usize>::empty(),
            self.emitted() == self.nodes().len(),
    {
        lemma_complete(self.model(Seq::empty()));
    }

    /// No phantom inserts: the executor holds a value for a key only where a
    /// finished step handed one in. So where the steps handed in nothing but
    /// what the steps of the plan pledge, then, once no step is running, every
    /// key with a value is one that a step that is done has pledged.
    pub proof fn law_no_phantom(&self, k: DependencyView)
        requires
            self.wf(),
            self.values().dom().contains(k),
        ensures
            self.handed().contains(k),
            self.handed().subset_of(self.pledged_keys()) && self.running().len() == 0
                ==> exists|n: usize| self.done(n) && #[trigger] pledged(self.job(n)).contains(k),
    {
        if self.handed().subset_of(self.pledged_keys()) && self.running().len() == 0 {
            self.law_complete();
            assert(self.pledged_keys().contains(k));
            let n = choose|n: usize|
                self.nodes().contains(n) && #[trigger] pledged(self.job(n)).contains(k);
            assert(self.done(n));
        }
    }
}

} // verus!
