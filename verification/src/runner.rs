//! Running a plan: the scheduler together with the steps that are under way.
//!
//! A [`Runner`] keeps each step from its start to its end. The caller sends
//! the requests and hands back what came back; it never hands in entries of
//! its own. So every value of a run comes from a step of the plan.
use crate::dependency::{entries_view, DependencyView};
use crate::dependency_tree::{ids_of, DependencyTree};
use crate::effect::{Outcome, OutcomeView};
use crate::exec_step::{advance_spec, lemma_entries_in_chain, origin, reads_body_spec};
use crate::exec_step::{start, start_spec};
use crate::exec_step::{Event, Progress, ProgressView, StepRun};
use crate::exec_tree::{settled_outcome, Dispatch, TreeExecutor};
use crate::plan::{is_plan_of, lemma_plan_pledges_chains, Layout};
use crate::request_builder::Request;
use crate::spec::Manifest;
use crate::state::{entry_keys, insert_all_spec, DependencyHashMap};
use crate::step::BodyKind;
use crate::steps::{answers_of, chain_keys, evaluate_spec, lemma_run_keeps_step, pending_of};
use crate::steps::{pledged, EvaluationView, PendingStep, PendingStepView, Step};
use vstd::prelude::*;

verus! {

/// What the caller is to do: report the outcomes, then send the request, if
/// there is one, and hand back what came back for its node.
#[derive(Debug, PartialEq, Eq)]
pub struct Turn {
    pub outcomes: Vec<(usize, Outcome)>,
    pub send: Option<(usize, Request, BodyKind)>,
}

/// A run of a plan: the scheduler, the steps that can start, and the steps
/// whose answer is awaited.
pub struct Runner {
    scheduler: TreeExecutor,
    awaited: Vec<(usize, StepRun)>,
    ready: Vec<(usize, Step)>,
}

/// The key belongs to the chain of a step of the plan.
pub open spec fn in_chains(scheduler: TreeExecutor, k: DependencyView) -> bool {
    exists|n: usize|
        scheduler.nodes().contains(n) && #[trigger] chain_keys(scheduler.job(n)).contains(k)
}

/// `i` is the first place at which `id` stands.
pub open spec fn first_at(ids: Seq<usize>, id: usize, i: int) -> bool {
    0 <= i < ids.len() && ids[i] == id && forall|j: int| 0 <= j < i ==> ids[j] != id
}

/// What the end of the step of node `id` does to the scheduler: the entries
/// are inserted, and the node's outcome is the first of those handed out.
/// The others are those of the nodes that are done because of that, without
/// running. A node whose step is not running changes nothing.
pub open spec fn ended(
    before: TreeExecutor,
    after: TreeExecutor,
    id: usize,
    outcome: OutcomeView,
    entries: Seq<(DependencyView, Seq<char>)>,
    outcomes: Seq<(usize, Outcome)>,
) -> bool {
    if before.running().contains(id) {
        &&& after.values() == insert_all_spec(before.values(), entries)
        &&& after.emitted() == before.emitted() + outcomes.len()
        &&& outcomes.len() >= 1
        &&& outcomes[0].0 == id
        &&& outcomes[0].1@ == outcome
        &&& ids_of(outcomes).no_duplicates()
        &&& forall|k: int|
            1 <= k < outcomes.len() ==> before.remaining().contains((#[trigger] outcomes[k]).0)
                && settled_outcome(after.job(outcomes[k].0), after.values()) == Some(
                outcomes[k].1@,
            )
        &&& forall|n: usize| #[trigger]
            after.remaining().contains(n) <==> before.remaining().contains(n) && !ids_of(
                outcomes,
            ).contains(n)
    } else {
        &&& after.values() == before.values()
        &&& after.emitted() == before.emitted()
        &&& outcomes.len() == 0
    }
}

/// What follows for a run when the step of node `id` comes to `progress`.
///
/// A request to send is handed out, and the step is awaited. A step that is
/// over is reported to the scheduler; the steps that can start because of
/// that come after those that could start before.
pub open spec fn follows(
    scheduler: TreeExecutor,
    ready: Seq<(usize, Step)>,
    awaited: Seq<(usize, StepRun)>,
    after: Runner,
    id: usize,
    progress: ProgressView,
    turn: Turn,
) -> bool {
    &&& after.scheduler().nodes() == scheduler.nodes()
    &&& after.scheduler().edges() == scheduler.edges()
    &&& forall|n: usize| after.scheduler().job(n) == scheduler.job(n)
    &&& match progress {
        ProgressView::Send { run, request, expects } => {
            &&& turn.outcomes@.len() == 0
            &&& turn.send matches Some(s) && s.0 == id && s.1@ == request && s.2 == expects
            &&& after.scheduler() == scheduler
            &&& after.ready() == ready
            &&& after.awaited().len() == awaited.len() + 1
            &&& after.awaited().drop_last() == awaited
            &&& after.awaited().last().0 == id
            &&& after.awaited().last().1@ == run
        },
        ProgressView::Finish { outcome, entries } => {
            &&& turn.send is None
            &&& after.awaited() == awaited
            &&& ended(scheduler, after.scheduler(), id, outcome, entries, turn.outcomes@)
            &&& after.ready().len() >= ready.len()
            &&& after.ready().take(ready.len() as int) == ready
            &&& forall|i: int|
                ready.len() <= i < after.ready().len() ==> evaluate_spec(
                    after.scheduler().job((#[trigger] after.ready()[i]).0),
                    answers_of(after.scheduler().values()),
                ) == EvaluationView::Run(after.ready()[i].1@)
        },
    }
}

impl Runner {
    /// The scheduler of the run.
    pub closed spec fn scheduler(&self) -> TreeExecutor {
        self.scheduler
    }

    /// The steps that can start, each with its node: the next one is the last.
    pub closed spec fn ready(&self) -> Seq<(usize, Step)> {
        self.ready@
    }

    /// The steps whose answer is awaited, each with its node.
    pub closed spec fn awaited(&self) -> Seq<(usize, StepRun)> {
        self.awaited@
    }

    /// The pending step is that of node `id` of the plan.
    closed spec fn of_plan(&self, id: usize, job: PendingStepView) -> bool {
        self.scheduler.nodes().contains(id) && self.scheduler.job(id) == job
    }

    /// What holds of every run between two calls: the steps that it keeps are
    /// steps of the plan, and so far only steps of the plan handed in values.
    pub closed spec fn wf(&self) -> bool {
        &&& self.scheduler.wf()
        &&& forall|k: DependencyView| #[trigger]
            self.scheduler.handed().contains(k) ==> in_chains(self.scheduler, k)
        &&& forall|i: int|
            0 <= i < self.awaited@.len() ==> self.of_plan(
                (#[trigger] self.awaited@[i]).0,
                origin(self.awaited@[i].1@),
            )
        &&& forall|i: int|
            0 <= i < self.ready@.len() ==> self.of_plan(
                (#[trigger] self.ready@[i]).0,
                pending_of(self.ready@[i].1@),
            )
    }

    /// Takes over a plan and looks at its roots: the outcomes of the nodes
    /// that are done by this are handed back, and the steps of the other
    /// roots can start.
    pub fn new(tree: DependencyTree<PendingStep>) -> (r: (Runner, Vec<(usize, Outcome)>))
        requires
            tree.wf(),
        ensures
            r.0.wf(),
            r.0.scheduler().nodes() == tree.nodes(),
            r.0.scheduler().edges() == tree.edges(),
            forall|n: usize|
                tree.nodes().contains(n) ==> r.0.scheduler().job(n) == #[trigger] tree.item(n)@,
            r.0.scheduler().values() == Map::<DependencyView, Seq<char>>::empty(),
            r.0.scheduler().emitted() == r.1@.len(),
            ids_of(r.1@).no_duplicates(),
            forall|n: usize| #[trigger]
                r.0.scheduler().remaining().contains(n) <==> tree.nodes().contains(n) && !ids_of(
                    r.1@,
                ).contains(n),
            forall|k: int|
                0 <= k < r.1@.len() ==> tree.nodes().contains((#[trigger] r.1@[k]).0)
                    && settled_outcome(
                    r.0.scheduler().job(r.1@[k].0),
                    r.0.scheduler().values(),
                ) == Some(r.1@[k].1@),
            r.0.scheduler().running() == ids_of(r.0.ready()),
            r.0.awaited().len() == 0,
            forall|k: int|
                0 <= k < r.0.ready().len() ==> evaluate_spec(
                    r.0.scheduler().job((#[trigger] r.0.ready()[k]).0),
                    answers_of(r.0.scheduler().values()),
                ) == EvaluationView::Run(r.0.ready()[k].1@),
    {
        let (scheduler, dispatch) = TreeExecutor::new(tree);
        let Dispatch { outcomes, launches } = dispatch;
        let runner = Runner { scheduler, awaited: Vec::new(), ready: launches };
        proof {
            assert forall|i: int| 0 <= i < runner.ready@.len() implies runner.of_plan(
                (#[trigger] runner.ready@[i]).0,
                pending_of(runner.ready@[i].1@),
            ) by {
                let id = runner.ready@[i].0;
                assert(ids_of(runner.ready@)[i] == id);
                runner.scheduler.law_running(id);
                lemma_run_keeps_step(
                    runner.scheduler.job(id),
                    answers_of(runner.scheduler.values()),
                    runner.ready@[i].1@,
                );
            }
        }
        (runner, outcomes)
    }

    /// Takes what the step of node `id` has come to.
    fn take(&mut self, id: usize, progress: Progress) -> (turn: Turn)
        requires
            old(self).wf(),
            old(self).scheduler.nodes().contains(id),
            match progress@ {
                ProgressView::Send { run, .. } => origin(run) == old(self).scheduler.job(id),
                ProgressView::Finish { entries, .. } => forall|i: int|
                    0 <= i < entries.len() ==> chain_keys(old(self).scheduler.job(id)).contains(
                        (#[trigger] entries[i]).0,
                    ),
            },
        ensures
            final(self).wf(),
            follows(
                old(self).scheduler,
                old(self).ready@,
                old(self).awaited@,
                *final(self),
                id,
                progress@,
                turn,
            ),
    {
        let ghost shown = progress@;
        match progress {
            Progress::Send { run, request, expects } => {
                self.awaited.push((id, run));
                assert(self.awaited@.drop_last() =~= old(self).awaited@);
                Turn { outcomes: Vec::new(), send: Some((id, request, expects)) }
            },
            Progress::Finish { outcome, entries } => {
                let ghost given = entries_view(entries@);
                let dispatch = self.scheduler.complete(id, outcome, entries);
                let Dispatch { outcomes, launches } = dispatch;
                let mut launches = launches;
                let ghost started = launches@;
                let ghost before = self.ready@;
                self.ready.append(&mut launches);
                proof {
                    assert(self.ready@ =~= before + started);
                    assert(self.ready@.take(before.len() as int) =~= before);
                    assert forall|k: DependencyView| #[trigger]
                        self.scheduler.handed().contains(k) implies in_chains(
                        self.scheduler,
                        k,
                    ) by {
                        if old(self).scheduler.handed().contains(k) {
                            assert(in_chains(old(self).scheduler, k));
                            let n = choose|n: usize|
                                old(self).scheduler.nodes().contains(n) && #[trigger] chain_keys(
                                    old(self).scheduler.job(n),
                                ).contains(k);
                            assert(chain_keys(self.scheduler.job(n)).contains(k));
                        } else {
                            assert(entry_keys(given).contains(k));
                            let keys = given.map_values(|e: (DependencyView, Seq<char>)| e.0);
                            let i = choose|i: int| 0 <= i < keys.len() && keys[i] == k;
                            assert(given[i].0 == k);
                            assert(shown->entries == given);
                            assert(chain_keys(old(self).scheduler.job(id)).contains(
                                shown->entries[i].0,
                            ));
                            assert(chain_keys(self.scheduler.job(id)).contains(k));
                        }
                    }
                    assert forall|i: int| 0 <= i < self.awaited@.len() implies self.of_plan(
                        (#[trigger] self.awaited@[i]).0,
                        origin(self.awaited@[i].1@),
                    ) by {
                        assert(old(self).of_plan(
                            old(self).awaited@[i].0,
                            origin(old(self).awaited@[i].1@),
                        ));
                    }
                    assert forall|i: int| 0 <= i < self.ready@.len() implies self.of_plan(
                        (#[trigger] self.ready@[i]).0,
                        pending_of(self.ready@[i].1@),
                    ) by {
                        if i < before.len() {
                            assert(old(self).of_plan(
                                old(self).ready@[i].0,
                                pending_of(old(self).ready@[i].1@),
                            ));
                        } else {
                            let at = i - before.len();
                            let node = started[at].0;
                            assert(self.ready@[i] == started[at]);
                            assert(ids_of(started)[at] == node);
                            assert(ids_of(started).contains(node));
                            self.scheduler.law_running(node);
                            lemma_run_keeps_step(
                                self.scheduler.job(node),
                                answers_of(self.scheduler.values()),
                                started[at].1@,
                            );
                        }
                    }
                    assert forall|i: int| before.len() <= i < self.ready@.len() implies evaluate_spec(
                        self.scheduler.job((#[trigger] self.ready@[i]).0),
                        answers_of(self.scheduler.values()),
                    ) == EvaluationView::Run(self.ready@[i].1@) by {
                        let at = i - before.len();
                        assert(self.ready@[i] == started[at]);
                    }
                }
                Turn { outcomes, send: None }
            },
        }
    }

    /// Starts the next step that can start, if there is one.
    ///
    /// Its search is handed out to be sent; a step whose search has no URL is
    /// over at once.
    pub fn next(&mut self) -> (turn: Turn)
        requires
            old(self).wf(),
        ensures
            final(self).wf(),
            old(self).ready().len() == 0 ==> {
                &&& turn.outcomes@.len() == 0
                &&& turn.send is None
                &&& final(self).scheduler() == old(self).scheduler()
                &&& final(self).ready() == old(self).ready()
                &&& final(self).awaited() == old(self).awaited()
            },
            old(self).ready().len() > 0 ==> follows(
                old(self).scheduler(),
                old(self).ready().drop_last(),
                old(self).awaited(),
                *final(self),
                old(self).ready().last().0,
                start_spec(old(self).ready().last().1@),
                turn,
            ),
    {
        match self.ready.pop() {
            None => Turn { outcomes: Vec::new(), send: None },
            Some((id, step)) => {
                proof {
                    assert(old(self).of_plan(
                        old(self).ready@.last().0,
                        pending_of(old(self).ready@.last().1@),
                    ));
                    assert forall|i: int| 0 <= i < self.ready@.len() implies self.of_plan(
                        (#[trigger] self.ready@[i]).0,
                        pending_of(self.ready@[i].1@),
                    ) by {
                        assert(old(self).of_plan(
                            old(self).ready@[i].0,
                            pending_of(old(self).ready@[i].1@),
                        ));
                    }
                    assert(self.ready@ =~= old(self).ready@.drop_last());
                }
                let progress = start(step);
                self.take(id, progress)
            },
        }
    }

    /// The first place at which a step is awaited for node `id`.
    fn place(&self, id: usize) -> (at: Option<usize>)
        ensures
            match at {
                Some(i) => first_at(ids_of(self.awaited@), id, i as int),
                None => !ids_of(self.awaited@).contains(id),
            },
    {
        let mut i: usize = 0;
        while i < self.awaited.len()
            invariant
                i <= self.awaited@.len(),
                forall|j: int| 0 <= j < i ==> ids_of(self.awaited@)[j] != id,
            decreases self.awaited@.len() - i,
        {
            if self.awaited[i].0 == id {
                assert(ids_of(self.awaited@)[i as int] == id);
                return Some(i);
            }
            i += 1;
        }
        proof {
            if ids_of(self.awaited@).contains(id) {
                let j = choose|j: int|
                    0 <= j < ids_of(self.awaited@).len() && ids_of(self.awaited@)[j] == id;
                assert(ids_of(self.awaited@)[j] != id);
            }
        }
        None
    }

    /// Whether the step that is awaited for node `id` looks at the body of a
    /// response with this status. Where none is awaited, no body is looked at.
    pub fn reads_body(&self, id: usize, status: u16) -> (b: bool)
        ensures
            !ids_of(self.awaited()).contains(id) ==> !b,
            forall|i: int|
                first_at(ids_of(self.awaited()), id, i) ==> b == reads_body_spec(
                    self.awaited()[i].1@,
                    status,
                ),
    {
        match self.place(id) {
            Some(i) => {
                proof {
                    assert forall|k: int| first_at(ids_of(self.awaited@), id, k) implies k == i by {
                        if k < i {
                            assert(ids_of(self.awaited@)[k] != id);
                        }
                    }
                }
                self.awaited[i].1.reads_body(status)
            },
            None => false,
        }
    }

    /// Takes what came back for the request that was sent last for node `id`,
    /// and says what to do next. Where no step is awaited for the node,
    /// nothing happens.
    pub fn answer(&mut self, id: usize, event: Event) -> (turn: Turn)
        requires
            old(self).wf(),
        ensures
            final(self).wf(),
            !ids_of(old(self).awaited()).contains(id) ==> {
                &&& turn.outcomes@.len() == 0
                &&& turn.send is None
                &&& final(self).scheduler() == old(self).scheduler()
                &&& final(self).ready() == old(self).ready()
                &&& final(self).awaited() == old(self).awaited()
            },
            forall|i: int|
                first_at(ids_of(old(self).awaited()), id, i) ==> follows(
                    old(self).scheduler(),
                    old(self).ready(),
                    old(self).awaited().remove(i),
                    *final(self),
                    id,
                    advance_spec(old(self).awaited()[i].1@, event@),
                    turn,
                ),
    {
        let i = match self.place(id) {
            Some(i) => i,
            None => {
                return Turn { outcomes: Vec::new(), send: None };
            },
        };
        let ghost place = i as int;
        assert(ids_of(self.awaited@)[place] == id);
        assert(first_at(ids_of(old(self).awaited@), id, place));
        let (_, run) = self.awaited.remove(i);
        proof {
            assert(old(self).of_plan(old(self).awaited@[place].0, origin(old(self).awaited@[place].1@)));
            assert forall|j: int| 0 <= j < self.awaited@.len() implies self.of_plan(
                (#[trigger] self.awaited@[j]).0,
                origin(self.awaited@[j].1@),
            ) by {
                let from = if j < place {
                    j
                } else {
                    j + 1
                };
                assert(self.awaited@[j] == old(self).awaited@[from]);
                assert(old(self).of_plan(
                    old(self).awaited@[from].0,
                    origin(old(self).awaited@[from].1@),
                ));
            }
            lemma_entries_in_chain(run@, event@);
        }
        let progress = run.advance(event);
        let turn = self.take(id, progress);
        proof {
            assert forall|k: int| first_at(ids_of(old(self).awaited@), id, k) implies k == place by {
                if k < place {
                    assert(ids_of(old(self).awaited@)[k] != id);
                }
            }
        }
        turn
    }

    /// Returns `true` if the run is over: no step can start, and none is
    /// awaited.
    pub fn is_finished(&self) -> (b: bool)
        ensures
            b == (self.ready().len() == 0 && self.awaited().len() == 0),
    {
        self.ready.len() == 0 && self.awaited.len() == 0
    }

    /// The values that finished steps left.
    pub fn store(&self) -> (store: &DependencyHashMap)
        requires
            self.wf(),
        ensures
            store@ == self.scheduler().values(),
            store.distinct(),
    {
        self.scheduler.store()
    }

    /// The scheduler of a run is in order: what holds of every scheduler
    /// holds of it.
    pub proof fn lemma_scheduler(&self)
        requires
            self.wf(),
        ensures
            self.scheduler().wf(),
    {
    }

    /// No phantom inserts: every key that a run holds a value for belongs to
    /// the chain of a step of the plan.
    pub proof fn law_no_phantom(&self, k: DependencyView)
        requires
            self.wf(),
            self.scheduler().values().dom().contains(k),
        ensures
            in_chains(self.scheduler(), k),
    {
        self.scheduler.law_no_phantom(k);
    }

    /// No phantom inserts, for the plan of a manifest: every key that a run
    /// holds a value for was pledged by a step of the plan; and once no step
    /// is running, by a step that is done.
    pub proof fn law_no_phantom_in_plan(
        &self,
        tree: DependencyTree<PendingStep>,
        m: Manifest,
        lay: Layout,
        k: DependencyView,
    )
        requires
            self.wf(),
            is_plan_of(tree, m, lay, m.user@.len() as int, m.plugins@.len() as int),
            self.scheduler().nodes() == tree.nodes(),
            forall|n: usize|
                tree.nodes().contains(n) ==> self.scheduler().job(n) == #[trigger] tree.item(n)@,
            self.scheduler().values().dom().contains(k),
        ensures
            exists|p: usize|
                self.scheduler().nodes().contains(p) && #[trigger] pledged(
                    self.scheduler().job(p),
                ).contains(k),
            self.scheduler().running().len() == 0 ==> exists|p: usize|
                self.scheduler().done(p) && #[trigger] pledged(self.scheduler().job(p)).contains(k),
    {
        self.law_no_phantom(k);
        let n = choose|n: usize|
            self.scheduler.nodes().contains(n) && #[trigger] chain_keys(
                self.scheduler.job(n),
            ).contains(k);
        assert(tree.item(n)@ == self.scheduler.job(n));
        lemma_plan_pledges_chains(tree, m, lay, n, k);
        let p = choose|p: usize|
            tree.nodes().contains(p) && #[trigger] pledged(tree.item(p)@).contains(k);
        assert(pledged(self.scheduler.job(p)).contains(k));
        if self.scheduler.running().len() == 0 {
            self.scheduler.law_complete();
            assert(self.scheduler.done(p));
        }
    }
}

} // verus!
