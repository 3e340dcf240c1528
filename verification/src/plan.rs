//! The planner: turns a manifest into the graph of steps that bring the
//! backend to what the manifest asks for.
use crate::dependency::{keys_view, Dependency, DependencyView};
use crate::dependency_spy::dependencies_of;
use crate::dependency_tree::{DependencyTree, TreeBuilder};
use crate::plugin_spec::{PluginSpec, PluginSpecView};
use crate::provided::keys_into_vec;
use crate::spec::{opt_credentials, opt_text, opt_url, Manifest};
use crate::steps::{chain_keys, clone_names, dependencies_spec, names_view, pledged};
use crate::steps::{reads_spec, spy_answers};
use crate::steps::{PendingStep, PendingStepView, PluginTask, PluginTaskView};
use crate::steps::{CubeTask, CubeTaskView, UserTask, UserTaskView};
use vstd::prelude::*;

verus! {

/// The keys that a pending step depends on, family by family.
pub proof fn lemma_dependencies(ps: PendingStepView, k: DependencyView)
    requires
        dependencies_spec(ps).contains(k),
    ensures
        match ps {
            PendingStepView::UserExists(t) => false,
            PendingStepView::UserGetAuthToken(t) => k == DependencyView::UserExists(t.username),
            PendingStepView::UserGetUrl(t) => k == DependencyView::UserExists(t.username) || k
                == DependencyView::AuthToken(t.username),
            PendingStepView::UserGetDetails(t) => k == DependencyView::UserExists(t.username) || k
                == DependencyView::UserUrl(t.username) || k == DependencyView::AuthToken(
                t.username,
            ),
            PendingStepView::UserDetailsFinalize(t) => k == DependencyView::UserExists(t.username)
                || k == DependencyView::UserUrl(t.username) || k == DependencyView::AuthToken(
                t.username,
            ) || k == DependencyView::UserEmail(t.username),
            PendingStepView::PluginFindInLocal(t) => false,
            PendingStepView::PluginFindInPeer(t) => k == DependencyView::PluginCheckedInLocal(
                t.plugin,
            ),
            PendingStepView::PluginAddFromPeer(t) => k == DependencyView::PluginCheckedInLocal(
                t.plugin,
            ) || k == DependencyView::PluginPeerUrl(t.plugin) || (k
                == DependencyView::ComputeResourceAll && t.compute_names.len() == 0),
            PendingStepView::ComputeResourceGetAll(t) => false,
        },
{
    let reads = reads_spec(ps, spy_answers());
    let i = choose|i: int| 0 <= i < reads.len() && reads[i] == k;
    assert(reads[i] == k);
}

/// Every key that the step at node `n` depends on is pledged by a step that
/// the node has an edge from.
pub open spec fn covered(tree: DependencyTree<PendingStep>, n: usize) -> bool {
    forall|k: DependencyView| #[trigger]
        dependencies_spec(tree.item(n)@).contains(k) ==> exists|p: usize|
            tree.edges().contains((p, n)) && #[trigger] pledged(tree.item(p)@).contains(k)
}

/// Every node of the tree is covered.
pub open spec fn all_covered(tree: DependencyTree<PendingStep>) -> bool {
    forall|n: usize| #[trigger] tree.nodes().contains(n) ==> covered(tree, n)
}

/// The steps at `needs` pledge every key that the step depends on.
pub open spec fn covered_by(
    tree: DependencyTree<PendingStep>,
    step: PendingStepView,
    needs: Seq<usize>,
) -> bool {
    forall|k: DependencyView| #[trigger]
        dependencies_spec(step).contains(k) ==> pledged_by(tree, needs, k)
}

/// One of the steps at `needs` pledges the key.
pub open spec fn pledged_by(
    tree: DependencyTree<PendingStep>,
    needs: Seq<usize>,
    k: DependencyView,
) -> bool {
    exists|j: int| 0 <= j < needs.len() && #[trigger] pledged(tree.item(needs[j])@).contains(k)
}

/// Returns `true` if the key is in the list.
fn has_key(keys: &Vec<Dependency>, k: &Dependency) -> (b: bool)
    ensures
        b == keys_view(keys@).contains(k@),
{
    let mut i: usize = 0;
    while i < keys.len()
        invariant
            i <= keys@.len(),
            forall|j: int| 0 <= j < i ==> keys_view(keys@)[j] != k@,
        decreases keys@.len() - i,
    {
        if keys[i].same(k) {
            assert(keys_view(keys@)[i as int] == k@);
            return true;
        }
        i += 1;
    }
    false
}

/// Builds a plan node by node, and keeps to it that every step's dependencies
/// are pledged by the steps it is made to wait for.
pub struct PlanBuilder {
    builder: TreeBuilder<PendingStep>,
}

impl View for PlanBuilder {
    type V = DependencyTree<PendingStep>;

    /// The plan as built so far.
    closed spec fn view(&self) -> DependencyTree<PendingStep> {
        self.builder@
    }
}

impl PlanBuilder {
    /// An empty plan.
    pub fn new() -> (plan: Self)
        ensures
            plan@.wf(),
            all_covered(plan@),
            plan@.nodes() == Set::<usize>::empty(),
            plan@.edges() == Set::<(usize, usize)>::empty(),
    {
        PlanBuilder { builder: TreeBuilder::new() }
    }

    /// Adds a step that waits for the steps at `needs`, and returns the index
    /// of its node. The steps at `needs` must pledge what the new step
    /// depends on.
    pub fn add(&mut self, pending_step: PendingStep, needs: &Vec<usize>) -> (i: usize)
        requires
            old(self)@.wf(),
            all_covered(old(self)@),
            forall|j: int| 0 <= j < needs@.len() ==> old(self)@.nodes().contains(needs@[j]),
            covered_by(old(self)@, pending_step@, needs@),
        ensures
            final(self)@.wf(),
            all_covered(final(self)@),
            !old(self)@.nodes().contains(i),
            final(self)@.nodes() == old(self)@.nodes().insert(i),
            forall|a: usize, b: usize|
                final(self)@.edges().contains((a, b)) <==> old(self)@.edges().contains((a, b)) || (
                b == i && needs@.contains(a)),
            final(self)@.item(i)@ == pending_step@,
            forall|n: usize|
                old(self)@.nodes().contains(n) ==> final(self)@.item(n) == old(self)@.item(n),
    {
        proof {
            old(self)@.lemma_wf();
        }
        let i = self.builder.add(pending_step, needs);
        proof {
            let before = old(self)@;
            let after = self@;
            assert forall|n: usize| #[trigger] after.nodes().contains(n) implies covered(
                after,
                n,
            ) by {
                assert forall|k: DependencyView| #[trigger]
                    dependencies_spec(after.item(n)@).contains(k) implies exists|p: usize|
                    after.edges().contains((p, n)) && #[trigger] pledged(after.item(p)@).contains(
                        k,
                    ) by {
                    if n == i {
                        let j = choose|j: int|
                            0 <= j < needs@.len() && #[trigger] pledged(
                                before.item(needs@[j])@,
                            ).contains(k);
                        let p = needs@[j];
                        assert(needs@.contains(p));
                        assert(after.edges().contains((p, n)));
                        assert(pledged(after.item(p)@).contains(k));
                    } else {
                        assert(before.nodes().contains(n));
                        assert(covered(before, n));
                        let p = choose|p: usize|
                            before.edges().contains((p, n)) && #[trigger] pledged(
                                before.item(p)@,
                            ).contains(k);
                        assert(before.nodes().contains(p));
                        assert(after.edges().contains((p, n)));
                        assert(pledged(after.item(p)@).contains(k));
                    }
                }
            }
        }
        i
    }

    /// Get the keys that the steps at the given nodes pledge.
    pub fn provides(&self, needs: &Vec<usize>) -> (keys: Vec<Dependency>)
        requires
            self@.wf(),
            forall|j: int| 0 <= j < needs@.len() ==> self@.nodes().contains(needs@[j]),
        ensures
            forall|k: DependencyView|
                keys_view(keys@).contains(k) <==> pledged_by(self@, needs@, k),
    {
        let mut keys: Vec<Dependency> = Vec::new();
        let mut j: usize = 0;
        while j < needs.len()
            invariant
                j <= needs@.len(),
                self@.wf(),
                forall|x: int| 0 <= x < needs@.len() ==> self@.nodes().contains(needs@[x]),
                forall|k: DependencyView|
                    #![trigger keys_view(keys@).contains(k)]
                    #![trigger pledged_by(self@, needs@.take(j as int), k)]
                    keys_view(keys@).contains(k) <==> pledged_by(self@, needs@.take(j as int), k),
            decreases needs@.len() - j,
        {
            let step = self.builder.get(needs[j]).unwrap();
            let more = keys_into_vec(step.provides());
            let ghost before = keys_view(keys@);
            let ghost want = pledged(self@.item(needs@[j as int])@);
            assert(keys_view(more@) =~= want);
            assert forall|k: DependencyView| before.contains(k) <==> pledged_by(
                self@,
                needs@.take(j as int),
                k,
            ) by {}
            let mut t: usize = 0;
            while t < more.len()
                invariant
                    t <= more@.len(),
                    keys_view(more@) == want,
                    keys_view(keys@) == before + want.take(t as int),
                decreases more@.len() - t,
            {
                let ghost had = keys_view(keys@);
                keys.push(more[t].clone());
                proof {
                    assert(keys_view(more@)[t as int] == more@[t as int]@);
                    assert(keys_view(keys@) =~= had.push(want[t as int]));
                    assert(want.take(t + 1) =~= want.take(t as int).push(want[t as int]));
                    assert(keys_view(keys@) =~= before + want.take(t + 1));
                }
                t += 1;
            }
            proof {
                let now = keys_view(keys@);
                let done = needs@.take(j as int);
                let next = needs@.take(j + 1);
                assert(want.take(want.len() as int) =~= want);
                assert(now =~= before + want);
                assert forall|k: DependencyView|
                    #![trigger now.contains(k)]
                    #![trigger pledged_by(self@, next, k)]
                    now.contains(k) <==> pledged_by(
                    self@,
                    next,
                    k,
                ) by {
                    if now.contains(k) {
                        let i = choose|i: int| 0 <= i < now.len() && now[i] == k;
                        if i < before.len() {
                            assert(before[i] == k);
                            assert(before.contains(k));
                            let x = choose|x: int|
                                0 <= x < done.len() && #[trigger] pledged(
                                    self@.item(done[x])@,
                                ).contains(k);
                            assert(next[x] == done[x]);
                        } else {
                            assert(want[i - before.len()] == k);
                            assert(next[j as int] == needs@[j as int]);
                            assert(pledged(self@.item(next[j as int])@).contains(k));
                        }
                    }
                    if pledged_by(self@, next, k) {
                        let x = choose|x: int|
                            0 <= x < next.len() && #[trigger] pledged(
                                self@.item(next[x])@,
                            ).contains(k);
                        if x < j {
                            assert(done[x] == next[x]);
                            assert(pledged_by(self@, done, k));
                            assert(before.contains(k));
                            let i = choose|i: int| 0 <= i < before.len() && before[i] == k;
                            assert(now[i] == k);
                        } else {
                            let i = choose|i: int| 0 <= i < want.len() && want[i] == k;
                            assert(now[before.len() + i] == k);
                        }
                    }
                }
            }
            j += 1;
        }
        proof {
            assert(needs@.take(needs@.len() as int) =~= needs@);
        }
        keys
    }

    /// Adds a step that waits for the steps at `needs`, if each of `needs` is
    /// a node of the plan and the steps there pledge what the new step
    /// depends on. Otherwise the plan is left as it was.
    pub fn try_add(&mut self, pending_step: PendingStep, needs: &Vec<usize>) -> (r: Option<usize>)
        requires
            old(self)@.wf(),
            all_covered(old(self)@),
        ensures
            final(self)@.wf(),
            all_covered(final(self)@),
            r is Some <==> (forall|j: int|
                0 <= j < needs@.len() ==> old(self)@.nodes().contains(#[trigger] needs@[j]))
                && covered_by(old(self)@, pending_step@, needs@),
            r is None ==> final(self)@ == old(self)@,
            r matches Some(i) ==> {
                &&& !old(self)@.nodes().contains(i)
                &&& final(self)@.nodes() == old(self)@.nodes().insert(i)
                &&& forall|a: usize, b: usize|
                    final(self)@.edges().contains((a, b)) <==> old(self)@.edges().contains((a, b))
                        || (b == i && needs@.contains(a))
                &&& final(self)@.item(i)@ == pending_step@
                &&& forall|n: usize|
                    old(self)@.nodes().contains(n) ==> final(self)@.item(n) == old(self)@.item(n)
            },
    {
        let mut j: usize = 0;
        while j < needs.len()
            invariant
                j <= needs@.len(),
                self@ == old(self)@,
                old(self)@.wf(),
                all_covered(old(self)@),
                forall|x: int| 0 <= x < j ==> self@.nodes().contains(#[trigger] needs@[x]),
            decreases needs@.len() - j,
        {
            if !self.builder.contains_node(needs[j]) {
                return None;
            }
            j += 1;
        }
        let provided = self.provides(needs);
        let needed = dependencies_of(&pending_step);
        let mut t: usize = 0;
        while t < needed.len()
            invariant
                t <= needed@.len(),
                self@ == old(self)@,
                old(self)@.wf(),
                all_covered(old(self)@),
                forall|x: int|
                    0 <= x < needs@.len() ==> old(self)@.nodes().contains(#[trigger] needs@[x]),
                keys_view(needed@).to_set() == dependencies_spec(pending_step@),
                forall|k: DependencyView|
                    keys_view(provided@).contains(k) <==> pledged_by(self@, needs@, k),
                forall|x: int|
                    0 <= x < t ==> pledged_by(self@, needs@, #[trigger] keys_view(needed@)[x]),
            decreases needed@.len() - t,
        {
            let key = &needed[t];
            if !has_key(&provided, key) {
                proof {
                    let k = keys_view(needed@)[t as int];
                    assert(keys_view(needed@).to_set().contains(k));
                    assert(dependencies_spec(pending_step@).contains(k));
                    assert(!pledged_by(self@, needs@, k));
                }
                return None;
            }
            t += 1;
        }
        proof {
            assert forall|k: DependencyView| #[trigger]
                dependencies_spec(pending_step@).contains(k) implies pledged_by(self@, needs@, k) by {
                assert(keys_view(needed@).to_set().contains(k));
                let x = choose|x: int| 0 <= x < keys_view(needed@).len() && keys_view(needed@)[x] == k;
                assert(pledged_by(self@, needs@, keys_view(needed@)[x]));
            }
        }
        Some(self.add(pending_step, needs))
    }

    /// The plan that was built.
    pub fn build(self) -> (tree: DependencyTree<PendingStep>)
        ensures
            tree == self@,
    {
        self.builder.build()
    }
}

/// Which step of a user's chain stands at which place.
pub open spec fn user_step(r: int, t: UserTaskView) -> PendingStepView {
    if r == 0 {
        PendingStepView::UserExists(t)
    } else if r == 1 {
        PendingStepView::UserGetAuthToken(t)
    } else if r == 2 {
        PendingStepView::UserGetUrl(t)
    } else if r == 3 {
        PendingStepView::UserGetDetails(t)
    } else {
        PendingStepView::UserDetailsFinalize(t)
    }
}

/// Which step of a user's chain waits for which: the token waits for the
/// user to exist, everything else for the token; the details wait for the
/// URL, and the last step for the details.
pub open spec fn user_wire(a: int, b: int) -> bool {
    (a == 0 && b == 1) || (a == 1 && b == 2) || (a == 1 && b == 3) || (a == 2 && b == 3) || (a == 1
        && b == 4) || (a == 3 && b == 4)
}

/// Which step of a plugin's chain stands at which place.
pub open spec fn plugin_step(r: int, t: PluginTaskView) -> PendingStepView {
    if r == 0 {
        PendingStepView::PluginFindInLocal(t)
    } else if r == 1 {
        PendingStepView::PluginFindInPeer(t)
    } else {
        PendingStepView::PluginAddFromPeer(t)
    }
}

/// Which step of a plugin's chain waits for which: both later steps wait for
/// the search of the targeted backend, and the last one for the search of the
/// peer too.
pub open spec fn plugin_wire(a: int, b: int) -> bool {
    (a == 0 && b == 1) || (a == 0 && b == 2) || (a == 1 && b == 2)
}

/// A list of one node.
fn one(a: usize) -> (v: Vec<usize>)
    ensures
        v@ == seq![a],
        forall|x: usize| v@.contains(x) <==> x == a,
{
    let v = vec![a];
    assert(v@[0] == a);
    v
}

/// A list of two nodes.
fn two(a: usize, b: usize) -> (v: Vec<usize>)
    ensures
        v@ == seq![a, b],
        forall|x: usize| v@.contains(x) <==> x == a || x == b,
{
    let v = vec![a, b];
    assert(v@[0] == a && v@[1] == b);
    v
}

/// A list of three nodes.
fn three(a: usize, b: usize, c: usize) -> (v: Vec<usize>)
    ensures
        v@ == seq![a, b, c],
        forall|x: usize| v@.contains(x) <==> x == a || x == b || x == c,
{
    let v = vec![a, b, c];
    assert(v@[0] == a && v@[1] == b && v@[2] == c);
    v
}

/// Adds the chain of steps for one user, and returns the nodes of the five
/// steps, in the order of the chain.
pub fn add_steps_for_user(tree: &mut PlanBuilder, task: UserTask) -> (ids: Vec<usize>)
    requires
        old(tree)@.wf(),
        all_covered(old(tree)@),
    ensures
        final(tree)@.wf(),
        all_covered(final(tree)@),
        ids@.len() == 5,
        ids@.no_duplicates(),
        forall|r: int| 0 <= r < 5 ==> !old(tree)@.nodes().contains(#[trigger] ids@[r]),
        forall|n: usize|
            #![trigger final(tree)@.nodes().contains(n)]
            #![trigger ids@.contains(n)]
            final(tree)@.nodes().contains(n) <==> old(tree)@.nodes().contains(n) || ids@.contains(n),
        forall|r: int|
            0 <= r < 5 ==> final(tree)@.item(#[trigger] ids@[r])@ == user_step(r, task@),
        forall|n: usize|
            old(tree)@.nodes().contains(n) ==> final(tree)@.item(n) == old(tree)@.item(n),
        forall|a: usize, b: usize| #[trigger]
            final(tree)@.edges().contains((a, b)) <==> old(tree)@.edges().contains((a, b)) || (
            exists|r: int, s: int|
                0 <= r < 5 && 0 <= s < 5 && user_wire(r, s) && a == #[trigger] ids@[r] && b
                    == #[trigger] ids@[s]),
        final(tree)@.nodes().len() == old(tree)@.nodes().len() + 5,
{
    let ghost t = task@;
    proof {
        old(tree)@.lemma_wf();
    }
    let none: Vec<usize> = Vec::new();
    proof {
        assert forall|k: DependencyView| #[trigger]
            dependencies_spec(PendingStepView::UserExists(t)).contains(k) implies false by {
            lemma_dependencies(PendingStepView::UserExists(t), k);
        }
    }
    let exists = tree.add(PendingStep::UserExists(task.clone()), &none);
    let ghost tree1 = tree@;
    let needs = one(exists);
    proof {
        assert forall|k: DependencyView| #[trigger]
            dependencies_spec(PendingStepView::UserGetAuthToken(t)).contains(k) implies pledged(
            tree1.item(needs@[0])@,
        ).contains(k) by {
            lemma_dependencies(PendingStepView::UserGetAuthToken(t), k);
            assert(pledged(PendingStepView::UserExists(t))[0] == k);
        }
    }
    let auth_token = tree.add(PendingStep::UserGetAuthToken(task.clone()), &needs);
    let ghost tree2 = tree@;
    let needs = one(auth_token);
    proof {
        assert forall|k: DependencyView| #[trigger]
            dependencies_spec(PendingStepView::UserGetUrl(t)).contains(k) implies pledged(
            tree2.item(needs@[0])@,
        ).contains(k) by {
            lemma_dependencies(PendingStepView::UserGetUrl(t), k);
            let keys = pledged(PendingStepView::UserGetAuthToken(t));
            assert(keys[0] == k || keys[1] == k);
        }
    }
    let get_url = tree.add(PendingStep::UserGetUrl(task.clone()), &needs);
    let ghost tree3 = tree@;
    let needs = two(get_url, auth_token);
    proof {
        assert forall|k: DependencyView| #[trigger]
            dependencies_spec(PendingStepView::UserGetDetails(t)).contains(k) implies exists|
            j: int,
        |
            0 <= j < needs@.len() && #[trigger] pledged(tree3.item(needs@[j])@).contains(k) by {
            lemma_dependencies(PendingStepView::UserGetDetails(t), k);
            let token_keys = pledged(PendingStepView::UserGetAuthToken(t));
            let url_keys = pledged(PendingStepView::UserGetUrl(t));
            if k == DependencyView::AuthToken(t.username) {
                assert(token_keys[1] == k);
                assert(pledged(tree3.item(needs@[1])@).contains(k));
            } else {
                assert(url_keys[0] == k || url_keys[1] == k);
                assert(pledged(tree3.item(needs@[0])@).contains(k));
            }
        }
    }
    let get_details = tree.add(PendingStep::UserGetDetails(task.clone()), &needs);
    let ghost tree4 = tree@;
    let needs = two(get_details, auth_token);
    proof {
        assert forall|k: DependencyView| #[trigger]
            dependencies_spec(PendingStepView::UserDetailsFinalize(t)).contains(k) implies exists|
            j: int,
        |
            0 <= j < needs@.len() && #[trigger] pledged(tree4.item(needs@[j])@).contains(k) by {
            lemma_dependencies(PendingStepView::UserDetailsFinalize(t), k);
            let token_keys = pledged(PendingStepView::UserGetAuthToken(t));
            let detail_keys = pledged(PendingStepView::UserGetDetails(t));
            if k == DependencyView::AuthToken(t.username) {
                assert(token_keys[1] == k);
                assert(pledged(tree4.item(needs@[1])@).contains(k));
            } else {
                assert(detail_keys[0] == k || detail_keys[1] == k || detail_keys[2] == k);
                assert(pledged(tree4.item(needs@[0])@).contains(k));
            }
        }
    }
    let finalize = tree.add(PendingStep::UserDetailsFinalize(task), &needs);
    let ids = vec![exists, auth_token, get_url, get_details, finalize];
    proof {
        assert(ids@[0] == exists && ids@[1] == auth_token && ids@[2] == get_url && ids@[3]
            == get_details && ids@[4] == finalize);
        assert forall|n: usize|
            #![trigger tree@.nodes().contains(n)]
            #![trigger ids@.contains(n)]
            tree@.nodes().contains(n) <==> old(tree)@.nodes().contains(n) || ids@.contains(n) by {
            if ids@.contains(n) {
                let r = choose|r: int| 0 <= r < ids@.len() && ids@[r] == n;
                assert(ids@[r] == n);
            }
        }
        assert forall|a: usize, b: usize| #[trigger]
            tree@.edges().contains((a, b)) <==> old(tree)@.edges().contains((a, b)) || (exists|
                r: int,
                s: int,
            |
                0 <= r < 5 && 0 <= s < 5 && user_wire(r, s) && a == #[trigger] ids@[r] && b
                    == #[trigger] ids@[s]) by {
            if tree@.edges().contains((a, b)) && !old(tree)@.edges().contains((a, b)) {
                if b == auth_token {
                    assert(user_wire(0, 1) && a == ids@[0] && b == ids@[1]);
                } else if b == get_url {
                    assert(user_wire(1, 2) && a == ids@[1] && b == ids@[2]);
                } else if b == get_details {
                    if a == get_url {
                        assert(user_wire(2, 3) && a == ids@[2] && b == ids@[3]);
                    } else {
                        assert(user_wire(1, 3) && a == ids@[1] && b == ids@[3]);
                    }
                } else {
                    if a == get_details {
                        assert(user_wire(3, 4) && a == ids@[3] && b == ids@[4]);
                    } else {
                        assert(user_wire(1, 4) && a == ids@[1] && b == ids@[4]);
                    }
                }
            }
            if exists|r: int, s: int|
                0 <= r < 5 && 0 <= s < 5 && user_wire(r, s) && a == #[trigger] ids@[r] && b
                    == #[trigger] ids@[s] {
                let (r, s) = choose|r: int, s: int|
                    0 <= r < 5 && 0 <= s < 5 && user_wire(r, s) && a == #[trigger] ids@[r] && b
                        == #[trigger] ids@[s];
                assert(tree@.edges().contains((a, b)));
            }
        }
    }
    ids
}

/// Adds the chain of steps for one plugin, and returns the nodes of the
/// three steps, in the order of the chain.
pub fn add_steps_for_plugin(tree: &mut PlanBuilder, task: PluginTask, all: Option<usize>) -> (ids:
    Vec<usize>)
    requires
        old(tree)@.wf(),
        all_covered(old(tree)@),
        task.compute_names@.len() == 0 ==> all is Some,
        all matches Some(lister) ==> old(tree)@.nodes().contains(lister) && old(tree)@.item(
            lister,
        )@ is ComputeResourceGetAll,
    ensures
        final(tree)@.wf(),
        all_covered(final(tree)@),
        ids@.len() == 3,
        ids@.no_duplicates(),
        forall|r: int| 0 <= r < 3 ==> !old(tree)@.nodes().contains(#[trigger] ids@[r]),
        forall|n: usize|
            #![trigger final(tree)@.nodes().contains(n)]
            #![trigger ids@.contains(n)]
            final(tree)@.nodes().contains(n) <==> old(tree)@.nodes().contains(n) || ids@.contains(n),
        forall|r: int|
            0 <= r < 3 ==> final(tree)@.item(#[trigger] ids@[r])@ == plugin_step(r, task@),
        forall|n: usize|
            old(tree)@.nodes().contains(n) ==> final(tree)@.item(n) == old(tree)@.item(n),
        forall|a: usize, b: usize| #[trigger]
            final(tree)@.edges().contains((a, b)) <==> old(tree)@.edges().contains((a, b)) || (
            exists|r: int, s: int|
                0 <= r < 3 && 0 <= s < 3 && plugin_wire(r, s) && a == #[trigger] ids@[r] && b
                    == #[trigger] ids@[s]) || (task.compute_names@.len() == 0 && all == Some(a)
                && b == ids@[2]),
        final(tree)@.nodes().len() == old(tree)@.nodes().len() + 3,
{
    let ghost t = task@;
    proof {
        old(tree)@.lemma_wf();
    }
    let none: Vec<usize> = Vec::new();
    proof {
        assert forall|k: DependencyView| #[trigger]
            dependencies_spec(PendingStepView::PluginFindInLocal(t)).contains(k) implies false by {
            lemma_dependencies(PendingStepView::PluginFindInLocal(t), k);
        }
    }
    let find_local = tree.add(PendingStep::PluginFindInLocal(task.clone()), &none);
    let ghost tree1 = tree@;
    let needs = one(find_local);
    proof {
        assert forall|k: DependencyView| #[trigger]
            dependencies_spec(PendingStepView::PluginFindInPeer(t)).contains(k) implies pledged(
            tree1.item(needs@[0])@,
        ).contains(k) by {
            lemma_dependencies(PendingStepView::PluginFindInPeer(t), k);
            assert(pledged(PendingStepView::PluginFindInLocal(t))[1] == k);
        }
    }
    let find_peer = tree.add(PendingStep::PluginFindInPeer(task.clone()), &needs);
    let ghost tree2 = tree@;
    // A plugin that names no compute resource is registered to all of them:
    // the step waits for their list.
    let lister = if task.compute_names.len() == 0 {
        all
    } else {
        None
    };
    let needs = match lister {
        Some(lister) => three(find_local, find_peer, lister),
        None => two(find_local, find_peer),
    };
    proof {
        assert forall|k: DependencyView| #[trigger]
            dependencies_spec(PendingStepView::PluginAddFromPeer(t)).contains(k) implies exists|
            j: int,
        |
            0 <= j < needs@.len() && #[trigger] pledged(tree2.item(needs@[j])@).contains(k) by {
            lemma_dependencies(PendingStepView::PluginAddFromPeer(t), k);
            if k == DependencyView::PluginPeerUrl(t.plugin) {
                assert(pledged(PendingStepView::PluginFindInPeer(t))[1] == k);
                assert(pledged(tree2.item(needs@[1])@).contains(k));
            } else if k == DependencyView::PluginCheckedInLocal(t.plugin) {
                assert(pledged(PendingStepView::PluginFindInLocal(t))[1] == k);
                assert(pledged(tree2.item(needs@[0])@).contains(k));
            } else {
                let at = needs@[2];
                assert(tree2.item(at)@ is ComputeResourceGetAll);
                assert(pledged(tree2.item(at)@)[0] == k);
                assert(pledged(tree2.item(needs@[2])@).contains(k));
            }
        }
    }
    let add_from_peer = tree.add(PendingStep::PluginAddFromPeer(task), &needs);
    let ids = vec![find_local, find_peer, add_from_peer];
    proof {
        assert(ids@[0] == find_local && ids@[1] == find_peer && ids@[2] == add_from_peer);
        assert forall|n: usize|
            #![trigger tree@.nodes().contains(n)]
            #![trigger ids@.contains(n)]
            tree@.nodes().contains(n) <==> old(tree)@.nodes().contains(n) || ids@.contains(n) by {
            if ids@.contains(n) {
                let r = choose|r: int| 0 <= r < ids@.len() && ids@[r] == n;
                assert(ids@[r] == n);
            }
        }
        assert forall|a: usize, b: usize| #[trigger]
            tree@.edges().contains((a, b)) <==> old(tree)@.edges().contains((a, b)) || (exists|
                r: int,
                s: int,
            |
                0 <= r < 3 && 0 <= s < 3 && plugin_wire(r, s) && a == #[trigger] ids@[r] && b
                    == #[trigger] ids@[s]) || (task.compute_names@.len() == 0 && all == Some(a)
                && b == ids@[2]) by {
            if tree@.edges().contains((a, b)) && !old(tree)@.edges().contains((a, b)) {
                if b == find_peer {
                    assert(plugin_wire(0, 1) && a == ids@[0] && b == ids@[1]);
                } else {
                    if a == find_local {
                        assert(plugin_wire(0, 2) && a == ids@[0] && b == ids@[2]);
                    } else if a == find_peer {
                        assert(plugin_wire(1, 2) && a == ids@[1] && b == ids@[2]);
                    } else {
                        assert(lister == Some(a));
                    }
                }
            }
            if exists|r: int, s: int|
                0 <= r < 3 && 0 <= s < 3 && plugin_wire(r, s) && a == #[trigger] ids@[r] && b
                    == #[trigger] ids@[s] {
                let (r, s) = choose|r: int, s: int|
                    0 <= r < 3 && 0 <= s < 3 && plugin_wire(r, s) && a == #[trigger] ids@[r] && b
                        == #[trigger] ids@[s];
                assert(tree@.edges().contains((a, b)));
            }
        }
    }
    ids
}

/// What the steps for the `i`-th user of a manifest work from.
pub open spec fn user_task_of(m: Manifest, i: int) -> UserTaskView {
    UserTaskView {
        username: m.user@[i].0@,
        password: m.user@[i].1.password@,
        email: m.user@[i].1.email@,
        url: m.global.cube@,
    }
}

/// What the steps for the `j`-th plugin of a manifest work from.
pub open spec fn plugin_task_of(m: Manifest, j: int) -> PluginTaskView {
    PluginTaskView {
        url: m.global.cube@,
        peer: opt_url(m.global.peer),
        plugin: PluginSpecView { name: m.plugins@[j].name@, version: opt_text(m.plugins@[j].version) },
        admin: opt_credentials(m.global.admin),
        compute_names: names_view(m.plugins@[j].compute_resources@),
    }
}

/// Where the steps of a plan stand: for each user of the manifest the nodes
/// of the five steps of its chain, and for each plugin the nodes of its three.
pub struct Layout {
    pub users: Seq<Seq<usize>>,
    pub plugins: Seq<Seq<usize>>,
    /// The node of the step that lists the compute resources, where the plan
    /// has one.
    pub all: Option<usize>,
}

/// The `j`-th plugin of a manifest names no compute resource: it is to be
/// registered to all of them.
pub open spec fn wants_all(m: Manifest, j: int) -> bool {
    m.plugins@[j].compute_resources@.len() == 0
}

/// A plugin of the manifest is to be registered to all compute resources.
pub open spec fn needs_all(m: Manifest) -> bool {
    exists|j: int| 0 <= j < m.plugins@.len() && #[trigger] wants_all(m, j)
}

/// What the step that lists the compute resources works from.
pub open spec fn cube_task_of(m: Manifest) -> CubeTaskView {
    CubeTaskView { url: m.global.cube@, admin: opt_credentials(m.global.admin) }
}

/// The node stands in the layout.
pub open spec fn in_layout(lay: Layout, n: usize) -> bool {
    ||| exists|i: int, r: int|
        0 <= i < lay.users.len() && 0 <= r < 5 && n == #[trigger] lay.users[i][r]
    ||| exists|j: int, r: int|
        0 <= j < lay.plugins.len() && 0 <= r < 3 && n == #[trigger] lay.plugins[j][r]
    ||| lay.all == Some(n)
}

/// An edge between the two nodes belongs to a chain of the layout, or leads
/// from the list of compute resources to the last step of a plugin that is to
/// be registered to all of them.
pub open spec fn wired(lay: Layout, m: Manifest, a: usize, b: usize) -> bool {
    ||| exists|i: int, r: int, s: int|
        0 <= i < lay.users.len() && 0 <= r < 5 && 0 <= s < 5 && user_wire(r, s) && a
            == #[trigger] lay.users[i][r] && b == #[trigger] lay.users[i][s]
    ||| exists|j: int, r: int, s: int|
        0 <= j < lay.plugins.len() && 0 <= r < 3 && 0 <= s < 3 && plugin_wire(r, s) && a
            == #[trigger] lay.plugins[j][r] && b == #[trigger] lay.plugins[j][s]
    ||| exists|j: int|
        0 <= j < lay.plugins.len() && #[trigger] wants_all(m, j) && lay.all == Some(a) && b
            == lay.plugins[j][2]
}

/// The tree holds the chains for the first `users` users and the first
/// `plugins` plugins of the manifest, at the nodes that the layout names; the
/// step that lists the compute resources, where a plugin of the manifest is
/// to be registered to all of them; and nothing else.
pub open spec fn is_plan_of(
    tree: DependencyTree<PendingStep>,
    m: Manifest,
    lay: Layout,
    users: int,
    plugins: int,
) -> bool {
    &&& lay.users.len() == users
    &&& lay.plugins.len() == plugins
    &&& forall|i: int| 0 <= i < users ==> (#[trigger] lay.users[i]).len() == 5
    &&& forall|j: int| 0 <= j < plugins ==> (#[trigger] lay.plugins[j]).len() == 3
    &&& forall|n: usize| #[trigger] tree.nodes().contains(n) <==> in_layout(lay, n)
    &&& forall|i: int, r: int|
        0 <= i < users && 0 <= r < 5 ==> tree.item(#[trigger] lay.users[i][r])@ == user_step(
            r,
            user_task_of(m, i),
        )
    &&& forall|j: int, r: int|
        0 <= j < plugins && 0 <= r < 3 ==> tree.item(#[trigger] lay.plugins[j][r])@
            == plugin_step(r, plugin_task_of(m, j))
    &&& forall|a: usize, b: usize| #[trigger] tree.edges().contains((a, b)) <==> wired(lay, m, a, b)
    &&& lay.all is Some <==> needs_all(m)
    &&& lay.all matches Some(lister) ==> tree.item(lister)@
        == PendingStepView::ComputeResourceGetAll(cube_task_of(m))
    &&& tree.nodes().len() == 5 * users + 3 * plugins + if lay.all is Some {
        1int
    } else {
        0int
    }
}

/// Returns `true` if a plugin of the manifest is to be registered to all
/// compute resources.
fn some_plugin_wants_all(manifest: &Manifest) -> (b: bool)
    ensures
        b == needs_all(*manifest),
{
    let mut j: usize = 0;
    while j < manifest.plugins.len()
        invariant
            j <= manifest.plugins@.len(),
            forall|x: int| 0 <= x < j ==> !#[trigger] wants_all(*manifest, x),
        decreases manifest.plugins@.len() - j,
    {
        if manifest.plugins[j].compute_resources.len() == 0 {
            assert(wants_all(*manifest, j as int));
            return true;
        }
        j += 1;
    }
    false
}

/// Plans the steps for a manifest: for each user the chain that makes sure
/// that the user exists, gets its token, its URL and its details, and sets
/// its email address; for each plugin the chain that looks for it in the
/// targeted backend, then in the peer, and registers it from there. Where a
/// plugin names no compute resource, one step lists those of the backend, and
/// the registering of each such plugin waits for it.
pub fn plan(manifest: &Manifest) -> (tree: DependencyTree<PendingStep>)
    requires
        manifest.wf(),
    ensures
        tree.wf(),
        all_covered(tree),
        exists|lay: Layout|
            is_plan_of(tree, *manifest, lay, manifest.user@.len() as int, manifest.plugins@.len() as int),
{
    let mut tree = PlanBuilder::new();
    let all = if some_plugin_wants_all(manifest) {
        let task = CubeTask {
            url: manifest.global.cube.clone(),
            admin: match &manifest.global.admin {
                Some(admin) => Some(admin.clone()),
                None => None,
            },
        };
        let none: Vec<usize> = Vec::new();
        proof {
            assert forall|k: DependencyView| #[trigger]
                dependencies_spec(PendingStepView::ComputeResourceGetAll(task@)).contains(
                    k,
                ) implies false by {
                lemma_dependencies(PendingStepView::ComputeResourceGetAll(task@), k);
            }
        }
        Some(tree.add(PendingStep::ComputeResourceGetAll(task), &none))
    } else {
        None
    };
    let ghost mut lay = Layout { users: Seq::empty(), plugins: Seq::empty(), all };
    proof {
        assert forall|n: usize| #[trigger] tree@.nodes().contains(n) <==> in_layout(lay, n) by {}
        assert forall|a: usize, b: usize| #[trigger]
            tree@.edges().contains((a, b)) <==> wired(lay, *manifest, a, b) by {}
    }
    let mut i: usize = 0;
    while i < manifest.user.len()
        invariant
            i <= manifest.user@.len(),
            tree@.wf(),
            all_covered(tree@),
            is_plan_of(tree@, *manifest, lay, i as int, 0),
            lay.all == all,
        decreases manifest.user@.len() - i,
    {
        let username = &manifest.user[i].0;
        let details = &manifest.user[i].1;
        let task = UserTask {
            username: username.clone(),
            password: details.password.clone(),
            email: details.email.clone(),
            url: manifest.global.cube.clone(),
        };
        let ghost before = tree@;
        let ghost old_lay = lay;
        let ids = add_steps_for_user(&mut tree, task);
        proof {
            lay = Layout { users: old_lay.users.push(ids@), plugins: old_lay.plugins, all };
            lemma_layout_grows_user(before, tree@, *manifest, old_lay, lay, ids@, i as int);
        }
        i += 1;
    }
    let ghost users = manifest.user@.len() as int;
    let mut j: usize = 0;
    while j < manifest.plugins.len()
        invariant
            j <= manifest.plugins@.len(),
            users == manifest.user@.len(),
            tree@.wf(),
            all_covered(tree@),
            is_plan_of(tree@, *manifest, lay, users, j as int),
            lay.all == all,
        decreases manifest.plugins@.len() - j,
    {
        let config = &manifest.plugins[j];
        let task = PluginTask {
            url: manifest.global.cube.clone(),
            peer: match &manifest.global.peer {
                Some(peer) => Some(peer.clone()),
                None => None,
            },
            plugin: PluginSpec {
                name: config.name.clone(),
                version: match &config.version {
                    Some(v) => Some(v.clone()),
                    None => None,
                },
            },
            admin: match &manifest.global.admin {
                Some(admin) => Some(admin.clone()),
                None => None,
            },
            compute_names: clone_names(&config.compute_resources),
        };
        let ghost before = tree@;
        let ghost old_lay = lay;
        proof {
            assert(names_view(task.compute_names@).len() == task.compute_names@.len());
            assert(names_view(config.compute_resources@).len() == config.compute_resources@.len());
            assert(wants_all(*manifest, j as int) <==> task.compute_names@.len() == 0);
            if wants_all(*manifest, j as int) {
                assert(needs_all(*manifest));
            }
            if all is Some {
                assert(in_layout(lay, all.unwrap()));
            }
        }
        let ids = add_steps_for_plugin(&mut tree, task, all);
        proof {
            lay = Layout { users: old_lay.users, plugins: old_lay.plugins.push(ids@), all };
            lemma_layout_grows_plugin(before, tree@, *manifest, old_lay, lay, ids@, users, j as int);
        }
        j += 1;
    }
    tree.build()
}

/// In a plan, every key of a step's chain is pledged by a step of the plan:
/// so whatever the steps of a plan hand in, a step of the plan has pledged it.
pub proof fn lemma_plan_pledges_chains(
    tree: DependencyTree<PendingStep>,
    m: Manifest,
    lay: Layout,
    n: usize,
    k: DependencyView,
)
    requires
        is_plan_of(tree, m, lay, m.user@.len() as int, m.plugins@.len() as int),
        tree.nodes().contains(n),
        chain_keys(tree.item(n)@).contains(k),
    ensures
        exists|p: usize| tree.nodes().contains(p) && #[trigger] pledged(tree.item(p)@).contains(k),
{
    let chain = chain_keys(tree.item(n)@);
    let at = choose|at: int| 0 <= at < chain.len() && chain[at] == k;
    assert(chain[at] == k);
    assert(in_layout(lay, n));
    if exists|i: int, r: int|
        0 <= i < lay.users.len() && 0 <= r < 5 && n == #[trigger] lay.users[i][r] {
        let (i, r) = choose|i: int, r: int|
            0 <= i < lay.users.len() && 0 <= r < 5 && n == #[trigger] lay.users[i][r];
        let t = user_task_of(m, i);
        assert(tree.item(lay.users[i][r])@ == user_step(r, t));
        // the step that gets the token pledges the token, the one that gets
        // the details everything else
        let q = if at == 1 {
            1
        } else {
            3
        };
        let p = lay.users[i][q];
        assert(tree.item(p)@ == user_step(q, t));
        assert(in_layout(lay, p));
        let keys = pledged(tree.item(p)@);
        assert(keys[0] == k || keys[1] == k || keys[2] == k || keys[3] == k);
        assert(pledged(tree.item(p)@).contains(k));
    } else if lay.all == Some(n) {
        assert(pledged(tree.item(n)@)[0] == k);
        assert(pledged(tree.item(n)@).contains(k));
    } else {
        let (j, r) = choose|j: int, r: int|
            0 <= j < lay.plugins.len() && 0 <= r < 3 && n == #[trigger] lay.plugins[j][r];
        let t = plugin_task_of(m, j);
        assert(tree.item(lay.plugins[j][r])@ == plugin_step(r, t));
        // the search of the targeted backend pledges that it looked, the search
        // of the peer the URL there, the last step everything else
        let q = if at == 1 {
            0
        } else if at == 4 {
            1
        } else {
            2
        };
        let p = lay.plugins[j][q];
        assert(tree.item(p)@ == plugin_step(q, t));
        assert(in_layout(lay, p));
        let keys = pledged(tree.item(p)@);
        assert(keys[0] == k || keys[1] == k || keys[2] == k);
        assert(pledged(tree.item(p)@).contains(k));
    }
}

/// A plan with one more user's chain is the plan of one more user.
proof fn lemma_layout_grows_user(
    before: DependencyTree<PendingStep>,
    after: DependencyTree<PendingStep>,
    m: Manifest,
    old_lay: Layout,
    lay: Layout,
    ids: Seq<usize>,
    i: int,
)
    requires
        is_plan_of(before, m, old_lay, i, 0),
        0 <= i < m.user@.len(),
        lay == (Layout { users: old_lay.users.push(ids), plugins: old_lay.plugins, all: old_lay.all }),
        ids.len() == 5,
        forall|r: int| 0 <= r < 5 ==> !before.nodes().contains(#[trigger] ids[r]),
        forall|n: usize|
            #![trigger after.nodes().contains(n)]
            #![trigger ids.contains(n)]
            after.nodes().contains(n) <==> before.nodes().contains(n) || ids.contains(n),
        forall|r: int|
            0 <= r < 5 ==> after.item(#[trigger] ids[r])@ == user_step(r, user_task_of(m, i)),
        forall|n: usize| before.nodes().contains(n) ==> after.item(n) == before.item(n),
        forall|a: usize, b: usize| #[trigger]
            after.edges().contains((a, b)) <==> before.edges().contains((a, b)) || (exists|
                r: int,
                s: int,
            |
                0 <= r < 5 && 0 <= s < 5 && user_wire(r, s) && a == #[trigger] ids[r] && b
                    == #[trigger] ids[s]),
        after.nodes().len() == before.nodes().len() + 5,
    ensures
        is_plan_of(after, m, lay, i + 1, 0),
{
    assert forall|x: int| 0 <= x < i implies lay.users[x] == old_lay.users[x] by {}
    assert(lay.users[i] == ids);
    assert forall|n: usize| in_layout(lay, n) <==> in_layout(old_lay, n) || ids.contains(n) by {
        if in_layout(lay, n) {
            if exists|x: int, r: int|
                0 <= x < lay.users.len() && 0 <= r < 5 && n == #[trigger] lay.users[x][r] {
                let (x, r) = choose|x: int, r: int|
                    0 <= x < lay.users.len() && 0 <= r < 5 && n == #[trigger] lay.users[x][r];
                if x < i {
                    assert(n == old_lay.users[x][r]);
                } else {
                    assert(ids[r] == n);
                }
            }
        }
        if in_layout(old_lay, n) {
            if exists|x: int, r: int|
                0 <= x < old_lay.users.len() && 0 <= r < 5 && n == #[trigger] old_lay.users[x][r] {
                let (x, r) = choose|x: int, r: int|
                    0 <= x < old_lay.users.len() && 0 <= r < 5 && n
                        == #[trigger] old_lay.users[x][r];
                assert(n == lay.users[x][r]);
            }
        }
        if ids.contains(n) {
            let r = choose|r: int| 0 <= r < ids.len() && ids[r] == n;
            assert(n == lay.users[i][r]);
        }
    }
    assert forall|a: usize, b: usize| wired(lay, m, a, b) <==> wired(old_lay, m, a, b) || (exists|
        r: int,
        s: int,
    |
        0 <= r < 5 && 0 <= s < 5 && user_wire(r, s) && a == #[trigger] ids[r] && b
            == #[trigger] ids[s]) by {
        if wired(lay, m, a, b) {
            if exists|x: int, r: int, s: int|
                0 <= x < lay.users.len() && 0 <= r < 5 && 0 <= s < 5 && user_wire(r, s) && a
                    == #[trigger] lay.users[x][r] && b == #[trigger] lay.users[x][s] {
                let (x, r, s) = choose|x: int, r: int, s: int|
                    0 <= x < lay.users.len() && 0 <= r < 5 && 0 <= s < 5 && user_wire(r, s) && a
                        == #[trigger] lay.users[x][r] && b == #[trigger] lay.users[x][s];
                if x < i {
                    assert(a == old_lay.users[x][r] && b == old_lay.users[x][s]);
                } else {
                    assert(a == ids[r] && b == ids[s]);
                }
            }
        }
        if wired(old_lay, m, a, b) {
            if exists|x: int|
                0 <= x < old_lay.plugins.len() && #[trigger] wants_all(m, x) && old_lay.all == Some(
                    a,
                ) && b == old_lay.plugins[x][2] {
                let x = choose|x: int|
                    0 <= x < old_lay.plugins.len() && #[trigger] wants_all(m, x) && old_lay.all
                        == Some(a) && b == old_lay.plugins[x][2];
                assert(b == lay.plugins[x][2]);
            }
            if exists|x: int, r: int, s: int|
                0 <= x < old_lay.users.len() && 0 <= r < 5 && 0 <= s < 5 && user_wire(r, s) && a
                    == #[trigger] old_lay.users[x][r] && b == #[trigger] old_lay.users[x][s] {
                let (x, r, s) = choose|x: int, r: int, s: int|
                    0 <= x < old_lay.users.len() && 0 <= r < 5 && 0 <= s < 5 && user_wire(r, s)
                        && a == #[trigger] old_lay.users[x][r] && b
                        == #[trigger] old_lay.users[x][s];
                assert(a == lay.users[x][r] && b == lay.users[x][s]);
            }
        }
        if exists|r: int, s: int|
            0 <= r < 5 && 0 <= s < 5 && user_wire(r, s) && a == #[trigger] ids[r] && b
                == #[trigger] ids[s] {
            let (r, s) = choose|r: int, s: int|
                0 <= r < 5 && 0 <= s < 5 && user_wire(r, s) && a == #[trigger] ids[r] && b
                    == #[trigger] ids[s];
            assert(a == lay.users[i][r] && b == lay.users[i][s]);
        }
    }
    assert forall|x: int, r: int| 0 <= x < i + 1 && 0 <= r < 5 implies after.item(
        #[trigger] lay.users[x][r],
    )@ == user_step(r, user_task_of(m, x)) by {
        if x < i {
            assert(in_layout(old_lay, old_lay.users[x][r]));
            assert(before.nodes().contains(old_lay.users[x][r]));
        }
    }
    assert forall|n: usize| #[trigger] after.nodes().contains(n) <==> in_layout(lay, n) by {
        assert(before.nodes().contains(n) <==> in_layout(old_lay, n));
    }
    assert forall|a: usize, b: usize| #[trigger] after.edges().contains((a, b)) <==> wired(
        lay,
        m,
        a,
        b,
    ) by {
        assert(before.edges().contains((a, b)) <==> wired(old_lay, m, a, b));
    }
    if lay.all is Some {
        assert(in_layout(old_lay, lay.all.unwrap()));
    }
    assert forall|x: int| 0 <= x < i + 1 implies (#[trigger] lay.users[x]).len() == 5 by {
        if x < i {
            assert(old_lay.users[x].len() == 5);
        }
    }
}

/// A plan with one more plugin's chain is the plan of one more plugin.
proof fn lemma_layout_grows_plugin(
    before: DependencyTree<PendingStep>,
    after: DependencyTree<PendingStep>,
    m: Manifest,
    old_lay: Layout,
    lay: Layout,
    ids: Seq<usize>,
    users: int,
    j: int,
)
    requires
        is_plan_of(before, m, old_lay, users, j),
        0 <= j < m.plugins@.len(),
        lay == (Layout { users: old_lay.users, plugins: old_lay.plugins.push(ids), all: old_lay.all }),
        ids.len() == 3,
        forall|r: int| 0 <= r < 3 ==> !before.nodes().contains(#[trigger] ids[r]),
        forall|n: usize|
            #![trigger after.nodes().contains(n)]
            #![trigger ids.contains(n)]
            after.nodes().contains(n) <==> before.nodes().contains(n) || ids.contains(n),
        forall|r: int|
            0 <= r < 3 ==> after.item(#[trigger] ids[r])@ == plugin_step(r, plugin_task_of(m, j)),
        forall|n: usize| before.nodes().contains(n) ==> after.item(n) == before.item(n),
        forall|a: usize, b: usize| #[trigger]
            after.edges().contains((a, b)) <==> before.edges().contains((a, b)) || (exists|
                r: int,
                s: int,
            |
                0 <= r < 3 && 0 <= s < 3 && plugin_wire(r, s) && a == #[trigger] ids[r] && b
                    == #[trigger] ids[s]) || (wants_all(m, j) && old_lay.all == Some(a) && b
                == ids[2]),
        after.nodes().len() == before.nodes().len() + 3,
    ensures
        is_plan_of(after, m, lay, users, j + 1),
{
    assert forall|x: int| 0 <= x < j implies lay.plugins[x] == old_lay.plugins[x] by {}
    assert(lay.plugins[j] == ids);
    assert forall|n: usize| in_layout(lay, n) <==> in_layout(old_lay, n) || ids.contains(n) by {
        if in_layout(lay, n) {
            if exists|x: int, r: int|
                0 <= x < lay.plugins.len() && 0 <= r < 3 && n == #[trigger] lay.plugins[x][r] {
                let (x, r) = choose|x: int, r: int|
                    0 <= x < lay.plugins.len() && 0 <= r < 3 && n == #[trigger] lay.plugins[x][r];
                if x < j {
                    assert(n == old_lay.plugins[x][r]);
                } else {
                    assert(ids[r] == n);
                }
            }
        }
        if in_layout(old_lay, n) {
            if exists|x: int, r: int|
                0 <= x < old_lay.plugins.len() && 0 <= r < 3 && n
                    == #[trigger] old_lay.plugins[x][r] {
                let (x, r) = choose|x: int, r: int|
                    0 <= x < old_lay.plugins.len() && 0 <= r < 3 && n
                        == #[trigger] old_lay.plugins[x][r];
                assert(n == lay.plugins[x][r]);
            }
        }
        if ids.contains(n) {
            let r = choose|r: int| 0 <= r < ids.len() && ids[r] == n;
            assert(n == lay.plugins[j][r]);
        }
    }
    assert forall|a: usize, b: usize| wired(lay, m, a, b) <==> wired(old_lay, m, a, b) || (exists|
        r: int,
        s: int,
    |
        0 <= r < 3 && 0 <= s < 3 && plugin_wire(r, s) && a == #[trigger] ids[r] && b
            == #[trigger] ids[s]) || (wants_all(m, j) && old_lay.all == Some(a) && b
        == ids[2]) by {
        if wired(lay, m, a, b) {
            if exists|x: int|
                0 <= x < lay.plugins.len() && #[trigger] wants_all(m, x) && lay.all == Some(a) && b
                    == lay.plugins[x][2] {
                let x = choose|x: int|
                    0 <= x < lay.plugins.len() && #[trigger] wants_all(m, x) && lay.all == Some(a)
                        && b == lay.plugins[x][2];
                if x < j {
                    assert(b == old_lay.plugins[x][2]);
                }
            }
            if exists|x: int, r: int, s: int|
                0 <= x < lay.plugins.len() && 0 <= r < 3 && 0 <= s < 3 && plugin_wire(r, s) && a
                    == #[trigger] lay.plugins[x][r] && b == #[trigger] lay.plugins[x][s] {
                let (x, r, s) = choose|x: int, r: int, s: int|
                    0 <= x < lay.plugins.len() && 0 <= r < 3 && 0 <= s < 3 && plugin_wire(r, s)
                        && a == #[trigger] lay.plugins[x][r] && b == #[trigger] lay.plugins[x][s];
                if x < j {
                    assert(a == old_lay.plugins[x][r] && b == old_lay.plugins[x][s]);
                } else {
                    assert(a == ids[r] && b == ids[s]);
                }
            }
        }
        if wired(old_lay, m, a, b) {
            if exists|x: int|
                0 <= x < old_lay.plugins.len() && #[trigger] wants_all(m, x) && old_lay.all == Some(
                    a,
                ) && b == old_lay.plugins[x][2] {
                let x = choose|x: int|
                    0 <= x < old_lay.plugins.len() && #[trigger] wants_all(m, x) && old_lay.all
                        == Some(a) && b == old_lay.plugins[x][2];
                assert(b == lay.plugins[x][2]);
            }
            if exists|x: int, r: int, s: int|
                0 <= x < old_lay.plugins.len() && 0 <= r < 3 && 0 <= s < 3 && plugin_wire(r, s)
                    && a == #[trigger] old_lay.plugins[x][r] && b
                    == #[trigger] old_lay.plugins[x][s] {
                let (x, r, s) = choose|x: int, r: int, s: int|
                    0 <= x < old_lay.plugins.len() && 0 <= r < 3 && 0 <= s < 3 && plugin_wire(r, s)
                        && a == #[trigger] old_lay.plugins[x][r] && b
                        == #[trigger] old_lay.plugins[x][s];
                assert(a == lay.plugins[x][r] && b == lay.plugins[x][s]);
            }
        }
        if exists|r: int, s: int|
            0 <= r < 3 && 0 <= s < 3 && plugin_wire(r, s) && a == #[trigger] ids[r] && b
                == #[trigger] ids[s] {
            let (r, s) = choose|r: int, s: int|
                0 <= r < 3 && 0 <= s < 3 && plugin_wire(r, s) && a == #[trigger] ids[r] && b
                    == #[trigger] ids[s];
            assert(a == lay.plugins[j][r] && b == lay.plugins[j][s]);
        }
        if wants_all(m, j) && old_lay.all == Some(a) && b == ids[2] {
            assert(b == lay.plugins[j][2]);
        }
    }
    assert forall|x: int, r: int| 0 <= x < users && 0 <= r < 5 implies after.item(
        #[trigger] lay.users[x][r],
    )@ == user_step(r, user_task_of(m, x)) by {
        assert(in_layout(old_lay, old_lay.users[x][r]));
        assert(before.nodes().contains(old_lay.users[x][r]));
    }
    assert forall|x: int, r: int| 0 <= x < j + 1 && 0 <= r < 3 implies after.item(
        #[trigger] lay.plugins[x][r],
    )@ == plugin_step(r, plugin_task_of(m, x)) by {
        if x < j {
            assert(in_layout(old_lay, old_lay.plugins[x][r]));
            assert(before.nodes().contains(old_lay.plugins[x][r]));
        }
    }
    assert forall|n: usize| #[trigger] after.nodes().contains(n) <==> in_layout(lay, n) by {
        assert(before.nodes().contains(n) <==> in_layout(old_lay, n));
    }
    assert forall|a: usize, b: usize| #[trigger] after.edges().contains((a, b)) <==> wired(
        lay,
        m,
        a,
        b,
    ) by {
        assert(before.edges().contains((a, b)) <==> wired(old_lay, m, a, b));
    }
    if lay.all is Some {
        assert(in_layout(old_lay, lay.all.unwrap()));
    }
    assert forall|x: int| 0 <= x < j + 1 implies (#[trigger] lay.plugins[x]).len() == 3 by {
        if x < j {
            assert(old_lay.plugins[x].len() == 3);
        }
    }
}

} // verus!
