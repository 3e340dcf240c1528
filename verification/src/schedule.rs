//! The scheduler's bookkeeping as plain mathematics: which nodes of a plan
//! are left, which run, which wait to be looked at, and what holds of them
//! while the plan is worked off.
use crate::dag::{edges_without, is_dag, ranked};
use crate::dependency_tree::lemma_dag_has_root;
use vstd::prelude::*;

verus! {

/// No edge leads to `n`.
pub open spec fn no_pred(edges: Set<(usize, usize)>, n: usize) -> bool {
    forall|a: usize| !edges.contains((a, n))
}

/// What a sequence holds after one more item.
pub proof fn lemma_push_contains(s: Seq<usize>, x: usize)
    ensures
        forall|n: usize| s.push(x).contains(n) <==> s.contains(n) || n == x,
        s.no_duplicates() && !s.contains(x) ==> s.push(x).no_duplicates(),
{
    let t = s.push(x);
    assert forall|n: usize| t.contains(n) <==> s.contains(n) || n == x by {
        if t.contains(n) {
            let i = choose|i: int| 0 <= i < t.len() && t[i] == n;
            if i < s.len() {
                assert(s[i] == n);
            }
        }
        if s.contains(n) {
            let i = choose|i: int| 0 <= i < s.len() && s[i] == n;
            assert(t[i] == n);
        }
        if n == x {
            assert(t[s.len() as int] == n);
        }
    }
    if s.no_duplicates() && !s.contains(x) {
        assert forall|i: int, j: int| 0 <= i < j < t.len() implies t[i] != t[j] by {
            if j == s.len() {
                assert(s[i] == t[i]);
                assert(s.contains(s[i]));
            }
        }
    }
}

/// The state of a run.
pub struct Schedule {
    /// The nodes of the plan as it was handed over.
    pub nodes0: Set<usize>,
    /// The edges of the plan as it was handed over.
    pub edges0: Set<(usize, usize)>,
    /// The nodes that are not done yet.
    pub nodes: Set<usize>,
    /// The edges between nodes that are not done yet.
    pub edges: Set<(usize, usize)>,
    /// The nodes whose steps are running.
    pub flying: Seq<usize>,
    /// The nodes that can run and wait to be looked at.
    pub work: Seq<usize>,
    /// The number of outcomes handed out.
    pub emitted: nat,
}

/// The plan's own shape: finitely many nodes, edges between them, no cycle.
pub open spec fn plan_ok(s: Schedule) -> bool {
    &&& s.nodes0.finite()
    &&& s.nodes.subset_of(s.nodes0)
    &&& is_dag(s.edges0)
    &&& forall|a: usize, b: usize| #[trigger]
        s.edges0.contains((a, b)) ==> s.nodes0.contains(a) && s.nodes0.contains(b)
    &&& forall|a: usize, b: usize| #[trigger]
        s.edges.contains((a, b)) <==> s.edges0.contains((a, b)) && s.nodes.contains(a)
            && s.nodes.contains(b)
}

/// A node that is done has nothing before it that is not done.
pub open spec fn done_closed(s: Schedule) -> bool {
    forall|a: usize, b: usize| #[trigger]
        s.edges0.contains((a, b)) && !s.nodes.contains(b) ==> !s.nodes.contains(a)
}

/// The nodes that run, and those that wait to be looked at, are nodes that
/// are left and that nothing is before; no node is among them twice.
pub open spec fn fronts_ok(s: Schedule) -> bool {
    &&& s.flying.no_duplicates()
    &&& s.work.no_duplicates()
    &&& forall|i: int|
        0 <= i < s.flying.len() ==> s.nodes.contains(#[trigger] s.flying[i]) && no_pred(
            s.edges,
            s.flying[i],
        )
    &&& forall|i: int|
        0 <= i < s.work.len() ==> s.nodes.contains(#[trigger] s.work[i]) && no_pred(
            s.edges,
            s.work[i],
        ) && !s.flying.contains(s.work[i])
}

/// Every node that is left and that nothing is before runs or waits to be
/// looked at.
pub open spec fn roots_covered(s: Schedule) -> bool {
    forall|n: usize| #[trigger]
        s.nodes.contains(n) && no_pred(s.edges, n) ==> s.flying.contains(n) || s.work.contains(n)
}

/// What holds of a run at every moment.
pub closed spec fn sched_inv(s: Schedule) -> bool {
    &&& plan_ok(s)
    &&& done_closed(s)
    &&& fronts_ok(s)
    &&& roots_covered(s)
    &&& s.emitted + s.nodes.len() == s.nodes0.len()
}

/// A run at its beginning: nothing is done, nothing runs, and the plan's
/// roots wait to be looked at.
pub open spec fn begin(nodes: Set<usize>, edges: Set<(usize, usize)>, roots: Seq<usize>) -> Schedule {
    Schedule { nodes0: nodes, edges0: edges, nodes, edges, flying: Seq::empty(), work: roots, emitted: 0 }
}

/// A run begins in order.
pub proof fn lemma_begin(nodes: Set<usize>, edges: Set<(usize, usize)>, roots: Seq<usize>)
    requires
        nodes.finite(),
        is_dag(edges),
        forall|a: usize, b: usize| #[trigger]
            edges.contains((a, b)) ==> nodes.contains(a) && nodes.contains(b),
        roots.no_duplicates(),
        roots.to_set() == Set::new(|n: usize| nodes.contains(n) && no_pred(edges, n)),
    ensures
        sched_inv(begin(nodes, edges, roots)),
{
    let s = begin(nodes, edges, roots);
    assert forall|i: int| 0 <= i < roots.len() implies nodes.contains(#[trigger] roots[i])
        && no_pred(edges, roots[i]) by {
        assert(roots.to_set().contains(roots[i]));
    }
    assert forall|n: usize| #[trigger] nodes.contains(n) && no_pred(edges, n) implies roots.contains(
        n,
    ) by {
        assert(roots.to_set().contains(n));
    }
}

/// Taking a node out leaves the plan's shape as it must be.
pub proof fn lemma_plan_without(s: Schedule, id: usize, t: Schedule)
    requires
        plan_ok(s),
        t.nodes0 == s.nodes0,
        t.edges0 == s.edges0,
        t.nodes == s.nodes.remove(id),
        t.edges == edges_without(s.edges, id),
    ensures
        plan_ok(t),
        forall|n: usize| no_pred(s.edges, n) ==> no_pred(t.edges, n),
{
    assert forall|a: usize, b: usize| #[trigger]
        t.edges.contains((a, b)) <==> t.edges0.contains((a, b)) && t.nodes.contains(a)
            && t.nodes.contains(b) by {
        if t.edges.contains((a, b)) {
            assert(s.edges.contains((a, b)));
        }
        if t.edges0.contains((a, b)) && t.nodes.contains(a) && t.nodes.contains(b) {
            assert(s.edges.contains((a, b)));
        }
    }
    assert forall|n: usize| no_pred(s.edges, n) implies no_pred(t.edges, n) by {
        assert forall|a: usize| !t.edges.contains((a, n)) by {
            assert(!s.edges.contains((a, n)));
        }
    }
}

/// A node that nothing is before can leave: what is done stays closed.
pub proof fn lemma_done_without(s: Schedule, id: usize, t: Schedule)
    requires
        plan_ok(s),
        done_closed(s),
        s.nodes.contains(id),
        no_pred(s.edges, id),
        t.nodes0 == s.nodes0,
        t.edges0 == s.edges0,
        t.nodes == s.nodes.remove(id),
    ensures
        done_closed(t),
        s.nodes.finite(),
        t.nodes.len() + 1 == s.nodes.len(),
{
    assert forall|a: usize, b: usize| #[trigger]
        t.edges0.contains((a, b)) && !t.nodes.contains(b) implies !t.nodes.contains(a) by {
        if b == id && t.nodes.contains(a) {
            assert(s.edges.contains((a, id)));
        }
    }
    vstd::set_lib::lemma_len_subset(s.nodes, s.nodes0);
}

/// The nodes that can run now because `id` left are new to both fronts.
pub proof fn lemma_fronts_after(
    s: Schedule,
    id: usize,
    front: Seq<usize>,
    kids: Seq<usize>,
    t: Schedule,
)
    requires
        plan_ok(s),
        fronts_ok(s),
        roots_covered(s),
        s.nodes.contains(id),
        no_pred(s.edges, id),
        forall|a: usize, b: usize| #[trigger] s.edges.contains((a, b)) ==> a != b,
        plan_ok(t),
        t.nodes == s.nodes.remove(id),
        t.edges == edges_without(s.edges, id),
        forall|n: usize| no_pred(s.edges, n) ==> no_pred(t.edges, n),
        t.flying.no_duplicates(),
        forall|n: usize| t.flying.contains(n) <==> s.flying.contains(n) && n != id,
        front.no_duplicates(),
        forall|n: usize| front.contains(n) <==> s.work.contains(n) && n != id,
        kids.no_duplicates(),
        forall|n: usize| kids.contains(n) <==> s.edges.contains((id, n)) && no_pred(t.edges, n),
        t.work == front + kids,
    ensures
        fronts_ok(t),
        roots_covered(t),
{
    assert forall|k: int| 0 <= k < kids.len() implies s.edges.contains((id, #[trigger] kids[k]))
        && no_pred(t.edges, kids[k]) && t.nodes.contains(kids[k]) && !no_pred(
        s.edges,
        kids[k],
    ) by {
        assert(kids.contains(kids[k]));
    }
    assert forall|i: int| 0 <= i < front.len() implies s.work.contains(#[trigger] front[i])
        && front[i] != id by {
        assert(front.contains(front[i]));
    }
    assert forall|i: int| 0 <= i < t.flying.len() implies t.nodes.contains(#[trigger] t.flying[i])
        && no_pred(t.edges, t.flying[i]) by {
        let n = t.flying[i];
        assert(t.flying.contains(n));
        let j = choose|j: int| 0 <= j < s.flying.len() && s.flying[j] == n;
        assert(s.nodes.contains(s.flying[j]));
    }
    assert forall|i: int| 0 <= i < t.work.len() implies t.nodes.contains(#[trigger] t.work[i])
        && no_pred(t.edges, t.work[i]) && !t.flying.contains(t.work[i]) by {
        let n = t.work[i];
        if i < front.len() {
            assert(n == front[i]);
            let j = choose|j: int| 0 <= j < s.work.len() && s.work[j] == n;
            assert(s.nodes.contains(s.work[j]));
        } else {
            assert(n == kids[i - front.len()]);
            if s.flying.contains(n) {
                let j = choose|j: int| 0 <= j < s.flying.len() && s.flying[j] == n;
                assert(no_pred(s.edges, s.flying[j]));
            }
        }
    }
    assert(t.work.no_duplicates()) by {
        assert forall|i: int, j: int| 0 <= i < j < t.work.len() implies t.work[i] != t.work[j] by {
            if j < front.len() {
                assert(t.work[i] == front[i] && t.work[j] == front[j]);
            } else if i >= front.len() {
                assert(t.work[i] == kids[i - front.len()] && t.work[j] == kids[j - front.len()]);
            } else {
                assert(t.work[i] == front[i]);
                assert(t.work[j] == kids[j - front.len()]);
                let c = s.work.index_of(front[i]);
                assert(no_pred(s.edges, s.work[c]));
            }
        }
    }
    assert forall|n: usize| #[trigger] t.nodes.contains(n) && no_pred(t.edges, n) implies (
    t.flying.contains(n) || t.work.contains(n)) by {
        if no_pred(s.edges, n) {
            if !s.flying.contains(n) {
                assert(s.work.contains(n));
                assert(front.contains(n));
                let i = choose|i: int| 0 <= i < front.len() && front[i] == n;
                assert(t.work[i] == n);
            }
        } else {
            let a = choose|a: usize| s.edges.contains((a, n));
            assert(!t.edges.contains((a, n)));
            assert(a == id);
            assert(kids.contains(n));
            let k = choose|k: int| 0 <= k < kids.len() && kids[k] == n;
            assert(t.work[front.len() + k] == n);
        }
    }
}

/// A node that waited and is done: taken out of the plan, with the nodes
/// that can run now in its place.
pub proof fn lemma_settle(s: Schedule, id: usize, rest: Seq<usize>, kids: Seq<usize>, t: Schedule)
    requires
        sched_inv(s),
        s.work == rest.push(id),
        forall|a: usize, b: usize| #[trigger] s.edges.contains((a, b)) ==> a != b,
        kids.no_duplicates(),
        forall|n: usize|
            kids.contains(n) <==> s.edges.contains((id, n)) && no_pred(
                edges_without(s.edges, id),
                n,
            ),
        t == (Schedule {
            nodes: s.nodes.remove(id),
            edges: edges_without(s.edges, id),
            work: rest + kids,
            emitted: s.emitted + 1,
            ..s
        }),
    ensures
        sched_inv(t),
        s.nodes.contains(id),
        !s.flying.contains(id),
{
    assert(s.work[rest.len() as int] == id);
    assert(rest.no_duplicates()) by {
        assert forall|i: int, j: int| 0 <= i < j < rest.len() implies rest[i] != rest[j] by {
            assert(s.work[i] == rest[i] && s.work[j] == rest[j]);
        }
    }
    assert forall|n: usize| rest.contains(n) <==> s.work.contains(n) && n != id by {
        if rest.contains(n) {
            let i = choose|i: int| 0 <= i < rest.len() && rest[i] == n;
            assert(s.work[i] == n);
            assert(s.work[i] != s.work[rest.len() as int]);
        }
        if s.work.contains(n) && n != id {
            let i = choose|i: int| 0 <= i < s.work.len() && s.work[i] == n;
            assert(rest[i] == n);
        }
    }
    lemma_plan_without(s, id, t);
    lemma_done_without(s, id, t);
    lemma_fronts_after(s, id, rest, kids, t);
}

/// A node that waited and runs now.
pub proof fn lemma_launch(s: Schedule, id: usize, rest: Seq<usize>, t: Schedule)
    requires
        sched_inv(s),
        s.work == rest.push(id),
        t == (Schedule { flying: s.flying.push(id), work: rest, ..s }),
    ensures
        sched_inv(t),
        s.nodes.contains(id),
        !s.flying.contains(id),
{
    assert(s.work[rest.len() as int] == id);
    assert forall|i: int| 0 <= i < rest.len() implies rest[i] == s.work[i] && rest[i] != id by {
        assert(s.work[i] != s.work[rest.len() as int]);
    }
    assert forall|n: usize| t.flying.contains(n) <==> s.flying.contains(n) || n == id by {
        if t.flying.contains(n) {
            let i = choose|i: int| 0 <= i < t.flying.len() && t.flying[i] == n;
            if i < s.flying.len() {
                assert(s.flying[i] == n);
            }
        }
        if s.flying.contains(n) {
            let i = choose|i: int| 0 <= i < s.flying.len() && s.flying[i] == n;
            assert(t.flying[i] == n);
        }
        if n == id {
            assert(t.flying[s.flying.len() as int] == n);
        }
    }
    assert(t.flying.no_duplicates()) by {
        assert forall|i: int, j: int| 0 <= i < j < t.flying.len() implies t.flying[i]
            != t.flying[j] by {
            if j == s.flying.len() {
                assert(s.flying[i] == t.flying[i]);
                assert(s.flying.contains(s.flying[i]));
            }
        }
    }
    assert forall|i: int| 0 <= i < t.flying.len() implies t.nodes.contains(#[trigger] t.flying[i])
        && no_pred(t.edges, t.flying[i]) by {
        if i < s.flying.len() {
            assert(s.flying[i] == t.flying[i]);
        }
    }
    assert forall|i: int| 0 <= i < t.work.len() implies t.nodes.contains(#[trigger] t.work[i])
        && no_pred(t.edges, t.work[i]) && !t.flying.contains(t.work[i]) by {
        assert(s.work[i] == t.work[i]);
    }
    assert forall|n: usize| #[trigger] t.nodes.contains(n) && no_pred(t.edges, n) implies (
    t.flying.contains(n) || t.work.contains(n)) by {
        if !s.flying.contains(n) && n != id {
            assert(s.work.contains(n));
            let i = choose|i: int| 0 <= i < s.work.len() && s.work[i] == n;
            assert(rest[i] == n);
        }
    }
}

/// A node that ran and is done: taken out of the plan, with the nodes that
/// can run now waiting to be looked at.
pub proof fn lemma_finish(s: Schedule, id: usize, kids: Seq<usize>, t: Schedule)
    requires
        sched_inv(s),
        s.work == Seq::<usize>::empty(),
        s.flying.contains(id),
        forall|a: usize, b: usize| #[trigger] s.edges.contains((a, b)) ==> a != b,
        kids.no_duplicates(),
        forall|n: usize|
            kids.contains(n) <==> s.edges.contains((id, n)) && no_pred(
                edges_without(s.edges, id),
                n,
            ),
        t.nodes0 == s.nodes0,
        t.edges0 == s.edges0,
        t.nodes == s.nodes.remove(id),
        t.edges == edges_without(s.edges, id),
        t.flying.no_duplicates(),
        forall|n: usize| t.flying.contains(n) <==> s.flying.contains(n) && n != id,
        t.work == kids,
        t.emitted == s.emitted + 1,
    ensures
        sched_inv(t),
{
    let j = choose|j: int| 0 <= j < s.flying.len() && s.flying[j] == id;
    assert(s.nodes.contains(s.flying[j]) && no_pred(s.edges, s.flying[j]));
    lemma_plan_without(s, id, t);
    lemma_done_without(s, id, t);
    let front = Seq::<usize>::empty();
    assert(front + kids =~= kids);
    lemma_fronts_after(s, id, front, kids, t);
}

/// No node runs twice at a time, and what runs is left in the plan.
pub proof fn lemma_flying(s: Schedule)
    requires
        sched_inv(s),
    ensures
        s.flying.no_duplicates(),
        forall|i: int| 0 <= i < s.flying.len() ==> s.nodes.contains(#[trigger] s.flying[i]),
        s.nodes.subset_of(s.nodes0),
{
}

/// Topological order: a node whose step was started, or that is done, has
/// nothing before it in the plan that is not done.
pub proof fn lemma_topological(s: Schedule, a: usize, b: usize)
    requires
        sched_inv(s),
        s.edges0.contains((a, b)),
        !s.nodes.contains(b) || s.flying.contains(b),
    ensures
        s.nodes0.contains(a),
        !s.nodes.contains(a),
{
    if s.nodes.contains(b) {
        let j = choose|j: int| 0 <= j < s.flying.len() && s.flying[j] == b;
        assert(no_pred(s.edges, s.flying[j]));
        if s.nodes.contains(a) {
            assert(s.edges.contains((a, b)));
        }
    }
}

/// Completeness: once nothing runs and nothing waits to be looked at, every
/// node is done, and as many outcomes were handed out as the plan has nodes.
pub proof fn lemma_complete(s: Schedule)
    requires
        sched_inv(s),
        s.flying.len() == 0,
        s.work.len() == 0,
    ensures
        s.nodes == Set::<usize>::empty(),
        s.emitted == s.nodes0.len(),
{
    assert forall|n: usize| !s.nodes.contains(n) by {
        if s.nodes.contains(n) {
            let rank0 = choose|rank: spec_fn(usize) -> nat| ranked(s.edges0, rank);
            assert(ranked(s.edges, rank0));
            let root = lemma_dag_has_root(s.nodes, s.edges, rank0, n);
            assert(no_pred(s.edges, root));
            assert(s.flying.contains(root) || s.work.contains(root));
        }
    }
    assert(s.nodes =~= Set::<usize>::empty());
}

} // verus!
