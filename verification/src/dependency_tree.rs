//! A directed acyclic graph of jobs, consumed from its roots.
//!
//! An edge from A to B means that B depends on A.
use crate::dag::{
    dag_add_node, dag_contains_node, dag_edges, dag_new, dag_node_count, dag_node_indices,
    dag_node_weight, dag_nodes, dag_predecessors, dag_remove_node, dag_successors,
    dag_try_add_edge, edges_without, is_dag, ranked, Dag, EdgeError,
};
use vstd::prelude::*;

verus! {

/// A directed acyclic graph (DAG) of jobs to run.
///
/// Nodes are removed as their jobs are done; the indices of the others stay.
pub struct DependencyTree<T> {
    graph: Dag,
    items: Vec<T>,
}

/// The first components of a sequence of pairs.
pub open spec fn ids_of<T>(pairs: Seq<(usize, T)>) -> Seq<usize> {
    pairs.map_values(|p: (usize, T)| p.0)
}

/// The edges stay free of cycles when nodes leave.
pub proof fn lemma_dag_without(edges: Set<(usize, usize)>, i: usize)
    requires
        is_dag(edges),
    ensures
        is_dag(edges_without(edges, i)),
{
    let rank = choose|rank: spec_fn(usize) -> nat| ranked(edges, rank);
    assert(ranked(edges_without(edges, i), rank));
}

/// An edge into a node that no edge leaves closes no cycle.
pub proof fn lemma_dag_edge_into_sink(edges: Set<(usize, usize)>, a: usize, b: usize)
    requires
        is_dag(edges),
        a != b,
        forall|x: usize| !edges.contains((b, x)),
    ensures
        is_dag(edges.insert((a, b))),
{
    let rank = choose|rank: spec_fn(usize) -> nat| ranked(edges, rank);
    let lifted = |x: usize|
        if x == b {
            if rank(b) > rank(a) {
                rank(b)
            } else {
                rank(a) + 1
            }
        } else {
            rank(x)
        };
    assert(ranked(edges.insert((a, b)), lifted)) by {
        assert forall|x: usize, y: usize| #[trigger]
            edges.insert((a, b)).contains((x, y)) implies lifted(x) < lifted(y) by {
            if edges.contains((x, y)) {
                assert(rank(x) < rank(y));
            }
        }
    }
}

/// The nodes of `path` are joined by edges, each to the next.
pub open spec fn is_path(edges: Set<(usize, usize)>, path: Seq<usize>) -> bool {
    &&& path.len() >= 1
    &&& forall|i: int| 0 <= i < path.len() - 1 ==> edges.contains((#[trigger] path[i], path[i + 1]))
}

/// Along a path the numbering of the nodes never goes down.
pub proof fn lemma_path_climbs(
    edges: Set<(usize, usize)>,
    rank: spec_fn(usize) -> nat,
    path: Seq<usize>,
)
    requires
        ranked(edges, rank),
        is_path(edges, path),
    ensures
        rank(path[0]) <= rank(path.last()),
    decreases path.len(),
{
    if path.len() > 1 {
        let front = path.drop_last();
        assert forall|i: int| 0 <= i < front.len() - 1 implies edges.contains(
            (#[trigger] front[i], front[i + 1]),
        ) by {
            assert(edges.contains((path[i], path[i + 1])));
        }
        lemma_path_climbs(edges, rank, front);
        let n = path.len() - 2;
        assert(edges.contains((path[n], path[n + 1])));
    }
}

/// An edge from `a` to `b` closes a cycle where a path leads from `b` to `a`;
/// so does an edge from a node to itself.
pub proof fn lemma_edge_closes_cycle(edges: Set<(usize, usize)>, a: usize, b: usize, path: Seq<usize>)
    requires
        is_path(edges, path),
        path[0] == b,
        path.last() == a,
    ensures
        !is_dag(edges.insert((a, b))),
{
    let closed = edges.insert((a, b));
    if is_dag(closed) {
        let rank = choose|rank: spec_fn(usize) -> nat| ranked(closed, rank);
        assert(ranked(edges, rank)) by {
            assert forall|x: usize, y: usize| #[trigger] edges.contains((x, y)) implies rank(x)
                < rank(y) by {
                assert(closed.contains((x, y)));
            }
        }
        lemma_path_climbs(edges, rank, path);
        assert(closed.contains((a, b)));
    }
}

/// In a set of nodes closed under the edges' sources, with edges free of
/// cycles, every node has an ancestor (or is one itself) that no edge enters.
pub proof fn lemma_dag_has_root(
    nodes: Set<usize>,
    edges: Set<(usize, usize)>,
    rank: spec_fn(usize) -> nat,
    n: usize,
) -> (root: usize)
    requires
        ranked(edges, rank),
        nodes.contains(n),
        forall|a: usize, b: usize| #[trigger] edges.contains((a, b)) ==> nodes.contains(a),
    ensures
        nodes.contains(root),
        forall|a: usize| !edges.contains((a, root)),
    decreases rank(n),
{
    if exists|a: usize| edges.contains((a, n)) {
        let a = choose|a: usize| edges.contains((a, n));
        lemma_dag_has_root(nodes, edges, rank, a)
    } else {
        n
    }
}

impl<T> DependencyTree<T> {
    /// The indices of the nodes that are left.
    pub closed spec fn nodes(&self) -> Set<usize> {
        dag_nodes(self.graph).dom()
    }

    /// The edges between the nodes that are left.
    pub closed spec fn edges(&self) -> Set<(usize, usize)> {
        dag_edges(self.graph)
    }

    /// The job at a node.
    pub closed spec fn item(&self, i: usize) -> T {
        self.items@[dag_nodes(self.graph)[i] as int]
    }

    /// What holds of every tree: finitely many nodes, each with a job; edges
    /// between nodes of the tree only; no cycle.
    pub closed spec fn wf(&self) -> bool {
        &&& dag_nodes(self.graph).dom().finite()
        &&& forall|i: usize| #[trigger]
            dag_nodes(self.graph).dom().contains(i) ==> dag_nodes(self.graph)[i]
                < self.items@.len()
        &&& forall|a: usize, b: usize| #[trigger]
            dag_edges(self.graph).contains((a, b)) ==> dag_nodes(self.graph).dom().contains(a)
                && dag_nodes(self.graph).dom().contains(b)
        &&& is_dag(dag_edges(self.graph))
    }

    /// No edge leads to `n`: nothing that `n` depends on is left.
    pub open spec fn ready(&self, n: usize) -> bool {
        forall|a: usize| !self.edges().contains((a, n))
    }

    /// The nodes that can run now.
    pub open spec fn roots(&self) -> Set<usize> {
        Set::new(|n: usize| self.nodes().contains(n) && self.ready(n))
    }

    /// The facts of `wf` that speak of the tree's nodes and edges alone.
    pub proof fn lemma_wf(&self)
        requires
            self.wf(),
        ensures
            self.nodes().finite(),
            is_dag(self.edges()),
            forall|a: usize, b: usize| #[trigger]
                self.edges().contains((a, b)) ==> self.nodes().contains(a)
                    && self.nodes().contains(b) && a != b,
    {
        let rank = choose|rank: spec_fn(usize) -> nat| ranked(self.edges(), rank);
        assert forall|a: usize, b: usize| #[trigger] self.edges().contains((a, b)) implies a
            != b by {
            assert(rank(a) < rank(b));
        }
    }

    /// An empty tree.
    pub(crate) fn empty() -> (tree: Self)
        ensures
            tree.wf(),
            tree.nodes() == Set::<usize>::empty(),
            tree.edges() == Set::<(usize, usize)>::empty(),
    {
        let tree = DependencyTree { graph: dag_new(), items: Vec::new() };
        proof {
            let rank = |x: usize| 0nat;
            assert(ranked(tree.edges(), rank));
            assert(tree.nodes() =~= Set::<usize>::empty());
        }
        tree
    }

    /// Adds a node for `item`, with no edge, and returns its index.
    pub(crate) fn push_node(&mut self, item: T) -> (i: usize)
        requires
            old(self).wf(),
        ensures
            final(self).wf(),
            !old(self).nodes().contains(i),
            final(self).nodes() == old(self).nodes().insert(i),
            final(self).edges() == old(self).edges(),
            final(self).item(i) == item,
            forall|n: usize| old(self).nodes().contains(n) ==> final(self).item(n) == old(self).item(n),
    {
        let slot = self.items.len();
        self.items.push(item);
        let i = dag_add_node(&mut self.graph, slot);
        proof {
            assert(final(self).nodes() =~= old(self).nodes().insert(i));
        }
        i
    }

    /// Adds the edge from `a` to `b`, unless it would close a cycle or one of
    /// the two is no node of the tree.
    pub(crate) fn push_edge(&mut self, a: usize, b: usize) -> (r: Result<(), EdgeError>)
        requires
            old(self).wf(),
        ensures
            final(self).wf(),
            final(self).nodes() == old(self).nodes(),
            forall|n: usize| final(self).item(n) == old(self).item(n),
            r is Ok <==> old(self).nodes().contains(a) && old(self).nodes().contains(b) && is_dag(
                old(self).edges().insert((a, b)),
            ),
            r is Ok ==> final(self).edges() == old(self).edges().insert((a, b)),
            r is Err ==> final(self).edges() == old(self).edges(),
            a == b || old(self).edges().contains((b, a)) ==> r is Err,
            r matches Err(e) ==> e == (if !old(self).nodes().contains(a) || !old(self).nodes().contains(b) {
                EdgeError::InvalidEdge
            } else if a == b {
                EdgeError::SelfLoop
            } else {
                EdgeError::Cycle
            }),
    {
        if !dag_contains_node(&self.graph, a) || !dag_contains_node(&self.graph, b) {
            return Err(EdgeError::InvalidEdge);
        }
        proof {
            if a == b {
                lemma_edge_closes_cycle(self.edges(), a, b, seq![a]);
            } else if self.edges().contains((b, a)) {
                let path = seq![b, a];
                assert(path[0] == b && path[1] == a);
                lemma_edge_closes_cycle(self.edges(), a, b, path);
            }
        }
        dag_try_add_edge(&mut self.graph, a, b)
    }

    /// Count the number of nodes.
    pub fn count(&self) -> (n: usize)
        requires
            self.wf(),
        ensures
            n == self.nodes().len(),
    {
        dag_node_count(&self.graph)
    }

    /// Returns `true` if `i` is a node of the tree.
    pub fn contains_node(&self, i: usize) -> (b: bool)
        ensures
            b == self.nodes().contains(i),
    {
        dag_contains_node(&self.graph, i)
    }

    /// Returns `true` if the node has no dependencies.
    pub fn is_ready(&self, n: usize) -> (b: bool)
        ensures
            b == self.ready(n),
    {
        let before = dag_predecessors(&self.graph, n);
        proof {
            if before@.len() > 0 {
                assert(before@.contains(before@[0]));
                assert(self.edges().contains((before@[0], n)));
            } else {
                assert forall|a: usize| !self.edges().contains((a, n)) by {
                    assert(!before@.contains(a));
                }
            }
        }
        before.len() == 0
    }

    /// The job at node `i`, if `i` is a node of the tree.
    pub fn get(&self, i: usize) -> (item: Option<&T>)
        requires
            self.wf(),
        ensures
            match item {
                Some(job) => self.nodes().contains(i) && *job == self.item(i),
                None => !self.nodes().contains(i),
            },
    {
        match dag_node_weight(&self.graph, i) {
            Some(slot) => Some(&self.items[slot]),
            None => None,
        }
    }
}

/// Returns `true` if `id` is the first component of one of the pairs.
fn has_id<T>(pairs: &Vec<(usize, T)>, id: usize) -> (b: bool)
    ensures
        b == ids_of(pairs@).contains(id),
{
    let mut k: usize = 0;
    while k < pairs.len()
        invariant
            k <= pairs.len(),
            forall|j: int| 0 <= j < k ==> ids_of(pairs@)[j] != id,
        decreases pairs.len() - k,
    {
        if pairs[k].0 == id {
            assert(ids_of(pairs@)[k as int] == id);
            return true;
        }
        k += 1;
    }
    false
}

/// `picked` holds exactly those of the first `k` entries of `from` that are
/// good.
pub open spec fn picked_from(
    picked: Seq<usize>,
    from: Seq<usize>,
    k: int,
    good: spec_fn(usize) -> bool,
) -> bool {
    forall|n: usize|
        picked.contains(n) <==> (exists|j: int| 0 <= j < k && from[j] == n && good(n))
}

/// Where no entry stands twice, the next one has not been picked yet.
proof fn lemma_pick_fresh(picked: Seq<usize>, from: Seq<usize>, k: int, good: spec_fn(usize) -> bool)
    requires
        0 <= k < from.len(),
        from.no_duplicates(),
        picked_from(picked, from, k, good),
    ensures
        !picked.contains(from[k]),
{
    if picked.contains(from[k]) {
        let j = choose|j: int| 0 <= j < k && from[j] == from[k] && good(from[k]);
        assert(from[j] == from[k]);
    }
}

/// Picking goes on by one entry: a good one that is not there yet is put at
/// the end, and nothing else changes.
proof fn lemma_pick_step(
    before: Seq<usize>,
    after: Seq<usize>,
    from: Seq<usize>,
    k: int,
    good: spec_fn(usize) -> bool,
)
    requires
        0 <= k < from.len(),
        picked_from(before, from, k, good),
        before.no_duplicates(),
        if good(from[k]) && !before.contains(from[k]) {
            after == before.push(from[k])
        } else {
            after == before
        },
    ensures
        picked_from(after, from, k + 1, good),
        after.no_duplicates(),
{
    let c = from[k];
    assert forall|m: usize|
        after.contains(m) <==> (exists|j: int| 0 <= j < k + 1 && from[j] == m && good(m)) by {
        if after.contains(m) {
            if before.contains(m) {
                let j = choose|j: int| 0 <= j < k && from[j] == m && good(m);
                assert(0 <= j < k + 1 && from[j] == m && good(m));
            } else {
                let p = choose|p: int| 0 <= p < after.len() && after[p] == m;
                if p < before.len() {
                    assert(before[p] == m);
                }
                assert(m == c);
                assert(0 <= k < k + 1 && from[k] == m && good(m));
            }
        }
        if exists|j: int| 0 <= j < k + 1 && from[j] == m && good(m) {
            let j = choose|j: int| 0 <= j < k + 1 && from[j] == m && good(m);
            if j < k {
                assert(before.contains(m));
                let p = choose|p: int| 0 <= p < before.len() && before[p] == m;
                assert(after[p] == m);
            } else if before.contains(c) {
                let p = choose|p: int| 0 <= p < before.len() && before[p] == m;
                assert(after[p] == m);
            } else {
                assert(after[before.len() as int] == m);
            }
        }
    }
}

/// When every entry has been looked at, what was picked is what is good
/// among them.
proof fn lemma_pick_all(picked: Seq<usize>, from: Seq<usize>, good: spec_fn(usize) -> bool)
    requires
        picked_from(picked, from, from.len() as int, good),
    ensures
        forall|n: usize| #[trigger] picked.contains(n) <==> from.contains(n) && good(n),
{
    assert forall|n: usize| #[trigger] picked.contains(n) <==> from.contains(n) && good(n) by {
        if picked.contains(n) {
            let j = choose|j: int| 0 <= j < from.len() && from[j] == n && good(n);
            assert(from[j] == n);
        }
        if from.contains(n) && good(n) {
            let j = choose|j: int| 0 <= j < from.len() && from[j] == n;
            assert(0 <= j < from.len() && from[j] == n && good(n));
        }
    }
}

impl<T: Clone> DependencyTree<T> {
    /// Get the "roots" of the DAG, i.e. all nodes which have no dependencies,
    /// each once, with a clone of its job.
    pub fn start(&self) -> (ready: Vec<(usize, T)>)
        requires
            self.wf(),
        ensures
            ids_of(ready@).no_duplicates(),
            ids_of(ready@).to_set() == self.roots(),
            forall|k: int|
                0 <= k < ready@.len() ==> cloned(self.item((#[trigger] ready@[k]).0), ready@[k].1),
    {
        let all = dag_node_indices(&self.graph);
        let mut ready: Vec<(usize, T)> = Vec::new();
        let ghost good = |n: usize| self.ready(n);
        assert(picked_from(ids_of(ready@), all@, 0, good));
        let mut k: usize = 0;
        while k < all.len()
            invariant
                self.wf(),
                k <= all.len(),
                all@.no_duplicates(),
                forall|i: usize| all@.contains(i) <==> self.nodes().contains(i),
                ids_of(ready@).no_duplicates(),
                forall|n: usize| good(n) == self.ready(n),
                picked_from(ids_of(ready@), all@, k as int, good),
                forall|j: int|
                    0 <= j < ready@.len() ==> cloned(
                        self.item((#[trigger] ready@[j]).0),
                        ready@[j].1,
                    ),
            decreases all.len() - k,
        {
            let n = all[k];
            assert(all@.contains(n));
            let ghost before = ready@;
            if self.is_ready(n) {
                let slot = dag_node_weight(&self.graph, n).unwrap();
                let job = self.items[slot].clone();
                ready.push((n, job));
                proof {
                    assert(ids_of(ready@) =~= ids_of(before).push(n));
                    lemma_pick_fresh(ids_of(before), all@, k as int, good);
                }
            }
            proof {
                lemma_pick_step(ids_of(before), ids_of(ready@), all@, k as int, good);
            }
            k += 1;
        }
        proof {
            lemma_pick_all(ids_of(ready@), all@, good);
            assert(ids_of(ready@).to_set() =~= self.roots());
        }
        ready
    }

    /// Consider the specified node as "done" and remove it. Return all dependent
    /// nodes which are now ready to run because of the removal, each once, with
    /// a clone of its job. With an index that is no node, nothing happens.
    pub fn after(&mut self, i: usize) -> (ready: Vec<(usize, T)>)
        requires
            old(self).wf(),
        ensures
            final(self).wf(),
            final(self).nodes() == old(self).nodes().remove(i),
            final(self).edges() == edges_without(old(self).edges(), i),
            forall|n: usize| n != i ==> final(self).item(n) == old(self).item(n),
            ids_of(ready@).no_duplicates(),
            forall|n: usize|
                #![trigger ids_of(ready@).contains(n)]
                #![trigger old(self).edges().contains((i, n))]
                ids_of(ready@).contains(n) <==> old(self).edges().contains((i, n)) && final(self).ready(n),
            forall|k: int|
                0 <= k < ready@.len() ==> cloned(
                    final(self).item((#[trigger] ready@[k]).0),
                    ready@[k].1,
                ),
    {
        let mut ready: Vec<(usize, T)> = Vec::new();
        proof {
            old(self).lemma_wf();
        }
        if !dag_contains_node(&self.graph, i) {
            proof {
                assert(self.nodes() =~= old(self).nodes().remove(i));
                assert forall|e: (usize, usize)| self.edges().contains(e) implies e.0 != i && e.1
                    != i by {
                    assert(self.edges().contains((e.0, e.1)));
                }
                assert(self.edges() =~= edges_without(old(self).edges(), i));
            }
            return ready;
        }
        let children = dag_successors(&self.graph, i);
        let _ = dag_remove_node(&mut self.graph, i);
        proof {
            lemma_dag_without(old(self).edges(), i);
        }
        let ghost good = |n: usize| self.ready(n);
        assert(picked_from(ids_of(ready@), children@, 0, good));
        let mut k: usize = 0;
        while k < children.len()
            invariant
                self.wf(),
                old(self).wf(),
                k <= children.len(),
                self.nodes() == old(self).nodes().remove(i),
                self.edges() == edges_without(old(self).edges(), i),
                forall|n: usize| n != i ==> self.item(n) == old(self).item(n),
                forall|b: usize| children@.contains(b) <==> old(self).edges().contains((i, b)),
                forall|a: usize, b: usize| #[trigger]
                    old(self).edges().contains((a, b)) ==> old(self).nodes().contains(a) && old(self).nodes().contains(b) && a != b,
                ids_of(ready@).no_duplicates(),
                forall|n: usize| good(n) == self.ready(n),
                picked_from(ids_of(ready@), children@, k as int, good),
                forall|j: int|
                    0 <= j < ready@.len() ==> cloned(
                        self.item((#[trigger] ready@[j]).0),
                        ready@[j].1,
                    ),
            decreases children.len() - k,
        {
            let c = children[k];
            assert(children@.contains(c));
            let ghost before = ready@;
            if self.is_ready(c) && !has_id(&ready, c) {
                let slot = dag_node_weight(&self.graph, c).unwrap();
                let job = self.items[slot].clone();
                ready.push((c, job));
                proof {
                    assert(ids_of(ready@) =~= ids_of(before).push(c));
                }
            }
            proof {
                lemma_pick_step(ids_of(before), ids_of(ready@), children@, k as int, good);
            }
            k += 1;
        }
        proof {
            lemma_pick_all(ids_of(ready@), children@, good);
        }
        ready
    }
}

/// Builds a [`DependencyTree`] node by node. Edges are added only where they
/// close no cycle, so what comes out is acyclic.
pub struct TreeBuilder<T> {
    tree: DependencyTree<T>,
}

impl<T> View for TreeBuilder<T> {
    type V = DependencyTree<T>;

    /// The tree as built so far.
    closed spec fn view(&self) -> DependencyTree<T> {
        self.tree
    }
}

impl<T> TreeBuilder<T> {
    /// A builder with no nodes.
    pub fn new() -> (builder: Self)
        ensures
            builder@.wf(),
            builder@.nodes() == Set::<usize>::empty(),
            builder@.edges() == Set::<(usize, usize)>::empty(),
    {
        TreeBuilder { tree: DependencyTree::empty() }
    }

    /// Adds a node for `item`, with no edge yet, and returns its index.
    pub fn add_node(&mut self, item: T) -> (i: usize)
        requires
            old(self)@.wf(),
        ensures
            final(self)@.wf(),
            !old(self)@.nodes().contains(i),
            final(self)@.nodes() == old(self)@.nodes().insert(i),
            final(self)@.edges() == old(self)@.edges(),
            final(self)@.item(i) == item,
            forall|n: usize|
                old(self)@.nodes().contains(n) ==> final(self)@.item(n) == old(self)@.item(n),
    {
        self.tree.push_node(item)
    }

    /// Adds an edge from `a` to `b`: `b` depends on `a`.
    ///
    /// The edge is refused, and the graph left as it was, if one of the two
    /// is no node (`InvalidEdge`), if they are one node (`SelfLoop`), or if a
    /// path leads from `b` to `a` already (`Cycle`).
    pub fn add_edge(&mut self, a: usize, b: usize) -> (r: Result<(), EdgeError>)
        requires
            old(self)@.wf(),
        ensures
            final(self)@.wf(),
            final(self)@.nodes() == old(self)@.nodes(),
            forall|n: usize| final(self)@.item(n) == old(self)@.item(n),
            r is Ok <==> old(self)@.nodes().contains(a) && old(self)@.nodes().contains(b)
                && is_dag(old(self)@.edges().insert((a, b))),
            r is Ok ==> final(self)@.edges() == old(self)@.edges().insert((a, b)),
            r is Err ==> final(self)@.edges() == old(self)@.edges(),
            a == b || old(self)@.edges().contains((b, a)) ==> r is Err,
            r matches Err(e) ==> e == (if !old(self)@.nodes().contains(a) || !old(self)@.nodes().contains(b) {
                EdgeError::InvalidEdge
            } else if a == b {
                EdgeError::SelfLoop
            } else {
                EdgeError::Cycle
            }),
    {
        self.tree.push_edge(a, b)
    }

    /// Adds a node for `item` that depends on each node of `needs`, and
    /// returns its index.
    pub fn add(&mut self, item: T, needs: &Vec<usize>) -> (i: usize)
        requires
            old(self)@.wf(),
            forall|k: int| 0 <= k < needs@.len() ==> old(self)@.nodes().contains(needs@[k]),
        ensures
            final(self)@.wf(),
            !old(self)@.nodes().contains(i),
            final(self)@.nodes() == old(self)@.nodes().insert(i),
            forall|a: usize, b: usize|
                final(self)@.edges().contains((a, b)) <==> old(self)@.edges().contains((a, b)) || (
                b == i && needs@.contains(a)),
            final(self)@.item(i) == item,
            forall|n: usize|
                old(self)@.nodes().contains(n) ==> final(self)@.item(n) == old(self)@.item(n),
    {
        proof {
            old(self)@.lemma_wf();
        }
        let i = self.tree.push_node(item);
        let mut k: usize = 0;
        while k < needs.len()
            invariant
                self@.wf(),
                k <= needs@.len(),
                !old(self)@.nodes().contains(i),
                self@.nodes() == old(self)@.nodes().insert(i),
                forall|j: int| 0 <= j < needs@.len() ==> old(self)@.nodes().contains(needs@[j]),
                forall|a: usize, b: usize| #[trigger]
                    old(self)@.edges().contains((a, b)) ==> old(self)@.nodes().contains(a) && old(self)@.nodes().contains(b),
                forall|a: usize, b: usize|
                    self@.edges().contains((a, b)) <==> old(self)@.edges().contains((a, b)) || (b
                        == i && exists|j: int| 0 <= j < k && needs@[j] == a),
                self@.item(i) == item,
                forall|n: usize|
                    old(self)@.nodes().contains(n) ==> self@.item(n) == old(self)@.item(n),
            decreases needs@.len() - k,
        {
            let need = needs[k];
            proof {
                self@.lemma_wf();
                lemma_dag_edge_into_sink(self@.edges(), need, i);
            }
            let ghost before = self@.edges();
            let r = self.tree.push_edge(need, i);
            proof {
                assert(r is Ok);
                assert forall|a: usize, b: usize|
                    self@.edges().contains((a, b)) <==> old(self)@.edges().contains((a, b)) || (b
                        == i && exists|j: int| 0 <= j < k + 1 && needs@[j] == a) by {
                    if b == i && exists|j: int| 0 <= j < k + 1 && needs@[j] == a {
                        let j = choose|j: int| 0 <= j < k + 1 && needs@[j] == a;
                        if j < k {
                            assert(before.contains((a, b)));
                        }
                    }
                    if self@.edges().contains((a, b)) && !before.contains((a, b)) {
                        assert(0 <= k < k + 1 && needs@[k as int] == a);
                    }
                }
            }
            k += 1;
        }
        i
    }

    /// Returns `true` if `i` is a node of the tree.
    pub fn contains_node(&self, i: usize) -> (b: bool)
        ensures
            b == self@.nodes().contains(i),
    {
        self.tree.contains_node(i)
    }

    /// The job at node `i`, if `i` is a node of the tree.
    pub fn get(&self, i: usize) -> (item: Option<&T>)
        requires
            self@.wf(),
        ensures
            match item {
                Some(job) => self@.nodes().contains(i) && *job == self@.item(i),
                None => !self@.nodes().contains(i),
            },
    {
        self.tree.get(i)
    }

    /// The tree that was built.
    pub fn build(self) -> (tree: DependencyTree<T>)
        ensures
            tree == self@,
    {
        self.tree
    }
}

} // verus!
