use std::collections::HashSet;

use chrisomatic::dag::EdgeError;
use chrisomatic::dependency_tree::TreeBuilder;

#[test]
fn test_dependency_tree() {
    let mut graph: TreeBuilder<char> = TreeBuilder::new();
    let a = graph.add_node('a');
    let b = graph.add_node('b');
    let c = graph.add_node('c');
    let d = graph.add_node('d');
    let e = graph.add_node('e');
    let f = graph.add_node('f');
    /*
     *       a  e
     *      / \  \
     *     b   c  f
     *          \
     *           d
     */
    graph.add_edge(a, b).unwrap();
    graph.add_edge(a, c).unwrap();
    graph.add_edge(c, d).unwrap();
    graph.add_edge(e, f).unwrap();

    let mut dep_tree = graph.build();
    assert_eq!(dep_tree.count(), 6);

    assert!(dep_tree.is_ready(a));
    assert!(dep_tree.is_ready(e));
    assert!(!dep_tree.is_ready(b));
    assert!(!dep_tree.is_ready(c));
    assert!(!dep_tree.is_ready(d));

    let expected = HashSet::from_iter([(a, 'a'), (e, 'e')]);
    let actual: HashSet<_> = dep_tree.start().into_iter().collect();
    assert_eq!(actual, expected);

    let actual: HashSet<_> = dep_tree.after(a).into_iter().collect();
    let expected = HashSet::from_iter([(b, 'b'), (c, 'c')]);
    assert_eq!(actual, expected);
    assert!(!dep_tree.contains_node(a));
    assert!(dep_tree.contains_node(b));
    assert!(dep_tree.contains_node(c));
    assert!(dep_tree.contains_node(d));
    assert!(dep_tree.contains_node(e));
    assert!(dep_tree.contains_node(f));

    assert_eq!(dep_tree.after(e), vec![(f, 'f')]);
    assert!(!dep_tree.contains_node(e));
    assert!(dep_tree.contains_node(f));
    assert!(dep_tree.after(f).is_empty());
    assert!(!dep_tree.contains_node(f));

    assert!(dep_tree.after(b).is_empty());
    assert_eq!(dep_tree.after(c), vec![(d, 'd')]);
}

#[test]
fn test_cycle_is_rejected_when_the_edge_is_added() {
    let mut graph: TreeBuilder<char> = TreeBuilder::new();
    let a = graph.add_node('a');
    let b = graph.add_node('b');
    let c = graph.add_node('c');
    assert_eq!(graph.add_edge(a, b), Ok(()));
    assert_eq!(graph.add_edge(b, c), Ok(()));
    assert_eq!(graph.add_edge(c, a), Err(EdgeError::Cycle));
    assert_eq!(graph.add_edge(b, a), Err(EdgeError::Cycle));
    assert_eq!(graph.add_edge(a, a), Err(EdgeError::SelfLoop));
    assert_eq!(graph.add_edge(a, 17), Err(EdgeError::InvalidEdge));
    let tree = graph.build();
    assert_eq!(tree.count(), 3);
    let roots: Vec<usize> = tree.start().into_iter().map(|(i, _)| i).collect();
    assert_eq!(roots, vec![a]);
}

#[test]
fn test_after_lists_a_child_once_and_ignores_unknown_nodes() {
    let mut graph: TreeBuilder<u8> = TreeBuilder::new();
    let a = graph.add_node(1);
    let b = graph.add_node(2);
    graph.add_edge(a, b).unwrap();
    graph.add_edge(a, b).unwrap();
    let mut tree = graph.build();
    assert!(tree.after(99).is_empty());
    assert_eq!(tree.count(), 2);
    assert_eq!(tree.after(a), vec![(b, 2)]);
    assert!(tree.after(a).is_empty());
    assert_eq!(tree.count(), 1);
    assert_eq!(tree.get(b), Some(&2));
    assert_eq!(tree.get(a), None);
}

#[test]
fn test_add_wires_each_need() {
    let mut graph: TreeBuilder<u8> = TreeBuilder::new();
    let a = graph.add(1, &vec![]);
    let b = graph.add(2, &vec![a]);
    let c = graph.add(3, &vec![a, b]);
    let mut tree = graph.build();
    assert_eq!(tree.start(), vec![(a, 1)]);
    assert_eq!(tree.after(a), vec![(b, 2)]);
    assert_eq!(tree.after(b), vec![(c, 3)]);
    assert!(tree.after(c).is_empty());
    assert_eq!(tree.count(), 0);
}
