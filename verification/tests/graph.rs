use speck::graph::{reachable_from, recursive_members};

#[test]
fn reachability_follows_at_least_one_edge() {
    let graph = vec![vec![1], vec![2], vec![], vec![0]];
    assert_eq!(reachable_from(&graph, 0), vec![false, true, true, false]);
    assert_eq!(reachable_from(&graph, 3), vec![true, true, true, false]);
}

#[test]
fn recursive_members_are_the_nodes_on_cycles() {
    let graph = vec![vec![1], vec![0, 2], vec![], vec![3], vec![2]];
    assert_eq!(recursive_members(&graph), vec![true, true, false, true, false]);
    assert_eq!(recursive_members(&Vec::new()), Vec::<bool>::new());
}
