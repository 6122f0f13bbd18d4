use ecs_core::astar::{Node, NodeSet, Search};

/// Runs a search over a graph given as adjacency lists, with a zero
/// estimate, and counts the nodes expanded.
fn run(graph: &Vec<Vec<(usize, u64)>>, start: usize, end: usize) -> (Option<Vec<usize>>, usize) {
    let mut search = Search::new(start, end);
    let mut expanded = 0;
    while let Some(n) = search.next() {
        expanded += 1;
        let neighbours: Vec<(usize, u64, u64)> = graph[n].iter().map(|&(m, c)| (m, c, 0)).collect();
        if let Some(path) = search.expand(&neighbours) {
            return (Some(path), expanded);
        }
    }
    (None, expanded)
}

#[test]
fn search_follows_a_chain() {
    let graph = vec![vec![(1, 1)], vec![(2, 1)], vec![(3, 1)], vec![]];
    assert_eq!(run(&graph, 0, 3), (Some(vec![0, 1, 2, 3]), 3));
}

#[test]
fn search_stops_when_end_is_first_seen() {
    let graph = vec![vec![(1, 1), (2, 5)], vec![(2, 1)], vec![]];
    assert_eq!(run(&graph, 0, 2).0, Some(vec![0, 2]));
}

#[test]
fn search_expands_cheapest_first() {
    // From 0, node 2 is cheaper than node 1, so 2 is expanded first and
    // the end is reached through it.
    let graph = vec![vec![(1, 4), (2, 1)], vec![(3, 1)], vec![(3, 1)], vec![]];
    assert_eq!(run(&graph, 0, 3), (Some(vec![0, 2, 3]), 2));
}

#[test]
fn search_without_path_runs_out() {
    let graph = vec![vec![(1, 1)], vec![(0, 1)], vec![]];
    assert_eq!(run(&graph, 0, 2).0, None);
    let mut s = Search::new(0, 2);
    assert_eq!(s.expand(&vec![(2, 1, 0)]), None);
}

#[test]
fn node_set_takes_least_cost_then_least_node() {
    let mut set = NodeSet::new();
    set.insert(Node::new(5, None, 3));
    set.insert(Node::new(2, Some(5), 3));
    set.insert(Node::new(9, Some(2), 1));
    set.insert(Node::new(9, Some(5), 7));
    assert_eq!(set.get(9), Some(Node::new(9, Some(5), 7)));
    assert_eq!(set.take_next(), Some(Node::new(2, Some(5), 3)));
    assert_eq!(set.take_next(), Some(Node::new(5, None, 3)));
    assert_eq!(set.take_next(), Some(Node::new(9, Some(5), 7)));
    assert_eq!(set.take_next(), None);
    assert_eq!(set.get(9), None);
}
