use dijkstra::alg::{calculate_path_cost, find_path, AlgorithmError};
use dijkstra::graph::{Graph, Node, NodeRcWrapper};

fn graph_with_nodes(directed: bool, count: u32) -> Graph<u32> {
    let mut graph = Graph::<u32>::new(directed);
    for value in 1..=count {
        graph.add_node(Node::new(value)).expect("Failed to add node");
    }
    graph
}

fn values(graph: &Graph<u32>, path: &Vec<NodeRcWrapper>) -> Vec<u32> {
    path.iter().map(|h| *graph.get_nodes()[h.0].get_value()).collect()
}

fn reason(result: Result<Vec<NodeRcWrapper>, AlgorithmError>) -> String {
    match result {
        Err(AlgorithmError::CannotFindPath(m)) => m,
        other => panic!("expected CannotFindPath, got {:?}", other),
    }
}

#[test]
fn simple_directed() {
    let mut graph = graph_with_nodes(true, 6);
    graph.add_edge(&1, &2, 1);
    graph.add_edge(&1, &3, 3);
    graph.add_edge(&2, &5, 2);
    graph.add_edge(&3, &4, 3);
    graph.add_edge(&5, &4, 1);
    graph.add_edge(&4, &6, 2);

    let solution_path = find_path(&graph, &1, &6);
    assert!(solution_path.is_ok());
    let solution_path = solution_path.unwrap();

    assert_eq!(solution_path.len(), 5, "Path length is not 5");
    assert_eq!(values(&graph, &solution_path), vec![1, 2, 5, 4, 6], "Path incorrect");

    let cost = calculate_path_cost(&graph, &solution_path);
    assert_eq!(cost, 6, "Path cost is not 6");
}

#[test]
fn complex_directed() {
    let mut graph = graph_with_nodes(true, 11);
    graph.add_edge(&1, &2, 1);
    graph.add_edge(&1, &4, 1);
    graph.add_edge(&1, &3, 3);
    graph.add_edge(&2, &7, 5);
    graph.add_edge(&3, &4, 2);
    graph.add_edge(&3, &6, 2);
    graph.add_edge(&3, &6, 4);
    graph.add_edge(&4, &5, 6);
    graph.add_edge(&4, &6, 1);
    graph.add_edge(&5, &8, 2);
    graph.add_edge(&5, &9, 2);
    graph.add_edge(&6, &8, 3);
    graph.add_edge(&7, &8, 6);
    graph.add_edge(&8, &10, 2);
    graph.add_edge(&9, &10, 2);
    graph.add_edge(&9, &11, 4);
    graph.add_edge(&10, &11, 3);

    let solution_path = find_path(&graph, &1, &11);
    assert!(solution_path.is_ok());
    let solution_path = solution_path.unwrap();

    assert_eq!(solution_path.len(), 6, "Path length is not 6");
    assert_eq!(values(&graph, &solution_path), vec![1, 4, 6, 8, 10, 11], "Path incorrect");

    let cost = calculate_path_cost(&graph, &solution_path);
    assert_eq!(cost, 10, "Path cost is not 10");
}

fn nine_node_graph(directed: bool) -> Graph<u32> {
    let mut graph = graph_with_nodes(directed, 9);
    graph.add_edge(&1, &2, 2);
    graph.add_edge(&1, &4, 2);
    if directed {
        graph.add_edge(&4, &1, 2);
    }
    graph.add_edge(&2, &5, 2);
    graph.add_edge(&3, &2, 1);
    graph.add_edge(&4, &5, 2);
    if directed {
        graph.add_edge(&5, &4, 2);
    }
    graph.add_edge(&4, &7, 2);
    graph.add_edge(&5, &8, 2);
    graph.add_edge(&6, &3, 1);
    graph.add_edge(&6, &5, 1);
    graph.add_edge(&7, &8, 2);
    graph.add_edge(&8, &9, 1);
    graph.add_edge(&9, &6, 1);
    graph
}

#[test]
fn directed_vs_undirected() {
    for directed in [true, false] {
        let graph = nine_node_graph(directed);

        let mut solution_path = find_path(&graph, &1, &6);
        for _ in 0..999 {
            solution_path = find_path(&graph, &1, &6);
        }
        assert!(solution_path.is_ok());
        let solution_path = solution_path.unwrap();

        if directed {
            assert_eq!(solution_path.len(), 6, "Directed path length is not 6");
            assert_eq!(
                values(&graph, &solution_path),
                vec![1, 2, 5, 8, 9, 6],
                "Directed path incorrect"
            );
            let cost = calculate_path_cost(&graph, &solution_path);
            assert_eq!(cost, 8, "Directed path cost is not 8");
        } else {
            assert_eq!(solution_path.len(), 4, "Undirected path is not 4");
            assert_eq!(
                values(&graph, &solution_path),
                vec![1, 2, 3, 6],
                "Undirected path incorrect"
            );
            let cost = calculate_path_cost(&graph, &solution_path);
            assert_eq!(cost, 4, "Undirected path cost is not 4");
        }
    }
}

#[test]
fn empty_graph_has_no_path() {
    let graph = Graph::<u32>::new(true);
    assert_eq!(reason(find_path(&graph, &1, &2)), "No nodes exist in graph");
}

#[test]
fn start_equal_to_end_fails() {
    let mut graph = graph_with_nodes(true, 2);
    graph.add_edge(&1, &1, 1);
    assert_eq!(reason(find_path(&graph, &1, &1)), "Start and end nodes are the same");
    assert_eq!(reason(find_path(&graph, &5, &5)), "Start and end nodes are the same");
}

#[test]
fn missing_endpoints_fail() {
    let mut graph = graph_with_nodes(true, 2);
    graph.add_edge(&1, &2, 1);
    assert_eq!(reason(find_path(&graph, &1, &3)), "End node does not exist in graph");
    assert_eq!(reason(find_path(&graph, &3, &2)), "Start node does not exist in graph");
    assert_eq!(reason(find_path(&graph, &3, &4)), "End node does not exist in graph");
}

#[test]
fn unreachable_end_fails() {
    let mut graph = graph_with_nodes(true, 3);
    graph.add_edge(&2, &3, 1);
    graph.add_edge(&3, &1, 1);
    assert_eq!(reason(find_path(&graph, &1, &3)), "No path found");
    assert_eq!(reason(find_path(&graph, &1, &2)), "No path found");
}

#[test]
fn early_exit_takes_first_edge_to_end() {
    let mut graph = graph_with_nodes(true, 3);
    graph.add_edge(&1, &3, 10);
    graph.add_edge(&1, &2, 1);
    graph.add_edge(&2, &3, 1);
    let path = find_path(&graph, &1, &3).unwrap();
    assert_eq!(values(&graph, &path), vec![1, 3]);
    assert_eq!(calculate_path_cost(&graph, &path), 10);
}

#[test]
fn path_starts_at_start_and_ends_at_end() {
    let mut graph = graph_with_nodes(false, 4);
    graph.add_edge(&4, &3, 2);
    graph.add_edge(&3, &2, 2);
    graph.add_edge(&2, &1, 2);
    let path = find_path(&graph, &4, &1).unwrap();
    assert_eq!(values(&graph, &path), vec![4, 3, 2, 1]);
    let back = find_path(&graph, &1, &4).unwrap();
    assert_eq!(values(&graph, &back), vec![1, 2, 3, 4]);
    assert_eq!(calculate_path_cost(&graph, &back), 6);
}

#[test]
fn queries_do_not_share_state() {
    let graph = nine_node_graph(true);
    let first = find_path(&graph, &1, &6).unwrap();
    let other = find_path(&graph, &2, &9).unwrap();
    let again = find_path(&graph, &1, &6).unwrap();
    assert_eq!(values(&graph, &other), vec![2, 5, 8, 9]);
    assert_eq!(first, again);
    for node in graph.get_nodes() {
        assert_eq!(node.get_distance(), u32::MAX);
        assert!(node.get_path().is_empty());
    }
}

#[test]
fn cost_of_short_paths_is_zero() {
    let mut graph = graph_with_nodes(true, 2);
    graph.add_edge(&1, &2, 7);
    assert_eq!(calculate_path_cost(&graph, &vec![]), 0);
    assert_eq!(calculate_path_cost(&graph, &vec![NodeRcWrapper(0)]), 0);
}

#[test]
fn cost_counts_only_matching_edges() {
    let mut graph = graph_with_nodes(true, 3);
    graph.add_edge(&1, &2, 7);
    graph.add_edge(&2, &3, 5);
    let path = vec![NodeRcWrapper(0), NodeRcWrapper(1), NodeRcWrapper(2)];
    assert_eq!(calculate_path_cost(&graph, &path), 12);
    let broken = vec![NodeRcWrapper(0), NodeRcWrapper(2), NodeRcWrapper(1)];
    assert_eq!(calculate_path_cost(&graph, &broken), 0);
}

#[test]
fn large_weights_do_not_overflow_the_query() {
    let mut graph = graph_with_nodes(true, 4);
    graph.add_edge(&1, &2, u32::MAX);
    graph.add_edge(&2, &3, u32::MAX);
    graph.add_edge(&3, &4, 1);
    let path = find_path(&graph, &1, &4).unwrap();
    assert_eq!(values(&graph, &path), vec![1, 2, 3, 4]);
}
