use workspace_analyzer::graph::Graph;

#[test]
fn graph_test_add_edge() {
    // Create a new graph
    let mut graph = Graph::new();

    // Add some edges
    graph.add_edge("A", "B");
    graph.add_edge("A", "C");
    graph.add_edge("B", "D");
    graph.add_edge("D", "E");

    // Verify that "A" points to "B" and "C"
    assert!(graph.get_dependencies("A").is_some());
    assert_eq!(graph.get_dependencies("A"), Some(vec!["B".to_owned(), "C".to_owned()]));

    // Verify that "B" points to "D"
    assert!(graph.get_dependencies("B").is_some());
    assert_eq!(graph.get_dependencies("B"), Some(vec!["D".to_owned()]));

    // Verify that "D" points to "E"
    assert!(graph.get_dependencies("D").is_some());
    assert_eq!(graph.get_dependencies("D"), Some(vec!["E".to_owned()]));

    // Verify that "E" has no outgoing edges
    assert!(graph.get_dependencies("E").is_none());
}

#[test]
fn test_add_edge() {
    // Create a new graph
    let mut graph = Graph::new();

    // Add some edges
    graph.add_edge("A", "B");
    graph.add_edge("A", "C");
    graph.add_edge("B", "D");
    graph.add_edge("D", "E");

    // Verify that "A" points to "B" and "C"
    assert!(graph.get_dependencies("A").is_some());
    assert_eq!(graph.get_dependencies("A"), Some(vec!["B".to_owned(), "C".to_owned()]));

    // Verify that "B" points to "D"
    assert!(graph.get_dependencies("B").is_some());
    assert_eq!(graph.get_dependencies("B"), Some(vec!["D".to_owned()]));

    // Verify that "D" points to "E"
    assert!(graph.get_dependencies("D").is_some());
    assert_eq!(graph.get_dependencies("D"), Some(vec!["E".to_owned()]));

    // Verify that "E" has no outgoing edges
    assert!(graph.get_dependencies("E").is_none());
}

#[test]
fn graph_test_counts() {
    let mut graph = Graph::new();
    assert_eq!(graph.get_node_count(), 0);
    assert_eq!(graph.get_edge_count(), 0);
    graph.add_edge("A", "B");
    graph.add_edge("A", "B"); // duplicate entries are stored
    graph.add_edge("B", "C");
    assert_eq!(graph.get_node_count(), 2);
    assert_eq!(graph.get_edge_count(), 3);
}
