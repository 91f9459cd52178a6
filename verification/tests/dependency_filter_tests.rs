use workspace_analyzer::graph::Graph;

fn owned(items: &[&str]) -> Vec<String> {
    items.iter().map(|s| (*s).to_owned()).collect()
}

#[test]
fn test_filter_dependencies() {
    let mut original_graph = Graph::new();
    // "X" and "Y" are not nodes; "E" is missing
    original_graph.insert_node("A".to_owned(), owned(&["B", "C", "X"]));
    original_graph.insert_node("B".to_owned(), owned(&["C", "Y"]));
    original_graph.insert_node("C".to_owned(), owned(&["A"]));
    original_graph.insert_node("D".to_owned(), owned(&["E"]));

    let mut expected_filtered_graph = Graph::new();
    expected_filtered_graph.insert_node("A".to_owned(), owned(&["B", "C"])); // "X" removed
    expected_filtered_graph.insert_node("B".to_owned(), owned(&["C"])); // "Y" removed
    expected_filtered_graph.insert_node("C".to_owned(), owned(&["A"])); // circular dependency remains
    expected_filtered_graph.insert_node("D".to_owned(), owned(&[])); // "E" removed

    let filtered_graph = original_graph.filter_out_non_workspace_members();
    assert_eq!(filtered_graph, expected_filtered_graph);
}

#[test]
fn test_filter_empty_graph() {
    let empty_graph = Graph::new();
    let filtered_graph = empty_graph.filter_out_non_workspace_members();
    assert!(filtered_graph.get_node_count() == 0);
}

#[test]
fn test_no_external_dependencies() {
    let mut graph = Graph::new();
    graph.insert_node("A".to_owned(), owned(&["B", "C"]));
    graph.insert_node("B".to_owned(), owned(&["A", "C"]));
    graph.insert_node("C".to_owned(), owned(&["A", "B"]));

    let mut expected = Graph::new();
    expected.insert_node("A".to_owned(), owned(&["B", "C"]));
    expected.insert_node("B".to_owned(), owned(&["A", "C"]));
    expected.insert_node("C".to_owned(), owned(&["A", "B"]));

    let filtered_graph = graph.filter_out_non_workspace_members();
    assert_eq!(filtered_graph, expected); // no filtering needed, should be identical
}
