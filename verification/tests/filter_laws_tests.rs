use workspace_analyzer::graph::Graph;

fn owned(items: &[&str]) -> Vec<String> {
    items.iter().map(|s| (*s).to_owned()).collect()
}

#[test]
fn test_filter_is_idempotent_on_values() {
    // the proved law, exercised on concrete values: filtering twice equals
    // filtering once, and the edge set only shrinks
    let mut graph = Graph::new();
    graph.insert_node("A".to_owned(), owned(&["B", "missing"]));
    graph.insert_node("B".to_owned(), owned(&["A", "B", "gone"]));
    let once = graph.filter_out_non_workspace_members();
    let twice = once.filter_out_non_workspace_members();
    assert_eq!(once, twice);
    assert!(once.get_edge_count() <= graph.get_edge_count());
    assert_eq!(once.get_node_count(), graph.get_node_count());
}
