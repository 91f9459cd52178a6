use workspace_analyzer::circular_deps_finder::highlight_cycles_in_mermaid;
use workspace_analyzer::diagram_creation::create_diagram;
use workspace_analyzer::graph::Graph;

#[test]
fn test_diagram_emission_is_deterministic() {
    // invoking the emitter twice on an identical graph in the same process
    // produces byte-identical output
    let mut graph = Graph::new();
    graph.add_edge("A", "B");
    graph.add_edge("B", "C");
    graph.add_edge("C", "A");
    graph.add_edge("B", "D");
    let first = create_diagram(&graph);
    let second = create_diagram(&graph);
    assert_eq!(first, second);
    assert_eq!(first.into_bytes(), second.into_bytes());
}

#[test]
fn test_highlighting_is_deterministic() {
    let diagram = "graph TD\nA --> B\nB --> A\n";
    let first = highlight_cycles_in_mermaid(diagram);
    let second = highlight_cycles_in_mermaid(diagram);
    assert_eq!(first, second);
}

#[test]
fn test_create_diagram_highlights_cycles() {
    let mut graph = Graph::new();
    graph.add_edge("A", "B");
    graph.add_edge("B", "A");
    graph.insert_node("C".to_owned(), vec![]);
    let text = create_diagram(&graph);
    assert!(text.starts_with("graph TD\n"));
    assert!(text.contains("    A --> B:::red"));
    assert!(text.contains("    B --> A:::red"));
    // the standalone declaration line of the unconnected component survives
    // the highlighting pass, so the component remains visible
    assert!(text.contains("    C\n"));
    assert!(text.ends_with("classDef red stroke:#ff0000,stroke-width:2px;\n"));
}

#[test]
fn test_cycle_detection_is_deterministic() {
    // repeated runs over one graph report the same cycle edges, because the
    // roots are walked in the graph's fixed entry order
    let mut graph = Graph::new();
    graph.add_edge("A", "B");
    graph.add_edge("B", "C");
    graph.add_edge("C", "A");
    graph.add_edge("D", "E");
    graph.add_edge("E", "D");
    let first = graph.detect_cycles();
    let second = graph.detect_cycles();
    assert_eq!(first, second);
}
