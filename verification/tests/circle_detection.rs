use workspace_analyzer::circular_deps_finder::highlight_cycles_in_mermaid;

#[test]
fn circle_detector_test_no_cycles() {
    let mermaid_diagram = r#"
            graph TD
            A --> B
            B --> C
            C --> D
        "#;

    let result = highlight_cycles_in_mermaid(mermaid_diagram);

    // Expecting no red highlights as there are no cycles
    assert!(!result.contains(":::red"));
}

#[test]
fn circle_detector_test_single_cycle() {
    let mermaid_diagram = r#"
            graph TD
            A --> B
            B --> C
            C --> A
        "#;

    let result = highlight_cycles_in_mermaid(mermaid_diagram);

    // Expecting red highlights on all edges that form a cycle
    assert!(result.contains("A --> B:::red"));
    assert!(result.contains("B --> C:::red"));
    assert!(result.contains("C --> A:::red"));
}

#[test]
fn circle_detector_test_multiple_cycles() {
    let mermaid_diagram = r#"
            graph TD
            A --> B
            B --> C
            C --> A
            D --> E
            E --> F
            F --> D
        "#;

    let result = highlight_cycles_in_mermaid(mermaid_diagram);

    // Expecting red highlights on edges that form cycles
    assert!(result.contains("A --> B:::red"));
    assert!(result.contains("B --> C:::red"));
    assert!(result.contains("C --> A:::red"));
    assert!(result.contains("D --> E:::red"));
    assert!(result.contains("E --> F:::red"));
    assert!(result.contains("F --> D:::red"));
}

#[test]
fn circle_detector_test_disconnected_graph_with_cycle() {
    let mermaid_diagram = r#"
            graph TD
            A --> B
            B --> C
            C --> A
            D --> E
        "#;

    let result = highlight_cycles_in_mermaid(mermaid_diagram);

    // Expecting red highlights only on edges that form the cycle
    assert!(result.contains("A --> B:::red"));
    assert!(result.contains("B --> C:::red"));
    assert!(result.contains("C --> A:::red"));
    assert!(!result.contains("D --> E:::red"));
}

#[test]
fn circle_detector_test_graph_with_self_loop() {
    let mermaid_diagram = r#"
            graph TD
            A --> A
            B --> C
        "#;

    let result = highlight_cycles_in_mermaid(mermaid_diagram);

    // Expecting the self-loop to be highlighted in red as it forms a cycle
    assert!(result.contains("A --> A:::red"));
    assert!(!result.contains("B --> C:::red"));
}

#[test]
fn circle_detector_test_complex_graph_with_mixed_cycles() {
    let mermaid_diagram = r#"
            graph TD
            A --> B
            B --> C
            C --> A
            B --> D
            D --> E
            E --> B
            F --> G
        "#;

    let result = highlight_cycles_in_mermaid(mermaid_diagram);

    // Expecting red highlights only on edges that form cycles
    assert!(result.contains("A --> B:::red"));
    assert!(result.contains("B --> C:::red"));
    assert!(result.contains("C --> A:::red"));
    assert!(result.contains("B --> D"));
    assert!(result.contains("D --> E:::red"));
    assert!(result.contains("E --> B:::red"));
    assert!(!result.contains("F --> G:::red"));
}

#[test]
fn circle_detector_test_build_graph_collects_edges() {
    let mermaid_diagram = "graph TD\nA --> B\nB --> C\nnot an edge line\n";
    let (graph, edges) = workspace_analyzer::circular_deps_finder::build_graph_from_mermaid(
        mermaid_diagram,
    );
    assert_eq!(graph.get_node_count(), 2);
    assert_eq!(graph.get_edge_count(), 2);
    assert_eq!(edges.len(), 2);
    assert_eq!(edges[0].0, "A");
    assert_eq!(edges[0].1, "B");
    assert_eq!(edges[0].2, "A --> B");
    assert_eq!(edges[1].2, "B --> C");
}
