use workspace_analyzer::graph::Graph;
use workspace_analyzer::metrics::{CouplingMetric, Metrics};

fn get(coupling: &CouplingMetric, name: &str) -> Option<Metrics> {
    coupling.iter().find(|e| e.0 == name).map(|e| e.1)
}

fn instability(m: &Metrics) -> f32 {
    let (num, den) = m.instability_ratio();
    num as f32 / den as f32
}

#[test]
fn test_empty_graph() {
    let graph = Graph::new();
    let coupling = graph.calculate_coupling();
    assert!(coupling.is_empty());
}

#[test]
fn metrics_test_single_package_no_dependencies() {
    let mut graph = Graph::new();
    graph.insert_node("package_a".to_owned(), vec![]);
    let coupling = graph.calculate_coupling();
    assert_eq!(get(&coupling, "package_a"), Some(Metrics { fan_in: 0, fan_out: 0 }));
    assert_eq!(instability(&get(&coupling, "package_a").unwrap()), 0.0);
}

#[test]
fn test_duplicate_dependencies() {
    let mut graph = Graph::new();
    graph.insert_node(
        "package_a".to_owned(),
        vec!["package_b".to_owned(), "package_b".to_owned()],
    );
    graph.insert_node("package_b".to_owned(), vec![]);
    let coupling = graph.calculate_coupling();
    let a = get(&coupling, "package_a").unwrap();
    assert_eq!(a, Metrics { fan_in: 0, fan_out: 1 });
    assert_eq!(instability(&a), 1.0);
    let b = get(&coupling, "package_b").unwrap();
    assert_eq!(b, Metrics { fan_in: 1, fan_out: 0 });
    assert_eq!(instability(&b), 0.0);
}

#[test]
fn test_dependency_only_node() {
    let mut graph = Graph::new();
    graph.insert_node("package_a".to_owned(), vec!["package_b".to_owned()]);
    let coupling = graph.calculate_coupling();
    let a = get(&coupling, "package_a").unwrap();
    assert_eq!(a, Metrics { fan_in: 0, fan_out: 1 });
    assert_eq!(instability(&a), 1.0);
    // the metrics exist only for keys of the graph, never for a bare target
    assert_eq!(get(&coupling, "package_b"), None);
    assert_eq!(coupling.len(), 1);
}

#[test]
fn test_multiple_dependencies() {
    let mut graph = Graph::new();
    graph.insert_node(
        "package_a".to_owned(),
        vec!["package_b".to_owned(), "package_c".to_owned()],
    );
    graph.insert_node("package_b".to_owned(), vec!["package_c".to_owned()]);
    graph.insert_node("package_c".to_owned(), vec![]);
    let coupling = graph.calculate_coupling();
    let a = get(&coupling, "package_a").unwrap();
    assert_eq!(a, Metrics { fan_in: 0, fan_out: 2 });
    assert_eq!(instability(&a), 1.0);
    let b = get(&coupling, "package_b").unwrap();
    assert_eq!(b, Metrics { fan_in: 1, fan_out: 1 });
    assert_eq!(instability(&b), 0.5);
    let c = get(&coupling, "package_c").unwrap();
    assert_eq!(c, Metrics { fan_in: 2, fan_out: 0 });
    assert_eq!(instability(&c), 0.0);
}

#[test]
fn test_circular_dependency() {
    let mut graph = Graph::new();
    graph.insert_node("package_a".to_owned(), vec!["package_b".to_owned()]);
    graph.insert_node("package_b".to_owned(), vec!["package_a".to_owned()]);
    let coupling = graph.calculate_coupling();
    let a = get(&coupling, "package_a").unwrap();
    assert_eq!(a, Metrics { fan_in: 1, fan_out: 1 });
    assert_eq!(instability(&a), 0.5);
    let b = get(&coupling, "package_b").unwrap();
    assert_eq!(b, Metrics { fan_in: 1, fan_out: 1 });
    assert_eq!(instability(&b), 0.5);
}

#[test]
fn test_disconnected_components() {
    let mut graph = Graph::new();
    graph.insert_node("package_a".to_owned(), vec!["package_b".to_owned()]);
    graph.insert_node("package_c".to_owned(), vec!["package_d".to_owned()]);
    graph.insert_node("package_b".to_owned(), vec![]);
    graph.insert_node("package_d".to_owned(), vec![]);
    let coupling = graph.calculate_coupling();
    assert_eq!(get(&coupling, "package_a"), Some(Metrics { fan_in: 0, fan_out: 1 }));
    assert_eq!(get(&coupling, "package_b"), Some(Metrics { fan_in: 1, fan_out: 0 }));
    assert_eq!(get(&coupling, "package_c"), Some(Metrics { fan_in: 0, fan_out: 1 }));
    assert_eq!(get(&coupling, "package_d"), Some(Metrics { fan_in: 1, fan_out: 0 }));
    assert_eq!(instability(&get(&coupling, "package_a").unwrap()), 1.0);
    assert_eq!(instability(&get(&coupling, "package_b").unwrap()), 0.0);
    assert_eq!(instability(&get(&coupling, "package_c").unwrap()), 1.0);
    assert_eq!(instability(&get(&coupling, "package_d").unwrap()), 0.0);
}

#[test]
fn test_instability_metric() {
    let mut graph = Graph::new();
    graph.insert_node(
        "package_a".to_owned(),
        vec!["package_b".to_owned(), "package_c".to_owned()],
    );
    graph.insert_node("package_b".to_owned(), vec!["package_c".to_owned()]);
    graph.insert_node("package_c".to_owned(), vec![]);
    let coupling = graph.calculate_coupling();
    assert_eq!(get(&coupling, "package_a"), Some(Metrics { fan_in: 0, fan_out: 2 }));
    assert_eq!(instability(&get(&coupling, "package_a").unwrap()), 1.0);
    assert_eq!(get(&coupling, "package_b"), Some(Metrics { fan_in: 1, fan_out: 1 }));
    assert_eq!(instability(&get(&coupling, "package_b").unwrap()), 0.5);
    assert_eq!(get(&coupling, "package_c"), Some(Metrics { fan_in: 2, fan_out: 0 }));
    assert_eq!(instability(&get(&coupling, "package_c").unwrap()), 0.0);
}

#[test]
fn test_metrics_chain() {
    // A --> B --> C: a linear dependency chain
    let mut graph = Graph::new();
    graph.insert_node("A".to_owned(), vec!["B".to_owned()]);
    graph.insert_node("B".to_owned(), vec!["C".to_owned()]);
    graph.insert_node("C".to_owned(), vec![]);
    let coupling = graph.calculate_coupling();
    let a = get(&coupling, "A").unwrap();
    assert_eq!(a, Metrics { fan_in: 0, fan_out: 1 });
    assert_eq!(instability(&a), 1.0);
    let b = get(&coupling, "B").unwrap();
    assert_eq!(b, Metrics { fan_in: 1, fan_out: 1 });
    assert_eq!(instability(&b), 0.5);
    let c = get(&coupling, "C").unwrap();
    assert_eq!(c, Metrics { fan_in: 1, fan_out: 0 });
    assert_eq!(instability(&c), 0.0);
}

#[test]
fn test_empty_dependency_name_ignored() {
    // an empty dependency name never counts for fan-out or fan-in
    let mut graph = Graph::new();
    graph.insert_node("package_a".to_owned(), vec![String::new()]);
    let coupling = graph.calculate_coupling();
    assert_eq!(get(&coupling, "package_a"), Some(Metrics { fan_in: 0, fan_out: 0 }));
}
