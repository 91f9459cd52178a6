use workspace_analyzer::graph::Graph;
use workspace_analyzer::graph_creation::get_graph_from_manifests;
use workspace_analyzer::types::{DependencyInfo, Manifest, ManifestFinding, Package};

/// Helper function to create a ManifestFinding for testing
fn setup_manifest(name: &str, dependencies: Vec<&str>) -> ManifestFinding {
    let dependency_map: Vec<(String, DependencyInfo)> = dependencies
        .into_iter()
        .map(|dep| (dep.to_owned(), DependencyInfo::Simple("1.0".to_owned())))
        .collect();
    ManifestFinding {
        path: name.to_owned(),
        manifest: Manifest {
            package: Package { name: name.to_owned() },
            dependencies: if dependency_map.is_empty() {
                None
            } else {
                Some(dependency_map)
            },
        },
    }
}

fn owned(items: &[&str]) -> Vec<String> {
    items.iter().map(|s| (*s).to_owned()).collect()
}

#[test]
fn graph_creation_test_single_package_no_dependencies() {
    // A single package with no dependencies
    let nested = vec![setup_manifest("package_a", vec![])];
    let graph = get_graph_from_manifests(&nested);
    let mut expected_graph = Graph::new();
    expected_graph.insert_node("package_a".to_owned(), vec![]);
    assert_eq!(graph, expected_graph);
}

#[test]
fn test_single_package_with_dependencies() {
    // A single package with dependencies
    let nested = vec![setup_manifest("package_a", vec!["package_b", "package_c"])];
    let graph = get_graph_from_manifests(&nested);
    let mut expected_graph = Graph::new();
    expected_graph.insert_node("package_a".to_owned(), owned(&["package_b", "package_c"]));
    assert_eq!(graph, expected_graph);
}

#[test]
fn test_multiple_packages_with_dependencies() {
    // Multiple packages with dependencies
    let nested = vec![
        setup_manifest("package_a", vec!["package_b"]),
        setup_manifest("package_b", vec!["package_c"]),
        setup_manifest("package_c", vec![]),
    ];

    let graph = get_graph_from_manifests(&nested);
    let mut expected_graph = Graph::new();
    expected_graph.insert_node("package_a".to_owned(), owned(&["package_b"]));
    expected_graph.insert_node("package_b".to_owned(), owned(&["package_c"]));
    expected_graph.insert_node("package_c".to_owned(), vec![]);

    assert_eq!(graph, expected_graph);
}

#[test]
fn test_packages_with_no_mutual_dependencies() {
    // Multiple packages with no dependencies between them
    let nested = vec![
        setup_manifest("package_a", vec![]),
        setup_manifest("package_b", vec![]),
        setup_manifest("package_c", vec![]),
    ];

    let graph = get_graph_from_manifests(&nested);
    let mut expected_graph = Graph::new();
    expected_graph.insert_node("package_a".to_owned(), vec![]);
    expected_graph.insert_node("package_b".to_owned(), vec![]);
    expected_graph.insert_node("package_c".to_owned(), vec![]);

    assert_eq!(graph, expected_graph);
}

#[test]
fn test_complex_dependency_graph() {
    // Complex graph with multiple dependencies and nested dependencies
    let nested = vec![
        setup_manifest("package_a", vec!["package_b", "package_c"]),
        setup_manifest("package_b", vec!["package_d"]),
        setup_manifest("package_c", vec!["package_d", "package_e"]),
        setup_manifest("package_d", vec![]),
        setup_manifest("package_e", vec![]),
    ];

    let graph = get_graph_from_manifests(&nested);
    let mut expected_graph = Graph::new();
    expected_graph.insert_node("package_a".to_owned(), owned(&["package_b", "package_c"]));
    expected_graph.insert_node("package_b".to_owned(), owned(&["package_d"]));
    expected_graph.insert_node("package_c".to_owned(), owned(&["package_d", "package_e"]));
    expected_graph.insert_node("package_d".to_owned(), vec![]);
    expected_graph.insert_node("package_e".to_owned(), vec![]);

    assert_eq!(graph, expected_graph);
}
