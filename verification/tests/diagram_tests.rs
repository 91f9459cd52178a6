use workspace_analyzer::diagram_creation::generate_dependency_diagram;
use workspace_analyzer::mermaid_generator::generate_mermaid_markdown;
use workspace_analyzer::types::{
    CargoRootManifest, DependencyInfo, Manifest, ManifestFinding, Package,
};

fn setup_manifest(name: &str, dependencies: Vec<&str>) -> ManifestFinding {
    let dependency_map: Vec<(String, DependencyInfo)> = dependencies
        .into_iter()
        .map(|dep| (dep.to_owned(), DependencyInfo::Simple("1.0".to_owned())))
        .collect();
    ManifestFinding {
        path: name.to_owned(),
        manifest: Manifest {
            package: Package { name: name.to_owned() },
            dependencies: if dependency_map.is_empty() {
                None
            } else {
                Some(dependency_map)
            },
        },
    }
}

fn dep_entries(names: &[&str]) -> Vec<(String, DependencyInfo)> {
    names
        .iter()
        .map(|dep| ((*dep).to_owned(), DependencyInfo::Simple("1.0".to_owned())))
        .collect()
}

#[test]
fn diagram_creation_test_single_package_no_dependencies() {
    // Single package, no dependencies
    let root_manifest = CargoRootManifest {
        package: Some(Package { name: "root_package".to_owned() }),
        workspace: None,
        dependencies: None,
        dev_dependencies: None,
        build_dependencies: None,
    };

    let nested = vec![];

    let diagram = generate_dependency_diagram(&root_manifest, &nested);
    let expected = "graph TD\n    root_package\n";
    assert_eq!(diagram, expected);
}

#[test]
fn diagram_creation_test_linear_dependencies() {
    // root_package --> package_a --> package_b
    let root_manifest = CargoRootManifest {
        package: Some(Package { name: "root_package".to_owned() }),
        dependencies: Some(dep_entries(&["package_a"])),
        ..Default::default()
    };

    let nested = vec![
        setup_manifest("package_a", vec!["package_b"]),
        setup_manifest("package_b", vec![]),
    ];

    let diagram = generate_dependency_diagram(&root_manifest, &nested);
    let expected = "graph TD\n    root_package --> package_a\n    package_a --> package_b\n";
    assert_eq!(diagram, expected);
}

#[test]
fn diagram_creation_test_complex_dependencies() {
    // root_package depends on package_a and package_b; package_a depends on package_b
    let root_manifest = CargoRootManifest {
        package: Some(Package { name: "root_package".to_owned() }),
        dependencies: Some(dep_entries(&["package_a", "package_b"])),
        ..Default::default()
    };

    let nested = vec![
        setup_manifest("package_a", vec!["package_b"]),
        setup_manifest("package_b", vec![]),
    ];

    let diagram = generate_dependency_diagram(&root_manifest, &nested);
    let expected = "graph TD\n    root_package --> package_a\n    root_package --> package_b\n    package_a --> package_b\n";
    assert_eq!(diagram, expected);
}

#[test]
fn mod_test_single_package_no_dependencies() {
    // Single package, no dependencies
    let nested = vec![];
    let diagram = generate_mermaid_markdown(&nested);
    let expected = "graph TD\n";
    assert_eq!(diagram, expected);
}

#[test]
fn mod_test_linear_dependencies() {
    let nested = vec![
        setup_manifest("package_a", vec!["package_b"]),
        setup_manifest("package_b", vec![]),
    ];

    let diagram = generate_mermaid_markdown(&nested);
    let expected = "graph TD\n    package_a --> package_b\n";
    assert_eq!(diagram, expected);
}

#[test]
fn mod_test_complex_dependencies() {
    let nested = vec![
        setup_manifest("package_a", vec!["package_b"]),
        setup_manifest("package_b", vec![]),
    ];

    let diagram = generate_mermaid_markdown(&nested);
    let expected = "graph TD\n    package_a --> package_b\n";
    assert_eq!(diagram, expected);
}
