use workspace_analyzer::manifests_collector::{
    filter_findings_by_workspace, get_dependency_graph, PathResolution,
};
use workspace_analyzer::types::{
    CargoRootManifest, CargoRootManifestFinding, DependencyInfo, Manifest, ManifestFinding,
    Package, Workspace,
};

fn finding(path: &str, name: &str) -> ManifestFinding {
    ManifestFinding {
        path: path.to_owned(),
        manifest: Manifest {
            package: Package { name: name.to_owned() },
            dependencies: None,
        },
    }
}

fn owned(items: &[&str]) -> Vec<String> {
    items.iter().map(|s| (*s).to_owned()).collect()
}

fn root_with_workspace(path: &str, members: Option<Vec<String>>, exclude: Option<Vec<String>>)
    -> CargoRootManifestFinding {
    CargoRootManifestFinding {
        path: path.to_owned(),
        manifest: CargoRootManifest {
            package: None,
            workspace: Some(Workspace { members, exclude, default_members: None }),
            dependencies: None,
            dev_dependencies: None,
            build_dependencies: None,
        },
    }
}

#[test]
fn test_filter_findings_by_workspace() {
    // members declared as member1 and member2, member4 excluded; the member
    // and exclude paths arrive already resolved against the base directory
    let root = root_with_workspace(
        "/ws",
        Some(owned(&["member1", "member2"])),
        Some(owned(&["member4"])),
    );
    let findings = vec![
        finding("/ws/member1", "member1"),
        finding("/ws/member2", "member2"),
        finding("/ws/member3", "member3"),
        finding("/ws/member4", "member4"),
    ];
    let canonical = owned(&["/ws/member1", "/ws/member2", "/ws/member3", "/ws/member4"]);
    let resolution = PathResolution {
        member_paths: owned(&["/ws/member1", "/ws/member2", "/ws/member4"]),
        exclude_paths: owned(&["/ws/member4"]),
    };

    let filtered = filter_findings_by_workspace(&root, findings, &canonical, &resolution);
    let filtered_paths: Vec<String> = filtered.iter().map(|f| f.path.clone()).collect();

    assert_eq!(filtered.len(), 2);
    assert!(filtered_paths.contains(&"/ws/member1".to_owned()));
    assert!(filtered_paths.contains(&"/ws/member2".to_owned()));
    assert!(!filtered_paths.contains(&"/ws/member3".to_owned()));
    assert!(!filtered_paths.contains(&"/ws/member4".to_owned()));
}

#[test]
fn test_filter_findings_with_wildcards() {
    // the pattern crates/* was expanded against the base directory, so the
    // member paths are the discovered crate directories
    let root = root_with_workspace("/ws", Some(owned(&["crates/*"])), None);
    let findings = vec![
        finding("/ws/crates/crate1", "crate1"),
        finding("/ws/crates/crate2", "crate2"),
        finding("/ws/other/bar", "bar"),
    ];
    let canonical = owned(&["/ws/crates/crate1", "/ws/crates/crate2", "/ws/other/bar"]);
    let resolution = PathResolution {
        member_paths: owned(&["/ws/crates/crate1", "/ws/crates/crate2"]),
        exclude_paths: vec![],
    };

    let filtered = filter_findings_by_workspace(&root, findings, &canonical, &resolution);
    let filtered_paths: Vec<String> = filtered.iter().map(|f| f.path.clone()).collect();

    // crates/foo style members are included; a discovered component outside
    // every member pattern is excluded even though it was discovered
    assert_eq!(filtered.len(), 2);
    assert!(filtered_paths.contains(&"/ws/crates/crate1".to_owned()));
    assert!(filtered_paths.contains(&"/ws/crates/crate2".to_owned()));
    assert!(!filtered_paths.contains(&"/ws/other/bar".to_owned()));
}

#[test]
fn test_no_workspace_section_passes_everything_through() {
    // without a workspace section the filter is a deterministic no-op
    let root = CargoRootManifestFinding {
        path: "/ws".to_owned(),
        manifest: CargoRootManifest {
            package: None,
            workspace: None,
            dependencies: None,
            dev_dependencies: None,
            build_dependencies: None,
        },
    };
    let findings = vec![finding("/ws/a", "a"), finding("/ws/b", "b")];
    let canonical = owned(&["/ws/a", "/ws/b"]);
    let resolution = PathResolution { member_paths: vec![], exclude_paths: vec![] };

    let filtered = filter_findings_by_workspace(&root, findings, &canonical, &resolution);
    assert_eq!(filtered.len(), 2);
    assert_eq!(filtered[0].path, "/ws/a");
    assert_eq!(filtered[1].path, "/ws/b");
}

#[test]
fn test_dependency_graph_of_kept_members() {
    let root = root_with_workspace("/ws", Some(owned(&["a", "b"])), None);
    let findings = vec![
        ManifestFinding {
            path: "/ws/a".to_owned(),
            manifest: Manifest {
                package: Package { name: "a".to_owned() },
                dependencies: Some(vec![(
                    "b".to_owned(),
                    DependencyInfo::Simple("1.0".to_owned()),
                )]),
            },
        },
        finding("/ws/b", "b"),
        finding("/ws/stray", "stray"),
    ];
    let canonical = owned(&["/ws/a", "/ws/b", "/ws/stray"]);
    let resolution = PathResolution {
        member_paths: owned(&["/ws/a", "/ws/b"]),
        exclude_paths: vec![],
    };
    let graph = get_dependency_graph(&root, findings, &canonical, &resolution);
    assert_eq!(graph.get_node_count(), 2);
    assert_eq!(graph.get_dependencies("a"), Some(vec!["b".to_owned()]));
    assert_eq!(graph.get_dependencies("b"), Some(vec![]));
    assert_eq!(graph.get_dependencies("stray"), None);
}

#[test]
fn test_wildcard_with_zero_matches_is_not_an_error() {
    // a member pattern that matched nothing contributes nothing; with no
    // other member, every finding is filtered out
    let root = root_with_workspace("/ws", Some(owned(&["crates/*"])), None);
    let findings = vec![finding("/ws/member1", "member1")];
    let canonical = owned(&["/ws/member1"]);
    let resolution = PathResolution { member_paths: vec![], exclude_paths: vec![] };
    let filtered = filter_findings_by_workspace(&root, findings, &canonical, &resolution);
    assert_eq!(filtered.len(), 0);
}
