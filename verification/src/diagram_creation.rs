//! Generates the full dependency diagram: the root package's edges first
//! with its dependencies sorted, then every other package's edges in
//! lexicographic package order, standalone lines for unconnected packages,
//! and finally the cycle highlighting pass over the emitted text.

use crate::circular_deps_finder::{highlight_cycles_in_mermaid, highlight_spec};
use crate::graph::{deps_of, graph_keys, spec_insert_node, Graph, GraphModel};
use crate::graph_creation::graph_of_manifests;
use crate::mermaid_generator::{
    emit_deps, is_referenced, key_list, mermaid_markdown_spec, mermaid_of_graph, standalone_lines,
};
use crate::text::{sort_names, sort_strings};
use crate::types::{
    dependency_name_list, dependency_names, CargoRootManifest, ManifestFinding, ManifestFindings,
};
use vstd::prelude::*;

verus! {

/// The declared dependency names of the root manifest, in stored order.
pub open spec fn root_dep_names(root: CargoRootManifest) -> Seq<Seq<char>> {
    match root.dependencies {
        Some(d) => dependency_names(d@),
        None => Seq::empty(),
    }
}

/// The root package's name, if a root package is declared.
pub open spec fn root_name_of(root: CargoRootManifest) -> Option<Seq<char>> {
    match root.package {
        Some(p) => Some(p.name@),
        None => None,
    }
}

/// The map entry the root package contributes, if one is declared.
pub open spec fn initial_root_map(root: CargoRootManifest) -> GraphModel {
    match root.package {
        Some(p) => spec_insert_node(
            Seq::<(Seq<char>, Seq<Seq<char>>)>::empty(),
            p.name@,
            root_dep_names(root),
        ),
        None => Seq::<(Seq<char>, Seq<Seq<char>>)>::empty(),
    }
}

/// The map from package names to dependency names that the diagram is drawn
/// from: the root package first, then every nested manifest.
pub open spec fn dependency_map_of(
    root: CargoRootManifest,
    nested: Seq<ManifestFinding>,
) -> GraphModel {
    graph_of_manifests(nested, initial_root_map(root))
}

/// The edge lines of every package but the root, in the given order.
pub open spec fn other_edges(
    g: GraphModel,
    names: Seq<Seq<char>>,
    root_name: Option<Seq<char>>,
) -> Seq<char>
    decreases names.len(),
{
    if names.len() == 0 {
        Seq::empty()
    } else {
        let rest = other_edges(g, names.drop_first(), root_name);
        if root_name == Some(names[0]) {
            rest
        } else {
            emit_deps(g, names[0], deps_of(g, names[0])) + rest
        }
    }
}

/// The whole dependency diagram text for a root manifest and the discovered
/// manifests.
pub open spec fn dependency_diagram_spec(
    root: CargoRootManifest,
    nested: Seq<ManifestFinding>,
) -> Seq<char> {
    let g = dependency_map_of(root, nested);
    let names = sort_names(graph_keys(g));
    let rn = root_name_of(root);
    let root_part = match rn {
        Some(name) => emit_deps(g, name, sort_names(deps_of(g, name))),
        None => Seq::empty(),
    };
    let body = root_part + other_edges(g, names, rn) + standalone_lines(g, names);
    if body.len() == 0 && rn is Some {
        "graph TD\n"@ + "    "@ + rn.unwrap() + "\n"@
    } else {
        "graph TD\n"@ + body
    }
}

/// Generates the component diagram in Mermaid format.
#[verifier::rlimit(100)]
pub fn generate_dependency_diagram(root: &CargoRootManifest, nested: &ManifestFindings) -> (r:
    String)
    ensures
        r@ == dependency_diagram_spec(*root, nested@),
{
    let ghost g0 = initial_root_map(*root);
    let mut map = Graph::new();
    match &root.package {
        Some(p) => {
            let names0 = dependency_name_list(&root.dependencies);
            map.insert_node(p.name.clone(), names0);
        },
        None => {},
    }
    proof {
        assert(map@ =~~= g0);
    }
    let n = nested.len();
    proof {
        assert(nested@.skip(0) =~= nested@);
    }
    for i in 0..n
        invariant
            n == nested@.len(),
            map.wf(),
            graph_of_manifests(nested@.skip(i as int), map@) == graph_of_manifests(nested@, g0),
    {
        let finding = &nested[i];
        let names = dependency_name_list(&finding.manifest.dependencies);
        map.insert_node(finding.manifest.package.name.clone(), names);
        proof {
            assert(nested@.skip(i as int)[0] == nested@[i as int]);
            assert(nested@.skip(i as int).drop_first() =~= nested@.skip(i + 1));
        }
    }
    proof {
        assert(nested@.skip(n as int) =~= Seq::<ManifestFinding>::empty());
    }
    let ghost gm = map@;
    let ghost nv = sort_names(graph_keys(gm));
    let ghost rn = root_name_of(*root);
    let ghost root_part = match rn {
        Some(name) => emit_deps(gm, name, sort_names(deps_of(gm, name))),
        None => Seq::<char>::empty(),
    };
    let mut diagram: String = String::new();
    diagram.append("graph TD\n");
    // the root package's edges come first, its dependencies sorted
    match &root.package {
        Some(p) => {
            let rname = &p.name;
            match map.deps_lookup(rname) {
                Some(deps) => {
                    let sorted_deps = sort_strings(deps);
                    let ghost dv = sort_names(deps_of(gm, rname@));
                    let m = sorted_deps.len();
                    proof {
                        assert(dv.skip(0) =~= dv);
                        assert(diagram@ + emit_deps(gm, rname@, dv) =~= "graph TD\n"@
                            + root_part);
                    }
                    for j in 0..m
                        invariant
                            map.wf(),
                            gm == map@,
                            m == dv.len(),
                            sorted_deps.deep_view() == dv,
                            rn == Some(rname@),
                            root_part == emit_deps(gm, rname@, dv),
                            diagram@ + emit_deps(gm, rname@, dv.skip(j as int)) == "graph TD\n"@
                                + root_part,
                    {
                        let ghost dsuf = dv.skip(j as int);
                        proof {
                            assert(dsuf[0] == dv[j as int]);
                            assert(dsuf.drop_first() =~= dv.skip(j + 1));
                        }
                        let dep = &sorted_deps[j];
                        if map.contains_key(dep) {
                            diagram.append("    ");
                            diagram.append(rname.as_str());
                            diagram.append(" --> ");
                            diagram.append(dep.as_str());
                            diagram.append("\n");
                        }
                        proof {
                            assert(diagram@ + emit_deps(gm, rname@, dv.skip(j + 1))
                                =~= "graph TD\n"@ + root_part);
                        }
                    }
                    proof {
                        assert(dv.skip(m as int) =~= Seq::<Seq<char>>::empty());
                        assert(diagram@ =~= "graph TD\n"@ + root_part);
                    }
                },
                None => {
                    proof {
                        assert(deps_of(gm, rname@) =~= Seq::<Seq<char>>::empty());
                        assert(sort_names(deps_of(gm, rname@)).to_multiset() =~= deps_of(
                            gm,
                            rname@,
                        ).to_multiset()) by {
                            crate::text::lemma_lex_total_ordering();
                            deps_of(gm, rname@).lemma_sort_by_ensures(
                                crate::text::lex_leq_fn(),
                            );
                        }
                        assert(sort_names(deps_of(gm, rname@)).len() == 0) by {
                            sort_names(deps_of(gm, rname@)).to_multiset_ensures();
                            deps_of(gm, rname@).to_multiset_ensures();
                        }
                        assert(root_part =~= Seq::<char>::empty());
                        assert(diagram@ =~= "graph TD\n"@ + root_part);
                    }
                },
            }
        },
        None => {
            proof {
                assert(diagram@ =~= "graph TD\n"@ + root_part);
            }
        },
    }
    // every other package's edges, in sorted package order
    let keys = key_list(&map);
    let package_names = sort_strings(&keys);
    let n2 = package_names.len();
    proof {
        assert(nv.skip(0) =~= nv);
        assert(diagram@ + other_edges(gm, nv, rn) =~= "graph TD\n"@ + root_part + other_edges(
            gm,
            nv,
            rn,
        ));
    }
    for i in 0..n2
        invariant
            map.wf(),
            gm == map@,
            n2 == nv.len(),
            package_names.deep_view() == nv,
            rn == root_name_of(*root),
            diagram@ + other_edges(gm, nv.skip(i as int), rn) == "graph TD\n"@ + root_part
                + other_edges(gm, nv, rn),
    {
        let ghost suf = nv.skip(i as int);
        proof {
            assert(suf[0] == nv[i as int]);
            assert(suf.drop_first() =~= nv.skip(i + 1));
        }
        let name = &package_names[i];
        let skip_it = match &root.package {
            Some(p) => *name == p.name,
            None => false,
        };
        if !skip_it {
            proof {
                assert(rn != Some(name@));
            }
            match map.deps_lookup(name) {
                Some(deps) => {
                    let ghost dv = deps_of(gm, name@);
                    let m = deps.len();
                    proof {
                        assert(dv.skip(0) =~= dv);
                    }
                    for j in 0..m
                        invariant
                            map.wf(),
                            gm == map@,
                            m == dv.len(),
                            deps.deep_view() == dv,
                            name@ == nv.skip(i as int)[0],
                            diagram@ + emit_deps(gm, name@, dv.skip(j as int)) + other_edges(
                                gm,
                                nv.skip(i + 1),
                                rn,
                            ) == "graph TD\n"@ + root_part + other_edges(gm, nv, rn),
                    {
                        let ghost dsuf = dv.skip(j as int);
                        proof {
                            assert(dsuf[0] == dv[j as int]);
                            assert(dsuf.drop_first() =~= dv.skip(j + 1));
                        }
                        let dep = &deps[j];
                        if map.contains_key(dep) {
                            diagram.append("    ");
                            diagram.append(name.as_str());
                            diagram.append(" --> ");
                            diagram.append(dep.as_str());
                            diagram.append("\n");
                        }
                        proof {
                            assert(diagram@ + emit_deps(gm, name@, dv.skip(j + 1)) + other_edges(
                                gm,
                                nv.skip(i + 1),
                                rn,
                            ) =~= "graph TD\n"@ + root_part + other_edges(gm, nv, rn));
                        }
                    }
                    proof {
                        assert(dv.skip(m as int) =~= Seq::<Seq<char>>::empty());
                        assert(diagram@ + other_edges(gm, nv.skip(i + 1), rn) =~= "graph TD\n"@
                            + root_part + other_edges(gm, nv, rn));
                    }
                },
                None => {
                    proof {
                        assert(deps_of(gm, name@) =~= Seq::<Seq<char>>::empty());
                        assert(emit_deps(gm, name@, deps_of(gm, name@)) == Seq::<char>::empty());
                        assert(diagram@ + other_edges(gm, nv.skip(i + 1), rn) =~= "graph TD\n"@
                            + root_part + other_edges(gm, nv, rn));
                    }
                },
            }
        } else {
            proof {
                assert(rn == Some(name@));
                assert(diagram@ + other_edges(gm, nv.skip(i + 1), rn) =~= "graph TD\n"@
                    + root_part + other_edges(gm, nv, rn));
            }
        }
    }
    proof {
        assert(nv.skip(n2 as int) =~= Seq::<Seq<char>>::empty());
        assert(diagram@ =~= "graph TD\n"@ + root_part + other_edges(gm, nv, rn));
        assert(diagram@ + standalone_lines(gm, nv.skip(0)) =~= "graph TD\n"@ + root_part
            + other_edges(gm, nv, rn) + standalone_lines(gm, nv));
    }
    // standalone lines for unconnected packages
    for i in 0..n2
        invariant
            map.wf(),
            gm == map@,
            n2 == nv.len(),
            package_names.deep_view() == nv,
            diagram@ + standalone_lines(gm, nv.skip(i as int)) == "graph TD\n"@ + root_part
                + other_edges(gm, nv, rn) + standalone_lines(gm, nv),
    {
        let ghost suf = nv.skip(i as int);
        proof {
            assert(suf[0] == nv[i as int]);
            assert(suf.drop_first() =~= nv.skip(i + 1));
        }
        let name = &package_names[i];
        let no_deps = match map.deps_lookup(name) {
            Some(deps) => deps.len() == 0,
            None => true,
        };
        if no_deps {
            if !is_referenced(&map, name) {
                diagram.append("    ");
                diagram.append(name.as_str());
                diagram.append("\n");
            }
        }
        proof {
            assert(diagram@ + standalone_lines(gm, nv.skip(i + 1)) =~= "graph TD\n"@ + root_part
                + other_edges(gm, nv, rn) + standalone_lines(gm, nv));
        }
    }
    let ghost body = root_part + other_edges(gm, nv, rn) + standalone_lines(gm, nv);
    proof {
        assert(nv.skip(n2 as int) =~= Seq::<Seq<char>>::empty());
        assert(diagram@ =~= "graph TD\n"@ + body);
    }
    // ensure the root package is shown if no nodes or edges were added
    let header: String = "graph TD\n".to_owned();
    if diagram == header {
        proof {
            assert(diagram@.len() == "graph TD\n"@.len() + body.len());
            assert(body.len() == 0);
        }
        match &root.package {
            Some(p) => {
                diagram.append("    ");
                diagram.append(p.name.as_str());
                diagram.append("\n");
                proof {
                    assert(diagram@ =~= "graph TD\n"@ + "    "@ + p.name@ + "\n"@);
                }
            },
            None => {},
        }
    } else {
        proof {
            assert(diagram@.len() != "graph TD\n"@.len());
            assert(body.len() != 0);
        }
    }
    diagram
}

/// Law: creating the diagram twice for one graph can only produce one text,
/// byte for byte.
pub proof fn lemma_create_diagram_deterministic(g: GraphModel, r1: Seq<char>, r2: Seq<char>)
    requires
        r1 == highlight_spec(mermaid_markdown_spec(g)),
        r2 == highlight_spec(mermaid_markdown_spec(g)),
    ensures
        r1 == r2,
{
}

/// Creates the diagram text for a graph, cyclic edges highlighted.
pub fn create_diagram(graph: &Graph) -> (r: String)
    requires
        graph.wf(),
    ensures
        r@ == highlight_spec(mermaid_markdown_spec(graph@)),
{
    let diagram = mermaid_of_graph(graph);
    highlight_cycles_in_mermaid(diagram.as_str())
}

} // verus!
