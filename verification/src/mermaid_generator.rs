//! Emits the dependency graph as Mermaid markdown: one `A --> B` line per
//! retained edge, package names in lexicographic order, and a standalone
//! line for every package that has no edges and is never depended upon.

use crate::graph::{deps_of, graph_keys, Graph, GraphModel};
use crate::graph_creation::{get_graph_from_manifests, graph_of_manifests};
use crate::text::{sort_names, sort_strings};
use crate::types::ManifestFindings;
use vstd::prelude::*;

verus! {

/// The edge lines one package contributes: one line per dependency that is
/// itself a key of the graph, in the dependency list's order.
pub open spec fn emit_deps(g: GraphModel, name: Seq<char>, deps: Seq<Seq<char>>) -> Seq<char>
    decreases deps.len(),
{
    if deps.len() == 0 {
        Seq::empty()
    } else {
        let rest = emit_deps(g, name, deps.drop_first());
        if graph_keys(g).contains(deps[0]) {
            "    "@ + name + " --> "@ + deps[0] + "\n"@ + rest
        } else {
            rest
        }
    }
}

/// The edge lines of all the given packages, in the given order.
pub open spec fn emit_all_edges(g: GraphModel, names: Seq<Seq<char>>) -> Seq<char>
    decreases names.len(),
{
    if names.len() == 0 {
        Seq::empty()
    } else {
        emit_deps(g, names[0], deps_of(g, names[0])) + emit_all_edges(g, names.drop_first())
    }
}

/// The names that appear as a retained dependency target of some package.
pub open spec fn referenced_set(g: GraphModel) -> Set<Seq<char>> {
    Set::new(
        |d: Seq<char>|
            graph_keys(g).contains(d) && exists|i: int, j: int|
                0 <= i < g.len() && 0 <= j < g[i].1.len() && #[trigger] g[i].1[j] == d,
    )
}

/// The standalone lines: one per package, in the given order, that has no
/// dependencies and is not a retained dependency target of any package.
pub open spec fn standalone_lines(g: GraphModel, names: Seq<Seq<char>>) -> Seq<char>
    decreases names.len(),
{
    if names.len() == 0 {
        Seq::empty()
    } else {
        let rest = standalone_lines(g, names.drop_first());
        if deps_of(g, names[0]).len() == 0 && !referenced_set(g).contains(names[0]) {
            "    "@ + names[0] + "\n"@ + rest
        } else {
            rest
        }
    }
}

/// The whole Mermaid markdown text for a graph.
pub open spec fn mermaid_markdown_spec(g: GraphModel) -> Seq<char> {
    let names = sort_names(graph_keys(g));
    "graph TD\n"@ + emit_all_edges(g, names) + standalone_lines(g, names)
}

/// The keys of the graph, in entry order.
pub(crate) fn key_list(g: &Graph) -> (r: Vec<String>)
    ensures
        r.deep_view() == graph_keys(g@),
{
    let mut out: Vec<String> = Vec::new();
    let n = g.get_node_count();
    for i in 0..n
        invariant
            n == g@.len(),
            out.deep_view() == graph_keys(g@).take(i as int),
    {
        let k = g.key_at(i).clone();
        let ghost before = out.deep_view();
        out.push(k);
        proof {
            assert(out.deep_view() =~~= before.push(g@[i as int].0));
            assert(out.deep_view() =~~= graph_keys(g@).take(i + 1));
        }
    }
    proof {
        assert(graph_keys(g@).take(n as int) =~= graph_keys(g@));
    }
    out
}

/// Whether `name` occurs as a retained dependency target in the graph.
pub(crate) fn is_referenced(g: &Graph, name: &String) -> (r: bool)
    requires
        g.wf(),
    ensures
        r == referenced_set(g@).contains(name@),
{
    if !g.contains_key(name) {
        return false;
    }
    let n = g.get_node_count();
    for i in 0..n
        invariant
            g.wf(),
            n == g@.len(),
            graph_keys(g@).contains(name@),
            forall|a: int, b: int|
                0 <= a < i && 0 <= b < g@[a].1.len() ==> #[trigger] g@[a].1[b] != name@,
    {
        let deps = g.deps_at(i);
        let m = deps.len();
        for j in 0..m
            invariant
                g.wf(),
                n == g@.len(),
                i < n,
                graph_keys(g@).contains(name@),
                deps.deep_view() == g@[i as int].1,
                m == deps@.len(),
                forall|b: int| 0 <= b < j ==> #[trigger] g@[i as int].1[b] != name@,
        {
            if deps[j] == *name {
                proof {
                    assert(g@[i as int].1[j as int] == name@);
                }
                return true;
            }
        }
    }
    proof {
        if referenced_set(g@).contains(name@) {
            let (a, b) = choose|a: int, b: int|
                0 <= a < g@.len() && 0 <= b < g@[a].1.len() && #[trigger] g@[a].1[b] == name@;
            assert(g@[a].1[b] != name@);
        }
    }
    false
}

/// Emits the edge and standalone lines for `graph` after the header line.
pub fn mermaid_of_graph(graph: &Graph) -> (r: String)
    requires
        graph.wf(),
    ensures
        r@ == mermaid_markdown_spec(graph@),
{
    let ghost g = graph@;
    let mut diagram: String = String::new();
    diagram.append("graph TD\n");
    let keys = key_list(graph);
    let package_names = sort_strings(&keys);
    let ghost nv = sort_names(graph_keys(g));
    let n = package_names.len();
    proof {
        assert(nv.skip(0) =~= nv);
        assert(diagram@ + emit_all_edges(g, nv) =~= "graph TD\n"@ + emit_all_edges(g, nv));
    }
    for i in 0..n
        invariant
            graph.wf(),
            g == graph@,
            n == nv.len(),
            package_names.deep_view() == nv,
            diagram@ + emit_all_edges(g, nv.skip(i as int)) == "graph TD\n"@ + emit_all_edges(
                g,
                nv,
            ),
    {
        let ghost suf = nv.skip(i as int);
        proof {
            assert(suf[0] == nv[i as int]);
            assert(suf.drop_first() =~= nv.skip(i + 1));
        }
        let name = &package_names[i];
        match graph.deps_lookup(name) {
            Some(deps) => {
                let ghost dv = deps_of(g, name@);
                let m = deps.len();
                proof {
                    assert(dv.skip(0) =~= dv);
                }
                for j in 0..m
                    invariant
                        graph.wf(),
                        g == graph@,
                        m == dv.len(),
                        deps.deep_view() == dv,
                        name@ == nv.skip(i as int)[0],
                        diagram@ + emit_deps(g, name@, dv.skip(j as int)) + emit_all_edges(
                            g,
                            nv.skip(i + 1),
                        ) == "graph TD\n"@ + emit_all_edges(g, nv),
                {
                    let ghost dsuf = dv.skip(j as int);
                    proof {
                        assert(dsuf[0] == dv[j as int]);
                        assert(dsuf.drop_first() =~= dv.skip(j + 1));
                    }
                    let dep = &deps[j];
                    if graph.contains_key(dep) {
                        diagram.append("    ");
                        diagram.append(name.as_str());
                        diagram.append(" --> ");
                        diagram.append(dep.as_str());
                        diagram.append("\n");
                    }
                    proof {
                        assert(diagram@ + emit_deps(g, name@, dv.skip(j + 1)) + emit_all_edges(
                            g,
                            nv.skip(i + 1),
                        ) =~= "graph TD\n"@ + emit_all_edges(g, nv));
                    }
                }
                proof {
                    assert(dv.skip(m as int) =~= Seq::<Seq<char>>::empty());
                    assert(diagram@ + emit_all_edges(g, nv.skip(i + 1)) =~= "graph TD\n"@
                        + emit_all_edges(g, nv));
                }
            },
            None => {
                proof {
                    assert(deps_of(g, name@) =~= Seq::<Seq<char>>::empty());
                    assert(emit_deps(g, name@, deps_of(g, name@)) == Seq::<char>::empty());
                    assert(diagram@ + emit_all_edges(g, nv.skip(i + 1)) =~= "graph TD\n"@
                        + emit_all_edges(g, nv));
                }
            },
        }
    }
    proof {
        assert(nv.skip(n as int) =~= Seq::<Seq<char>>::empty());
        assert(diagram@ =~= "graph TD\n"@ + emit_all_edges(g, nv));
        assert(diagram@ + standalone_lines(g, nv.skip(0)) =~= "graph TD\n"@ + emit_all_edges(
            g,
            nv,
        ) + standalone_lines(g, nv));
    }
    for i in 0..n
        invariant
            graph.wf(),
            g == graph@,
            n == nv.len(),
            package_names.deep_view() == nv,
            diagram@ + standalone_lines(g, nv.skip(i as int)) == "graph TD\n"@ + emit_all_edges(
                g,
                nv,
            ) + standalone_lines(g, nv),
    {
        let ghost suf = nv.skip(i as int);
        proof {
            assert(suf[0] == nv[i as int]);
            assert(suf.drop_first() =~= nv.skip(i + 1));
        }
        let name = &package_names[i];
        let no_deps = match graph.deps_lookup(name) {
            Some(deps) => deps.len() == 0,
            None => true,
        };
        if no_deps {
            if !is_referenced(graph, name) {
                diagram.append("    ");
                diagram.append(name.as_str());
                diagram.append("\n");
            }
        }
        proof {
            assert(diagram@ + standalone_lines(g, nv.skip(i + 1)) =~= "graph TD\n"@
                + emit_all_edges(g, nv) + standalone_lines(g, nv));
        }
    }
    proof {
        assert(nv.skip(n as int) =~= Seq::<Seq<char>>::empty());
        assert(diagram@ =~= mermaid_markdown_spec(g));
    }
    diagram
}

/// Generates the component diagram in Mermaid format for the discovered
/// manifests.
pub fn generate_mermaid_markdown(nested: &ManifestFindings) -> (r: String)
    ensures
        r@ == mermaid_markdown_spec(
            graph_of_manifests(nested@, Seq::<(Seq<char>, Seq<Seq<char>>)>::empty()),
        ),
{
    let graph = get_graph_from_manifests(nested);
    mermaid_of_graph(&graph)
}

} // verus!
