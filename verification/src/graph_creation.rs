//! Builds the dependency graph from the discovered manifests: one key per
//! manifest, valued with its declared dependency names in declaration
//! order.  No ordering is imposed at build time; presentation ordering is
//! the diagram emitters' responsibility.

use crate::graph::{spec_insert_node, Graph, GraphModel};
use crate::types::{dependency_name_list, manifest_dep_names, ManifestFinding, ManifestFindings};
use vstd::prelude::*;

verus! {

/// The graph the manifests describe: every manifest contributes its package
/// name as a key, with its dependency names in declaration order; a repeated
/// name replaces the earlier entry.
pub open spec fn graph_of_manifests(nested: Seq<ManifestFinding>, g: GraphModel) -> GraphModel
    decreases nested.len(),
{
    if nested.len() == 0 {
        g
    } else {
        let f = nested[0];
        let g1 = spec_insert_node(g, f.manifest.package.name@, manifest_dep_names(f.manifest));
        graph_of_manifests(nested.drop_first(), g1)
    }
}

/// Populates the Graph from the nested manifests (dependencies).
pub fn get_graph_from_manifests(nested: &ManifestFindings) -> (r: Graph)
    ensures
        r@ == graph_of_manifests(nested@, Seq::<(Seq<char>, Seq<Seq<char>>)>::empty()),
        r.wf(),
{
    let mut graph = Graph::new();
    let n = nested.len();
    proof {
        assert(nested@.skip(0) =~= nested@);
    }
    for i in 0..n
        invariant
            n == nested@.len(),
            graph.wf(),
            graph_of_manifests(nested@.skip(i as int), graph@) == graph_of_manifests(
                nested@,
                Seq::<(Seq<char>, Seq<Seq<char>>)>::empty(),
            ),
    {
        let finding = &nested[i];
        let names = dependency_name_list(&finding.manifest.dependencies);
        graph.insert_node(finding.manifest.package.name.clone(), names);
        proof {
            assert(nested@.skip(i as int)[0] == nested@[i as int]);
            assert(nested@.skip(i as int).drop_first() =~= nested@.skip(i + 1));
        }
    }
    proof {
        assert(nested@.skip(n as int) =~= Seq::<ManifestFinding>::empty());
    }
    graph
}

} // verus!
