//! Cross-reference filter: drops dependency edges whose target is not a key
//! of the graph, keeping every node, the key order and the edge order.

use crate::graph::{deps_of, graph_keys, graph_wf, has_node, Graph, GraphModel};
use vstd::prelude::*;

verus! {

/// The predicate that keeps a dependency name iff it is one of `keys`.
pub open spec fn keeps(keys: Seq<Seq<char>>) -> spec_fn(Seq<char>) -> bool {
    |d: Seq<char>| keys.contains(d)
}

/// Model of the cross-reference filter: every entry keeps its name and
/// position, and its dependency list is restricted to names that are keys.
pub open spec fn crossref_filter(g: GraphModel) -> GraphModel {
    g.map_values(
        |p: (Seq<char>, Seq<Seq<char>>)| (p.0, p.1.filter(keeps(graph_keys(g)))),
    )
}

/// The filter never changes the key sequence.
pub proof fn lemma_crossref_filter_keys(g: GraphModel)
    ensures
        graph_keys(crossref_filter(g)) == graph_keys(g),
{
    assert(graph_keys(crossref_filter(g)) =~= graph_keys(g));
}

/// The set of directed edges of a graph, duplicates collapsed.
pub open spec fn edge_set(g: GraphModel) -> Set<(Seq<char>, Seq<char>)> {
    Set::new(
        |e: (Seq<char>, Seq<char>)|
            exists|i: int, j: int|
                0 <= i < g.len() && 0 <= j < g[i].1.len() && e == (g[i].0, g[i].1[j]),
    )
}

/// Law: the cross-reference filter only removes edges, never adds one.
pub proof fn lemma_crossref_filter_edges_subset(g: GraphModel)
    ensures
        edge_set(crossref_filter(g)).subset_of(edge_set(g)),
{
    let f = crossref_filter(g);
    assert forall|e: (Seq<char>, Seq<char>)| edge_set(f).contains(e) implies edge_set(g).contains(
        e,
    ) by {
        let (i, j) = choose|i: int, j: int|
            0 <= i < f.len() && 0 <= j < f[i].1.len() && e == (f[i].0, f[i].1[j]);
        let dep = f[i].1[j];
        g[i].1.lemma_filter_contains_rev(keeps(graph_keys(g)), dep);
        assert(g[i].1.contains(dep));
        let j2 = choose|j2: int| 0 <= j2 < g[i].1.len() && g[i].1[j2] == dep;
        assert(e == (g[i].0, g[i].1[j2]));
    }
}

proof fn lemma_filter_of_all_kept<A>(s: Seq<A>, pred: spec_fn(A) -> bool)
    requires
        forall|i: int| 0 <= i < s.len() ==> pred(s[i]),
    ensures
        s.filter(pred) == s,
    decreases s.len(),
{
    reveal(Seq::filter);
    if s.len() > 0 {
        lemma_filter_of_all_kept(s.drop_last(), pred);
        assert(s.drop_last().push(s.last()) =~= s);
    }
}

/// Law: the cross-reference filter is idempotent; filtering a second time
/// changes nothing, because the key set is a static property of the graph.
pub proof fn lemma_crossref_filter_idempotent(g: GraphModel)
    ensures
        crossref_filter(crossref_filter(g)) == crossref_filter(g),
{
    let f = crossref_filter(g);
    lemma_crossref_filter_keys(g);
    assert forall|i: int| 0 <= i < f.len() implies #[trigger] crossref_filter(f)[i] == f[i] by {
        let pred = keeps(graph_keys(g));
        assert forall|j: int| 0 <= j < f[i].1.len() implies pred(f[i].1[j]) by {
            g[i].1.lemma_filter_pred(pred, j);
        }
        lemma_filter_of_all_kept(f[i].1, pred);
        assert(f[i].1.filter(keeps(graph_keys(f))) == f[i].1.filter(pred));
    }
    assert(crossref_filter(f) =~= f);
}

impl Graph {
    /// Returns a new graph with the same keys in the same order, where every
    /// dependency whose name is not itself a key has been dropped.
    pub fn filter_out_non_workspace_members(&self) -> (r: Graph)
        requires
            self.wf(),
        ensures
            r@ == crossref_filter(self@),
            r.wf(),
    {
        let ghost pred = keeps(graph_keys(self@));
        let mut out = Graph::new();
        let n = self.get_node_count();
        for i in 0..n
            invariant
                n == self@.len(),
                self.wf(),
                out.wf(),
                pred == keeps(graph_keys(self@)),
                out@ =~~= crossref_filter(self@).take(i as int),
        {
            let name = self.key_at(i).clone();
            let deps = self.deps_at(i);
            let mut kept: Vec<String> = Vec::new();
            let m = deps.len();
            for j in 0..m
                invariant
                    m == deps@.len(),
                    deps.deep_view() == self@[i as int].1,
                    n == self@.len(),
                    self.wf(),
                    pred == keeps(graph_keys(self@)),
                    kept.deep_view() =~~= deps.deep_view().take(j as int).filter(pred),
            {
                let ghost kept0 = kept.deep_view();
                let d = deps[j].clone();
                let ghost dv = d@;
                let keep_it = self.contains_key(&d);
                if keep_it {
                    kept.push(d);
                }
                proof {
                    reveal(Seq::filter);
                    let prefix = deps.deep_view().take(j as int);
                    let longer = deps.deep_view().take(j + 1);
                    assert(dv == deps.deep_view()[j as int]);
                    assert(longer =~= prefix.push(dv));
                    assert(longer.drop_last() =~= prefix);
                    assert(longer.last() == dv);
                    assert(keep_it == pred(dv));
                    if keep_it {
                        assert(kept.deep_view() =~~= kept0.push(dv));
                        assert(longer.filter(pred) == prefix.filter(pred).push(dv));
                    } else {
                        assert(kept.deep_view() =~~= kept0);
                        assert(longer.filter(pred) == prefix.filter(pred));
                    }
                    assert(kept.deep_view() =~~= longer.filter(pred));
                }
            }
            proof {
                assert(deps.deep_view().take(m as int) =~= deps.deep_view());
            }
            let ghost out0 = out@;
            let ghost name_view = name@;
            out.insert_node(name, kept);
            proof {
                if has_node(out0, name_view) {
                    let k = graph_keys(out0).index_of(name_view);
                    assert(graph_keys(out0)[k] == out0[k].0);
                    assert(out0[k].0 == crossref_filter(self@)[k].0);
                    assert(crossref_filter(self@)[k].0 == self@[k].0);
                    assert(graph_keys(self@)[k] == graph_keys(self@)[i as int]);
                    assert(!graph_wf(self@));
                }
                let cf = crossref_filter(self@);
                assert(cf[i as int] == (self@[i as int].0, self@[i as int].1.filter(pred)));
                assert(name_view == self@[i as int].0);
                assert(cf.take(i + 1) =~= cf.take(i as int).push(cf[i as int]));
                assert(out@ =~~= crossref_filter(self@).take(i + 1));
            }
        }
        proof {
            assert(crossref_filter(self@).take(n as int) =~= crossref_filter(self@));
        }
        out
    }
}

} // verus!
