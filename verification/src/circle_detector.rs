//! Cycle detection over the dependency graph.
//!
//! The detector runs a depth-first search from every key, in entry order,
//! and collects the edges of each cycle it meets.  A search that finds a
//! cycle stops at once: it unwinds without visiting further siblings and
//! without restoring the shared path, exactly as the traversal state machine
//! is specified.  The search state is threaded through all roots, so the
//! abandoned path of an earlier root stays in place for later roots.

use crate::graph::{deps_of, graph_keys, Graph, GraphModel};
use vstd::prelude::*;
use vstd::set_lib::lemma_len_subset;

verus! {

broadcast use vstd::seq_lib::seq_to_set_is_finite;

/// Every name that appears in the graph, as a key or as a dependency target.
pub open spec fn name_universe(g: GraphModel) -> Set<Seq<char>>
    decreases g.len(),
{
    if g.len() == 0 {
        Set::empty()
    } else {
        name_universe(g.drop_first()).insert(g[0].0).union(g[0].1.to_set())
    }
}

pub proof fn lemma_name_universe_finite(g: GraphModel)
    ensures
        name_universe(g).finite(),
    decreases g.len(),
{
    if g.len() > 0 {
        lemma_name_universe_finite(g.drop_first());
    }
}

pub proof fn lemma_name_universe_covers(g: GraphModel)
    ensures
        forall|i: int| 0 <= i < g.len() ==> name_universe(g).contains(#[trigger] g[i].0),
        forall|i: int, j: int|
            0 <= i < g.len() && 0 <= j < g[i].1.len() ==> name_universe(g).contains(
                #[trigger] g[i].1[j],
            ),
    decreases g.len(),
{
    if g.len() > 0 {
        lemma_name_universe_covers(g.drop_first());
        assert forall|i: int| 0 <= i < g.len() implies name_universe(g).contains(
            #[trigger] g[i].0,
        ) by {
            if i > 0 {
                assert(g.drop_first()[i - 1] == g[i]);
            }
        }
        assert forall|i: int, j: int|
            0 <= i < g.len() && 0 <= j < g[i].1.len() implies name_universe(g).contains(
            #[trigger] g[i].1[j],
        ) by {
            if i == 0 {
                assert(g[0].1.to_set().contains(g[0].1[j]));
            } else {
                assert(g.drop_first()[i - 1] == g[i]);
            }
        }
    }
}

/// The dependency names of any node lie in the universe.
pub proof fn lemma_deps_in_universe(g: GraphModel, name: Seq<char>)
    ensures
        forall|j: int|
            0 <= j < deps_of(g, name).len() ==> name_universe(g).contains(
                #[trigger] deps_of(g, name)[j],
            ),
{
    lemma_name_universe_covers(g);
    if graph_keys(g).contains(name) {
        let i = graph_keys(g).index_of(name);
        assert(deps_of(g, name) == g[i].1);
    }
}

/// The state of the traversal: the names already explored, the chain of the
/// current root-to-node walk, and the cycle edges collected so far.
pub struct CycleSearch {
    pub visited: Set<Seq<char>>,
    pub path: Seq<Seq<char>>,
    pub cycles: Set<(Seq<char>, Seq<char>)>,
}

/// The index of the first occurrence of `x` in `s`; `s.len()` if absent.
pub open spec fn first_index_of(s: Seq<Seq<char>>, x: Seq<char>) -> int
    decreases s.len(),
{
    if s.len() == 0 {
        0
    } else if s[0] == x {
        0
    } else {
        1 + first_index_of(s.drop_first(), x)
    }
}

pub proof fn lemma_first_index_of(s: Seq<Seq<char>>, x: Seq<char>)
    requires
        s.contains(x),
    ensures
        0 <= first_index_of(s, x) < s.len(),
        s[first_index_of(s, x)] == x,
        forall|k: int| 0 <= k < first_index_of(s, x) ==> s[k] != x,
    decreases s.len(),
{
    if s.len() > 0 && s[0] != x {
        assert(s.drop_first().contains(x)) by {
            let w = choose|w: int| 0 <= w < s.len() && s[w] == x;
            assert(s.drop_first()[w - 1] == x);
        }
        lemma_first_index_of(s.drop_first(), x);
        assert forall|k: int| 0 <= k < first_index_of(s, x) implies s[k] != x by {
            if k > 0 {
                assert(s.drop_first()[k - 1] == s[k]);
            }
        }
    }
}

/// The consecutive edges of `path` from position `from` up to position `end`.
pub open spec fn chain_edges_upto(path: Seq<Seq<char>>, from: int, end: int) -> Set<
    (Seq<char>, Seq<char>),
> {
    Set::new(
        |e: (Seq<char>, Seq<char>)|
            exists|i: int|
                #![trigger path[i]]
                from <= i < end && 0 <= i && i + 1 < path.len() && e == (path[i], path[i + 1]),
    )
}

/// The edges recorded when the walk `path` runs back into `node`: every
/// consecutive edge from the first occurrence of `node` to the end of the
/// path, plus the closing edge from the path's last element back to `node`.
pub open spec fn mark_cycle(st: CycleSearch, node: Seq<char>) -> CycleSearch
    recommends
        st.path.contains(node),
{
    let k = first_index_of(st.path, node);
    let extra = chain_edges_upto(st.path, k, st.path.len() - 1).insert(
        (st.path.last(), node),
    );
    CycleSearch { visited: st.visited, path: st.path, cycles: st.cycles.union(extra) }
}

/// One step of the depth-first walk at `node`.  A node on the current path
/// closes a cycle; a node already explored is skipped; otherwise the node is
/// recorded, its dependencies are walked in order, and the node is removed
/// from the path again only if no cycle was found below it.
pub open spec fn dfs_visit(g: GraphModel, node: Seq<char>, st: CycleSearch) -> (
    CycleSearch,
    bool,
)
    decreases name_universe(g).difference(st.visited).len(), 0int, 0int,
        when st.visited.finite() && name_universe(g).contains(node)
{
    if st.path.contains(node) {
        (mark_cycle(st, node), true)
    } else if st.visited.contains(node) {
        (st, false)
    } else {
        let st1 = CycleSearch {
            visited: st.visited.insert(node),
            path: st.path.push(node),
            cycles: st.cycles,
        };
        proof {
            lemma_name_universe_finite(g);
            name_universe(g).lemma_set_insert_diff_decreases(st.visited, node);
            lemma_deps_in_universe(g, node);
        }
        let r = dfs_children(g, deps_of(g, node), st1);
        if r.1 {
            (r.0, true)
        } else {
            (
                CycleSearch { visited: r.0.visited, path: r.0.path.drop_last(), cycles: r.0.cycles },
                false,
            )
        }
    }
}

/// Walks the dependency targets `ns` in order, stopping at the first one
/// whose walk finds a cycle.  The visited set handed to the next sibling is
/// forced to grow monotonically; `lemma_dfs_visit_bounds` shows that this
/// normalization never changes the state an actual walk produces.
pub open spec fn dfs_children(g: GraphModel, ns: Seq<Seq<char>>, st: CycleSearch) -> (
    CycleSearch,
    bool,
)
    decreases name_universe(g).difference(st.visited).len(), 1int, ns.len(),
        when st.visited.finite() && (forall|j: int|
            0 <= j < ns.len() ==> name_universe(g).contains(#[trigger] ns[j]))
{
    if ns.len() == 0 {
        (st, false)
    } else {
        let r = dfs_visit(g, ns[0], st);
        if r.1 {
            (r.0, true)
        } else {
            let st1 = CycleSearch {
                visited: st.visited.union(r.0.visited.intersect(name_universe(g))),
                path: r.0.path,
                cycles: r.0.cycles,
            };
            proof {
                lemma_name_universe_finite(g);
                lemma_diff_union_le(name_universe(g), st.visited, st1.visited);
            }
            dfs_children(g, ns.drop_first(), st1)
        }
    }
}

/// Adding to the subtracted set cannot grow a set difference.
pub proof fn lemma_diff_union_le<A>(u: Set<A>, a: Set<A>, b: Set<A>)
    requires
        u.finite(),
        a.subset_of(b),
    ensures
        u.difference(b).len() <= u.difference(a).len(),
{
    assert(u.difference(b).subset_of(u.difference(a)));
    assert(u.difference(a).subset_of(u));
    lemma_len_subset(u.difference(a), u);
    lemma_len_subset(u.difference(b), u.difference(a));
}

/// The walk only ever adds universe names to the visited set.
pub proof fn lemma_dfs_visit_bounds(g: GraphModel, node: Seq<char>, st: CycleSearch)
    requires
        st.visited.finite(),
        name_universe(g).contains(node),
    ensures
        st.visited.subset_of(dfs_visit(g, node, st).0.visited),
        dfs_visit(g, node, st).0.visited.subset_of(st.visited.union(name_universe(g))),
        dfs_visit(g, node, st).0.visited.finite(),
        !dfs_visit(g, node, st).1 ==> dfs_visit(g, node, st).0.path == st.path,
    decreases name_universe(g).difference(st.visited).len(), 0int, 0int,
{
    lemma_name_universe_finite(g);
    if st.path.contains(node) || st.visited.contains(node) {
    } else {
        let st1 = CycleSearch {
            visited: st.visited.insert(node),
            path: st.path.push(node),
            cycles: st.cycles,
        };
        name_universe(g).lemma_set_insert_diff_decreases(st.visited, node);
        lemma_deps_in_universe(g, node);
        lemma_dfs_children_bounds(g, deps_of(g, node), st1);
        let rc = dfs_children(g, deps_of(g, node), st1);
        if !rc.1 {
            assert(rc.0.path == st1.path);
            assert(st1.path.drop_last() =~= st.path);
        }
    }
}

/// As `lemma_dfs_visit_bounds`, for a dependency list.
pub proof fn lemma_dfs_children_bounds(g: GraphModel, ns: Seq<Seq<char>>, st: CycleSearch)
    requires
        st.visited.finite(),
        forall|j: int| 0 <= j < ns.len() ==> name_universe(g).contains(#[trigger] ns[j]),
    ensures
        st.visited.subset_of(dfs_children(g, ns, st).0.visited),
        dfs_children(g, ns, st).0.visited.subset_of(st.visited.union(name_universe(g))),
        dfs_children(g, ns, st).0.visited.finite(),
        !dfs_children(g, ns, st).1 ==> dfs_children(g, ns, st).0.path == st.path,
    decreases name_universe(g).difference(st.visited).len(), 1int, ns.len(),
{
    lemma_name_universe_finite(g);
    if ns.len() == 0 {
    } else {
        lemma_dfs_visit_bounds(g, ns[0], st);
        let r = dfs_visit(g, ns[0], st);
        if r.1 {
        } else {
            let st1 = CycleSearch {
                visited: st.visited.union(r.0.visited.intersect(name_universe(g))),
                path: r.0.path,
                cycles: r.0.cycles,
            };
            assert(st1.visited =~= r.0.visited);
            lemma_diff_union_le(name_universe(g), st.visited, st1.visited);
            lemma_dfs_children_bounds(g, ns.drop_first(), st1);
        }
    }
}

/// Unfolds one sibling step of `dfs_children` in its natural form: the next
/// sibling is walked from exactly the state the previous walk produced.
pub proof fn lemma_dfs_children_step(g: GraphModel, ns: Seq<Seq<char>>, st: CycleSearch)
    requires
        st.visited.finite(),
        ns.len() > 0,
        forall|j: int| 0 <= j < ns.len() ==> name_universe(g).contains(#[trigger] ns[j]),
    ensures
        dfs_visit(g, ns[0], st).1 ==> dfs_children(g, ns, st) == (
            dfs_visit(g, ns[0], st).0,
            true,
        ),
        !dfs_visit(g, ns[0], st).1 ==> dfs_children(g, ns, st) == dfs_children(
            g,
            ns.drop_first(),
            dfs_visit(g, ns[0], st).0,
        ),
{
    lemma_name_universe_finite(g);
    let r = dfs_visit(g, ns[0], st);
    if !r.1 {
        lemma_dfs_visit_bounds(g, ns[0], st);
        let st1 = CycleSearch {
            visited: st.visited.union(r.0.visited.intersect(name_universe(g))),
            path: r.0.path,
            cycles: r.0.cycles,
        };
        assert(st1.visited =~= r.0.visited);
        assert(st1 == r.0);
    }
}

/// The whole detection pass: walk every root in order, skipping roots that an
/// earlier walk already explored, threading one shared state throughout.
pub open spec fn dfs_roots(g: GraphModel, roots: Seq<Seq<char>>, st: CycleSearch) -> CycleSearch
    decreases roots.len(),
{
    if roots.len() == 0 {
        st
    } else {
        let st1 = if st.visited.contains(roots[0]) {
            st
        } else {
            dfs_visit(g, roots[0], st).0
        };
        dfs_roots(g, roots.drop_first(), st1)
    }
}

/// The empty search state.
pub open spec fn initial_search() -> CycleSearch {
    CycleSearch { visited: Set::empty(), path: Seq::empty(), cycles: Set::empty() }
}

/// The set of edges the detector reports for `g`.
pub open spec fn cycle_edges_of(g: GraphModel) -> Set<(Seq<char>, Seq<char>)> {
    dfs_roots(g, graph_keys(g), initial_search()).cycles
}

pub(crate) proof fn lemma_push_to_set<A>(s: Seq<A>, x: A)
    ensures
        s.push(x).to_set() == s.to_set().insert(x),
{
    assert forall|a: A| #[trigger] s.push(x).contains(a) implies s.to_set().insert(x).contains(
        a,
    ) by {
        let i = choose|i: int| 0 <= i < s.push(x).len() && s.push(x)[i] == a;
        if i < s.len() {
            assert(s[i] == a);
        }
    }
    assert forall|a: A| s.to_set().insert(x).contains(a) implies #[trigger] s.push(x).contains(
        a,
    ) by {
        if a == x {
            assert(s.push(x)[s.len() as int] == a);
        } else {
            let i = choose|i: int| 0 <= i < s.len() && s[i] == a;
            assert(s.push(x)[i] == a);
        }
    }
    assert(s.push(x).to_set() =~= s.to_set().insert(x));
}

proof fn lemma_chain_edges_step(path: Seq<Seq<char>>, from: int, i: int)
    requires
        0 <= from <= i,
        i + 1 < path.len(),
    ensures
        chain_edges_upto(path, from, i + 1) == chain_edges_upto(path, from, i).insert(
            (path[i], path[i + 1]),
        ),
{
    let small = chain_edges_upto(path, from, i).insert((path[i], path[i + 1]));
    assert forall|e: (Seq<char>, Seq<char>)|
        chain_edges_upto(path, from, i + 1).contains(e) implies small.contains(e) by {
        let t = choose|t: int|
            #![trigger path[t]]
            from <= t < i + 1 && 0 <= t && t + 1 < path.len() && e == (path[t], path[t + 1]);
        if t < i {
            assert(chain_edges_upto(path, from, i).contains(e));
        }
    }
    assert forall|e: (Seq<char>, Seq<char>)|
        small.contains(e) implies chain_edges_upto(path, from, i + 1).contains(e) by {
        if e == (path[i], path[i + 1]) {
            assert(from <= i < i + 1 && 0 <= i && i + 1 < path.len() && e == (
                path[i],
                path[i + 1],
            ));
        } else {
            let t = choose|t: int|
                #![trigger path[t]]
                from <= t < i && 0 <= t && t + 1 < path.len() && e == (path[t], path[t + 1]);
            assert(from <= t < i + 1 && 0 <= t && t + 1 < path.len() && e == (
                path[t],
                path[t + 1],
            ));
        }
    }
    assert(chain_edges_upto(path, from, i + 1) =~= small);
}

/// Whether some element of `v` equals `x`.
pub(crate) fn vec_contains_name(v: &Vec<String>, x: &String) -> (r: bool)
    ensures
        r == v.deep_view().contains(x@),
{
    let n = v.len();
    for i in 0..n
        invariant
            n == v@.len(),
            forall|k: int| 0 <= k < i ==> v.deep_view()[k] != x@,
    {
        if v[i] == *x {
            proof {
                assert(v.deep_view()[i as int] == x@);
            }
            return true;
        }
    }
    proof {
        if v.deep_view().contains(x@) {
            let i = choose|i: int| 0 <= i < v.deep_view().len() && v.deep_view()[i] == x@;
            assert(v.deep_view()[i] != x@);
        }
    }
    false
}

/// Records the edges of the cycle that the walk `path` closes at `node`.
#[verifier::rlimit(100)]
#[verifier::spinoff_prover]
fn mark_cycle_exec(path: &Vec<String>, node: &String, cycles: &mut Vec<(String, String)>)
    requires
        path.deep_view().contains(node@),
    ensures
        final(cycles).deep_view().to_set() == mark_cycle(
            CycleSearch {
                visited: Set::empty(),
                path: path.deep_view(),
                cycles: old(cycles).deep_view().to_set(),
            },
            node@,
        ).cycles,
{
    let ghost pv = path.deep_view();
    let ghost k0 = first_index_of(pv, node@);
    proof {
        lemma_first_index_of(pv, node@);
    }
    let path_len = path.len();
    let mut k: usize = 0;
    while !(path[k] == *node)
        invariant
            pv == path.deep_view(),
            path_len == pv.len(),
            k0 == first_index_of(pv, node@),
            0 <= k0 < pv.len(),
            pv[k0] == node@,
            forall|t: int| 0 <= t < k0 ==> pv[t] != node@,
            k <= k0,
        decreases k0 - k,
    {
        proof {
            assert(pv[k as int] != node@);
            assert(k != k0);
        }
        k = k + 1;
    }
    proof {
        assert(pv[k as int] == node@);
        assert(k == k0);
    }
    let ghost base = cycles.deep_view().to_set();
    proof {
        assert(pv.len() >= 1);
        assert(base.union(chain_edges_upto(pv, k0, k0)) =~= base);
    }
    let last = path.len() - 1;
    for i in k..last
        invariant
            pv == path.deep_view(),
            k0 == k,
            k <= i,
            0 <= k0 < pv.len(),
            last == pv.len() - 1,
            cycles.deep_view().to_set() == base.union(chain_edges_upto(pv, k0 as int, i as int)),
    {
        let ghost before = cycles.deep_view();
        let e = (path[i].clone(), path[i + 1].clone());
        let ghost ev = e.deep_view();
        cycles.push(e);
        proof {
            assert(cycles.deep_view() =~~= before.push(ev));
            lemma_push_to_set(before, ev);
            lemma_chain_edges_step(pv, k0 as int, i as int);
            assert(ev == (pv[i as int], pv[i + 1]));
            assert(base.union(chain_edges_upto(pv, k0 as int, i as int)).insert(ev) =~= base.union(
                chain_edges_upto(pv, k0 as int, i + 1),
            ));
        }
    }
    let ghost before = cycles.deep_view();
    let e = (path[last].clone(), node.clone());
    let ghost ev = e.deep_view();
    cycles.push(e);
    proof {
        assert(cycles.deep_view() =~~= before.push(ev));
        lemma_push_to_set(before, ev);
        assert(ev == (pv.last(), node@));
        assert(base.union(chain_edges_upto(pv, k0, pv.len() - 1)).insert(ev) =~= base.union(
            chain_edges_upto(pv, k0, pv.len() - 1).insert((pv.last(), node@)),
        ));
        assert(cycles.deep_view().to_set() == base.union(
            chain_edges_upto(pv, k0 as int, pv.len() - 1).insert((pv.last(), node@)),
        ));
    }
}

impl Graph {
    /// One depth-first walk from `node`, exactly one step of the traversal
    /// state machine.  Returns whether a cycle was found; in that case the
    /// shared path is left as it stood when the cycle was met.
    #[verifier::rlimit(100)]
    fn dfs(
        &self,
        node: &String,
        visited: &mut Vec<String>,
        path: &mut Vec<String>,
        cycles: &mut Vec<(String, String)>,
    ) -> (found: bool)
        requires
            self.wf(),
            name_universe(self@).contains(node@),
        ensures
            ({
                let st0 = CycleSearch {
                    visited: old(visited).deep_view().to_set(),
                    path: old(path).deep_view(),
                    cycles: old(cycles).deep_view().to_set(),
                };
                let r = dfs_visit(self@, node@, st0);
                &&& final(visited).deep_view().to_set() == r.0.visited
                &&& final(path).deep_view() == r.0.path
                &&& final(cycles).deep_view().to_set() == r.0.cycles
                &&& found == r.1
            }),
        decreases name_universe(self@).difference(old(visited).deep_view().to_set()).len(),
    {
        let ghost g = self@;
        let ghost st0 = CycleSearch {
            visited: old(visited).deep_view().to_set(),
            path: old(path).deep_view(),
            cycles: old(cycles).deep_view().to_set(),
        };
        proof {
            lemma_name_universe_finite(g);
        }
        if vec_contains_name(path, node) {
            mark_cycle_exec(path, node, cycles);
            proof {
                let r = dfs_visit(g, node@, st0);
                assert(r == (mark_cycle(st0, node@), true));
                assert(cycles.deep_view().to_set() == mark_cycle(st0, node@).cycles);
            }
            return true;
        }
        if vec_contains_name(visited, node) {
            return false;
        }
        let ghost st_push = CycleSearch {
            visited: st0.visited.insert(node@),
            path: st0.path.push(node@),
            cycles: st0.cycles,
        };
        visited.push(node.clone());
        path.push(node.clone());
        proof {
            lemma_push_to_set(old(visited).deep_view(), node@);
            assert(visited.deep_view() =~~= old(visited).deep_view().push(node@));
            assert(path.deep_view() =~~= old(path).deep_view().push(node@));
            assert(visited.deep_view().to_set() =~= st_push.visited);
            lemma_deps_in_universe(g, node@);
        }
        let ghost dseq = deps_of(g, node@);
        match self.deps_lookup(node) {
            Some(deps) => {
                let m = deps.len();
                proof {
                    assert(dseq.skip(0) =~= dseq);
                    assert(visited.deep_view().to_set() == st_push.visited);
                    assert(path.deep_view() == st_push.path);
                    assert(cycles.deep_view().to_set() == st_push.cycles);
                }
                for j in 0..m
                    invariant
                        self.wf(),
                        g == self@,
                        st0 == (CycleSearch {
                            visited: old(visited).deep_view().to_set(),
                            path: old(path).deep_view(),
                            cycles: old(cycles).deep_view().to_set(),
                        }),
                        st0.visited.finite(),
                        name_universe(g).contains(node@),
                        !st0.visited.contains(node@),
                        !st0.path.contains(node@),
                        dseq == deps_of(g, node@),
                        deps.deep_view() == dseq,
                        m == dseq.len(),
                        st_push == (CycleSearch {
                            visited: st0.visited.insert(node@),
                            path: st0.path.push(node@),
                            cycles: st0.cycles,
                        }),
                        forall|t: int|
                            0 <= t < dseq.len() ==> name_universe(g).contains(#[trigger] dseq[t]),
                        st_push.visited.subset_of(visited.deep_view().to_set()),
                        ({
                            let cur = CycleSearch {
                                visited: visited.deep_view().to_set(),
                                path: path.deep_view(),
                                cycles: cycles.deep_view().to_set(),
                            };
                            dfs_children(g, dseq.skip(j as int), cur) == dfs_children(
                                g,
                                dseq,
                                st_push,
                            )
                        }),
                {
                    let ghost cur = CycleSearch {
                        visited: visited.deep_view().to_set(),
                        path: path.deep_view(),
                        cycles: cycles.deep_view().to_set(),
                    };
                    let d = deps[j].clone();
                    proof {
                        lemma_name_universe_finite(g);
                        assert(d@ == dseq[j as int]);
                        assert(name_universe(g).contains(d@));
                        name_universe(g).lemma_set_insert_diff_decreases(st0.visited, node@);
                        lemma_diff_union_le(name_universe(g), st_push.visited, cur.visited);
                    }
                    let found = self.dfs(&d, visited, path, cycles);
                    proof {
                        lemma_name_universe_finite(g);
                        let sub = dseq.skip(j as int);
                        assert(sub[0] == dseq[j as int]);
                        assert(sub.len() > 0);
                        assert forall|t: int| 0 <= t < sub.len() implies name_universe(g).contains(
                            #[trigger] sub[t],
                        ) by {
                            assert(sub[t] == dseq[j + t]);
                        }
                        lemma_dfs_children_step(g, sub, cur);
                        assert(sub.drop_first() =~= dseq.skip(j + 1));
                        lemma_dfs_visit_bounds(g, d@, cur);
                    }
                    if found {
                        proof {
                            let cur_after = CycleSearch {
                                visited: visited.deep_view().to_set(),
                                path: path.deep_view(),
                                cycles: cycles.deep_view().to_set(),
                            };
                            assert(dfs_children(g, dseq, st_push) == (cur_after, true));
                            assert(dfs_visit(g, node@, st0) == (cur_after, true));
                        }
                        return true;
                    }
                }
                proof {
                    assert(dseq.skip(m as int) =~= Seq::<Seq<char>>::empty());
                }
            },
            None => {
                proof {
                    assert(dseq =~= Seq::<Seq<char>>::empty());
                    assert(dseq.skip(0) =~= dseq);
                }
            },
        }
        let ghost cur_final = CycleSearch {
            visited: visited.deep_view().to_set(),
            path: path.deep_view(),
            cycles: cycles.deep_view().to_set(),
        };
        proof {
            assert(dfs_children(g, dseq, st_push) == (cur_final, false));
            lemma_deps_in_universe(g, node@);
            lemma_dfs_children_bounds(g, dseq, st_push);
            assert(cur_final.path == st_push.path);
            assert(cur_final.path.len() >= 1);
        }
        path.pop();
        proof {
            assert(st0.visited.finite());
            assert(path.deep_view() =~~= cur_final.path.drop_last());
            let r = dfs_visit(g, node@, st0);
            assert(r == (
                CycleSearch {
                    visited: cur_final.visited,
                    path: cur_final.path.drop_last(),
                    cycles: cur_final.cycles,
                },
                false,
            ));
        }
        false
    }

    /// Detects cycles and returns the edges involved in cycles.
    #[verifier::rlimit(100)]
    pub fn detect_cycles(&self) -> (r: Vec<(String, String)>)
        requires
            self.wf(),
        ensures
            r.deep_view().to_set() == cycle_edges_of(self@),
    {
        let ghost g = self@;
        let mut visited: Vec<String> = Vec::new();
        let mut path: Vec<String> = Vec::new();
        let mut cycles: Vec<(String, String)> = Vec::new();
        let n = self.get_node_count();
        proof {
            lemma_name_universe_finite(g);
            lemma_name_universe_covers(g);
            assert(visited.deep_view().to_set() =~= initial_search().visited);
            assert(path.deep_view() =~= initial_search().path);
            assert(cycles.deep_view().to_set() =~= initial_search().cycles);
            assert(graph_keys(g).skip(0) =~= graph_keys(g));
        }
        for i in 0..n
            invariant
                self.wf(),
                g == self@,
                n == g.len(),
                ({
                    let cur = CycleSearch {
                        visited: visited.deep_view().to_set(),
                        path: path.deep_view(),
                        cycles: cycles.deep_view().to_set(),
                    };
                    dfs_roots(g, graph_keys(g).skip(i as int), cur) == dfs_roots(
                        g,
                        graph_keys(g),
                        initial_search(),
                    )
                }),
        {
            let ghost cur = CycleSearch {
                visited: visited.deep_view().to_set(),
                path: path.deep_view(),
                cycles: cycles.deep_view().to_set(),
            };
            let node = self.key_at(i).clone();
            proof {
                lemma_name_universe_covers(g);
                assert(node@ == g[i as int].0);
                assert(graph_keys(g).skip(i as int)[0] == graph_keys(g)[i as int]);
                assert(graph_keys(g)[i as int] == g[i as int].0);
            }
            let in_visited = vec_contains_name(&visited, &node);
            if !in_visited {
                let _found = self.dfs(&node, &mut visited, &mut path, &mut cycles);
            }
            proof {
                assert(graph_keys(g).skip(i as int).drop_first() =~= graph_keys(g).skip(i + 1));
            }
        }
        proof {
            assert(graph_keys(g).skip(n as int) =~= Seq::<Seq<char>>::empty());
        }
        cycles
    }
}

} // verus!
