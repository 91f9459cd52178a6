//! Coupling metrics per component: fan-in, fan-out, and the instability
//! ratio, over the cross-reference-filtered graph.
//!
//! The instability of a component is the exact ratio fan-out over
//! (fan-in + fan-out), with one special case: a component with no outgoing
//! dependencies has instability zero, even when nothing depends on it
//! either.  The ratio is carried as an integer
//! numerator and denominator; rendering it as a decimal is presentation.

use crate::circle_detector::{lemma_push_to_set, vec_contains_name};
use crate::graph::{deps_of, graph_keys, Graph, GraphModel};
use vstd::prelude::*;

verus! {

broadcast use vstd::seq_lib::seq_to_set_is_finite;

/// The distinct, non-empty names of one dependency list.
pub open spec fn distinct_dep_set(deps: Seq<Seq<char>>) -> Set<Seq<char>> {
    Set::new(|d: Seq<char>| deps.contains(d) && d.len() > 0)
}

/// Fan-out: the number of distinct, non-empty dependency names of `p`.
pub open spec fn fan_out_of(g: GraphModel, p: Seq<char>) -> nat {
    distinct_dep_set(deps_of(g, p)).len()
}

/// Fan-in: the number of distinct components whose dependency list names `p`.
pub open spec fn fan_in_of(g: GraphModel, p: Seq<char>) -> nat {
    Set::new(
        |q: Seq<char>|
            graph_keys(g).contains(q) && distinct_dep_set(deps_of(g, q)).contains(p),
    ).len()
}

/// The coupling numbers of one component.
#[derive(Debug, Clone, Copy, PartialEq, Eq, Structural)]
pub struct Metrics {
    pub fan_in: usize,
    pub fan_out: usize,
}

impl Metrics {
    /// The instability ratio as a pair (numerator, denominator): zero when
    /// there is no outgoing dependency, one when there is no incoming one,
    /// and fan-out over (fan-in + fan-out) otherwise.
    pub open spec fn instability_spec(self) -> (int, int) {
        if self.fan_out == 0 {
            (0int, 1int)
        } else if self.fan_in == 0 {
            (1int, 1int)
        } else {
            (self.fan_out as int, self.fan_in + self.fan_out)
        }
    }

    /// The instability ratio, exactly.
    pub fn instability_ratio(&self) -> (r: (usize, usize))
        requires
            self.fan_in + self.fan_out <= usize::MAX,
        ensures
            (r.0 as int, r.1 as int) == self.instability_spec(),
            r.1 > 0,
    {
        if self.fan_out == 0 {
            (0, 1)
        } else if self.fan_in == 0 {
            (1, 1)
        } else {
            (self.fan_out, self.fan_in + self.fan_out)
        }
    }
}

/// The coupling numbers of every component, keyed by name in the graph's
/// entry order.
pub type CouplingMetric = Vec<(String, Metrics)>;

/// Fan-out of one dependency list: counts its distinct, non-empty names.
fn distinct_nonempty_count(deps: &Vec<String>) -> (c: usize)
    ensures
        c == distinct_dep_set(deps.deep_view()).len(),
{
    let ghost dv = deps.deep_view();
    let mut seen: Vec<String> = Vec::new();
    let m = deps.len();
    proof {
        assert(seen.deep_view().to_set() =~= distinct_dep_set(dv.take(0)));
    }
    for j in 0..m
        invariant
            m == dv.len(),
            deps.deep_view() == dv,
            seen.deep_view().no_duplicates(),
            seen.deep_view().to_set() == distinct_dep_set(dv.take(j as int)),
            forall|t: int|
                0 <= t < seen.deep_view().len() ==> (#[trigger] seen.deep_view()[t]).len() > 0,
    {
        let d = &deps[j];
        let ghost sv = seen.deep_view();
        if !d.as_str().is_empty() && !vec_contains_name(&seen, d) {
            let dc = d.clone();
            seen.push(dc);
            proof {
                assert(seen.deep_view() =~~= sv.push(dv[j as int]));
                assert(!sv.contains(dv[j as int]));
                assert forall|x: int, y: int|
                    0 <= x < y < seen.deep_view().len() implies seen.deep_view()[x]
                    != seen.deep_view()[y] by {
                    if y == sv.len() {
                        assert(seen.deep_view()[x] == sv[x]);
                        if sv[x] == dv[j as int] {
                            assert(sv.contains(dv[j as int]));
                        }
                    }
                }
                assert(seen.deep_view().no_duplicates());
                lemma_push_to_set(sv, dv[j as int]);
                assert(seen.deep_view().to_set() =~= sv.to_set().insert(dv[j as int]));
                assert(dv.take(j + 1) =~= dv.take(j as int).push(dv[j as int]));
                assert forall|x: Seq<char>| distinct_dep_set(dv.take(j + 1)).contains(
                    x,
                ) implies sv.to_set().insert(dv[j as int]).contains(x) by {
                    let t = choose|t: int|
                        #![trigger dv.take(j + 1)[t]]
                        0 <= t < dv.take(j + 1).len() && dv.take(j + 1)[t] == x;
                    if t < j {
                        assert(dv.take(j as int)[t] == x);
                        assert(dv.take(j as int).contains(x));
                    }
                }
                assert forall|x: Seq<char>| sv.to_set().insert(dv[j as int]).contains(
                    x,
                ) implies distinct_dep_set(dv.take(j + 1)).contains(x) by {
                    if x == dv[j as int] {
                        assert(dv.take(j + 1)[j as int] == x);
                    } else {
                        let t = choose|t: int|
                            #![trigger dv.take(j as int)[t]]
                            0 <= t < dv.take(j as int).len() && dv.take(j as int)[t] == x;
                        assert(dv.take(j + 1)[t] == x);
                    }
                }
                assert(distinct_dep_set(dv.take(j + 1)) =~= sv.to_set().insert(dv[j as int]));
            }
        } else {
            proof {
                assert(dv.take(j + 1) =~= dv.take(j as int).push(dv[j as int]));
                if dv[j as int].len() > 0 {
                    assert(sv.contains(dv[j as int]));
                }
                assert(distinct_dep_set(dv.take(j + 1)) =~= sv.to_set());
            }
        }
    }
    proof {
        assert(dv.take(m as int) =~= dv);
        seen.deep_view().unique_seq_to_set();
    }
    seen.len()
}

/// The set of components among the first `hi` entries that name `p`.
spec fn dependents_upto(g: GraphModel, p: Seq<char>, hi: int) -> Set<Seq<char>> {
    Set::new(
        |q: Seq<char>|
            exists|a: int|
                0 <= a < hi && (#[trigger] g[a]).0 == q && distinct_dep_set(g[a].1).contains(p),
    )
}

impl Graph {
    /// Fan-in of `name`: counts the components whose list names it.
    fn count_dependents(&self, name: &String) -> (c: usize)
        requires
            self.wf(),
        ensures
            c == fan_in_of(self@, name@),
    {
        let ghost g = self@;
        let p_empty = name.as_str().is_empty();
        let mut count: usize = 0;
        let n = self.get_node_count();
        proof {
            assert(dependents_upto(g, name@, 0) =~= Set::<Seq<char>>::empty());
        }
        for q in 0..n
            invariant
                self.wf(),
                g == self@,
                n == g.len(),
                count <= q,
                p_empty == (name@.len() == 0),
                count == dependents_upto(g, name@, q as int).len(),
                dependents_upto(g, name@, q as int).finite(),
        {
            let deps = self.deps_at(q);
            let hit = !p_empty && vec_contains_name(deps, name);
            proof {
                let before = dependents_upto(g, name@, q as int);
                let after = dependents_upto(g, name@, q + 1);
                if hit {
                    assert(distinct_dep_set(g[q as int].1).contains(name@));
                    assert(after =~= before.insert(g[q as int].0));
                    if before.contains(g[q as int].0) {
                        let a = choose|a: int|
                            0 <= a < q && (#[trigger] g[a]).0 == g[q as int].0
                                && distinct_dep_set(g[a].1).contains(name@);
                        assert(graph_keys(g)[a] == graph_keys(g)[q as int]);
                        assert(false);
                    }
                } else {
                    assert forall|qq: Seq<char>| after.contains(qq) implies before.contains(
                        qq,
                    ) by {
                        let a = choose|a: int|
                            0 <= a < q + 1 && (#[trigger] g[a]).0 == qq && distinct_dep_set(
                                g[a].1,
                            ).contains(name@);
                        if a == q {
                            assert(distinct_dep_set(g[q as int].1).contains(name@));
                            assert(g[q as int].1.contains(name@) && name@.len() > 0);
                            assert(false);
                        }
                    }
                    assert(after =~= before);
                }
            }
            if hit {
                count = count + 1;
            }
        }
        proof {
            let upto = dependents_upto(g, name@, n as int);
            let clean = Set::new(
                |q: Seq<char>|
                    graph_keys(g).contains(q) && distinct_dep_set(deps_of(g, q)).contains(
                        name@,
                    ),
            );
            assert forall|qq: Seq<char>| upto.contains(qq) implies clean.contains(qq) by {
                let a = choose|a: int|
                    0 <= a < n && (#[trigger] g[a]).0 == qq && distinct_dep_set(
                        g[a].1,
                    ).contains(name@);
                assert(graph_keys(g)[a] == qq);
                let idx = graph_keys(g).index_of(qq);
                assert(graph_keys(g)[idx] == qq);
                if idx != a {
                    assert(!graph_keys(g).no_duplicates());
                }
                assert(deps_of(g, qq) == g[a].1);
            }
            assert forall|qq: Seq<char>| clean.contains(qq) implies upto.contains(qq) by {
                let idx = graph_keys(g).index_of(qq);
                assert(g[idx].0 == qq);
                assert(deps_of(g, qq) == g[idx].1);
            }
            assert(upto =~= clean);
        }
        count
    }

    /// Computes fan-in, fan-out and with them the instability ratio for
    /// every component of the graph, and no other name.
    pub fn calculate_coupling(&self) -> (r: CouplingMetric)
        requires
            self.wf(),
        ensures
            r@.len() == self@.len(),
            forall|i: int|
                0 <= i < r@.len() ==> (#[trigger] r@[i]).0@ == self@[i].0 && r@[i].1.fan_in
                    == fan_in_of(self@, self@[i].0) && r@[i].1.fan_out == fan_out_of(
                    self@,
                    self@[i].0,
                ),
    {
        let ghost g = self@;
        let mut out: Vec<(String, Metrics)> = Vec::new();
        let n = self.get_node_count();
        for i in 0..n
            invariant
                self.wf(),
                g == self@,
                n == g.len(),
                out@.len() == i,
                forall|k: int|
                    0 <= k < i ==> (#[trigger] out@[k]).0@ == g[k].0 && out@[k].1.fan_in
                        == fan_in_of(g, g[k].0) && out@[k].1.fan_out == fan_out_of(g, g[k].0),
        {
            let name = self.key_at(i).clone();
            let deps = self.deps_at(i);
            let fan_out = distinct_nonempty_count(deps);
            let fan_in = self.count_dependents(&name);
            proof {
                assert(deps.deep_view() == g[i as int].1);
                let idx = graph_keys(g).index_of(g[i as int].0);
                assert(graph_keys(g)[i as int] == g[i as int].0);
                assert(graph_keys(g).contains(g[i as int].0));
                assert(graph_keys(g)[idx] == g[i as int].0);
                if idx != i {
                    assert(!graph_keys(g).no_duplicates());
                }
                assert(deps_of(g, g[i as int].0) == g[i as int].1);
            }
            out.push((name, Metrics { fan_in, fan_out }));
        }
        out
    }
}

} // verus!
