//! Directed dependency graph keyed by component name.
//!
//! The graph is a sequence of entries, one per component, each holding the
//! component's name and the ordered list of its declared dependency targets.
//! Entry names are unique; the entry order is the insertion order.

use vstd::prelude::*;

verus! {

/// Mathematical model of a graph: a sequence of (name, dependency names) pairs.
pub type GraphModel = Seq<(Seq<char>, Seq<Seq<char>>)>;

/// The names of the graph's entries, in entry order.
pub open spec fn graph_keys(g: GraphModel) -> Seq<Seq<char>> {
    g.map_values(|p: (Seq<char>, Seq<Seq<char>>)| p.0)
}

/// A well-formed graph names every component once.
pub open spec fn graph_wf(g: GraphModel) -> bool {
    graph_keys(g).no_duplicates()
}

/// Whether `name` is one of the graph's keys.
pub open spec fn has_node(g: GraphModel, name: Seq<char>) -> bool {
    graph_keys(g).contains(name)
}

/// The dependency list stored under `name`, or the empty sequence if `name`
/// is not a key.
pub open spec fn deps_of(g: GraphModel, name: Seq<char>) -> Seq<Seq<char>> {
    if has_node(g, name) {
        g[graph_keys(g).index_of(name)].1
    } else {
        Seq::empty()
    }
}

/// The graph after adding one directed edge: the target is appended to the
/// source's dependency list, and a source seen for the first time gets a new
/// entry at the end.  No entry is created for the target.
pub open spec fn spec_add_edge(g: GraphModel, from: Seq<char>, to: Seq<char>) -> GraphModel {
    if has_node(g, from) {
        let i = graph_keys(g).index_of(from);
        g.update(i, (from, g[i].1.push(to)))
    } else {
        g.push((from, seq![to]))
    }
}

/// The graph after storing `deps` under `name`: an existing entry is
/// replaced in place, a new name gets a new entry at the end.
pub open spec fn spec_insert_node(
    g: GraphModel,
    name: Seq<char>,
    deps: Seq<Seq<char>>,
) -> GraphModel {
    if has_node(g, name) {
        g.update(graph_keys(g).index_of(name), (name, deps))
    } else {
        g.push((name, deps))
    }
}

/// Total number of stored edges, duplicates included.
pub open spec fn edge_total(g: GraphModel) -> nat
    decreases g.len(),
{
    if g.len() == 0 {
        0
    } else {
        g[0].1.len() + edge_total(g.drop_first())
    }
}

pub proof fn lemma_edge_total_push(g: GraphModel, p: (Seq<char>, Seq<Seq<char>>))
    ensures
        edge_total(g.push(p)) == edge_total(g) + p.1.len(),
    decreases g.len(),
{
    if g.len() == 0 {
        assert(g.push(p).drop_first() =~= g);
    } else {
        assert(g.push(p).drop_first() =~= g.drop_first().push(p));
        lemma_edge_total_push(g.drop_first(), p);
    }
}

/// Represents a directed graph.
#[derive(Debug, PartialEq)]
pub struct Graph {
    adjacency_list: Vec<(String, Vec<String>)>,
}

impl View for Graph {
    type V = GraphModel;

    closed spec fn view(&self) -> GraphModel {
        self.adjacency_list.deep_view()
    }
}

impl Graph {
    /// The structural invariant: every component is named once.
    pub open spec fn wf(&self) -> bool {
        graph_wf(self@)
    }

    /// Creates a new, empty graph.
    pub fn new() -> (g: Graph)
        ensures
            g@ == Seq::<(Seq<char>, Seq<Seq<char>>)>::empty(),
            g.wf(),
    {
        let g = Graph { adjacency_list: Vec::new() };
        proof {
            assert(g@ =~= Seq::<(Seq<char>, Seq<Seq<char>>)>::empty());
            assert(graph_keys(g@) =~= Seq::<Seq<char>>::empty());
        }
        g
    }

    /// Finds the entry index of `name`, if any.
    fn find_key(&self, name: &String) -> (r: Option<usize>)
        requires
            self.wf(),
        ensures
            match r {
                Some(i) => {
                    &&& has_node(self@, name@)
                    &&& i == graph_keys(self@).index_of(name@)
                    &&& i < self@.len()
                    &&& self@[i as int].0 == name@
                },
                None => !has_node(self@, name@),
            },
    {
        let n = self.adjacency_list.len();
        for j in 0..n
            invariant
                n == self@.len(),
                self.wf(),
                forall|k: int| 0 <= k < j ==> graph_keys(self@)[k] != name@,
        {
            if self.adjacency_list[j].0 == *name {
                proof {
                    assert(graph_keys(self@)[j as int] == name@);
                    graph_keys(self@).index_of_first_ensures(name@);
                    let i = graph_keys(self@).index_of(name@);
                    assert(graph_keys(self@)[i] == name@);
                    if i != j {
                        assert(graph_keys(self@)[i] == graph_keys(self@)[j as int]);
                        assert(!graph_keys(self@).no_duplicates());
                    }
                }
                return Some(j);
            }
        }
        proof {
            assert forall|k: int| 0 <= k < self@.len() implies graph_keys(self@)[k] != name@ by {}
            if has_node(self@, name@) {
                let i = choose|i: int|
                    0 <= i < graph_keys(self@).len() && graph_keys(self@)[i] == name@;
                assert(graph_keys(self@)[i] != name@);
            }
        }
        None
    }

    /// Whether `name` is a key of the graph.
    pub fn contains_key(&self, name: &String) -> (r: bool)
        requires
            self.wf(),
        ensures
            r == has_node(self@, name@),
    {
        self.find_key(name).is_some()
    }

    /// Adds a directed edge from `from` to `to`.
    pub fn add_edge(&mut self, from: &str, to: &str)
        requires
            old(self).wf(),
        ensures
            final(self)@ == spec_add_edge(old(self)@, from@, to@),
            final(self).wf(),
    {
        let from_owned: String = from.to_owned();
        let to_owned: String = to.to_owned();
        let ghost g0 = self@;
        match self.find_key(&from_owned) {
            Some(i) => {
                let entry = &mut self.adjacency_list[i];
                entry.1.push(to_owned);
                proof {
                    assert(self@ =~~= spec_add_edge(g0, from@, to@));
                    assert(graph_keys(self@) =~= graph_keys(g0));
                }
            },
            None => {
                let mut deps: Vec<String> = Vec::new();
                deps.push(to_owned);
                self.adjacency_list.push((from_owned, deps));
                proof {
                    assert(deps.deep_view() =~= seq![to@]);
                    assert(self@ =~~= spec_add_edge(g0, from@, to@));
                    assert(graph_keys(self@) =~= graph_keys(g0).push(from@));
                }
            },
        }
    }

    /// Stores `deps` as the dependency list of `name`, replacing any previous
    /// list for that name.
    pub fn insert_node(&mut self, name: String, deps: Vec<String>)
        requires
            old(self).wf(),
        ensures
            final(self)@ == spec_insert_node(old(self)@, name@, deps.deep_view()),
            final(self).wf(),
    {
        let ghost g0 = self@;
        match self.find_key(&name) {
            Some(i) => {
                self.adjacency_list[i] = (name, deps);
                proof {
                    assert(self@ =~~= spec_insert_node(g0, name@, deps.deep_view()));
                    assert(graph_keys(self@) =~= graph_keys(g0));
                }
            },
            None => {
                self.adjacency_list.push((name, deps));
                proof {
                    assert(self@ =~~= spec_insert_node(g0, name@, deps.deep_view()));
                    assert(graph_keys(self@) =~= graph_keys(g0).push(name@));
                }
            },
        }
    }

    /// The name stored at entry `i`.
    pub(crate) fn key_at(&self, i: usize) -> (r: &String)
        requires
            i < self@.len(),
        ensures
            r@ == self@[i as int].0,
    {
        &self.adjacency_list[i].0
    }

    /// The dependency list stored at entry `i`.
    pub(crate) fn deps_at(&self, i: usize) -> (r: &Vec<String>)
        requires
            i < self@.len(),
        ensures
            r.deep_view() == self@[i as int].1,
    {
        &self.adjacency_list[i].1
    }

    /// The dependency list stored under `name`, borrowed, or `None` if
    /// `name` is not a key.
    pub(crate) fn deps_lookup(&self, name: &String) -> (r: Option<&Vec<String>>)
        requires
            self.wf(),
        ensures
            match r {
                Some(v) => has_node(self@, name@) && v.deep_view() == deps_of(self@, name@),
                None => !has_node(self@, name@),
            },
    {
        match self.find_key(name) {
            Some(i) => Some(&self.adjacency_list[i].1),
            None => None,
        }
    }

    /// The number of components, that is, keys of the graph.
    pub fn get_node_count(&self) -> (r: usize)
        ensures
            r == self@.len(),
    {
        self.adjacency_list.len()
    }

    /// The total number of stored edges, duplicates included.  A total beyond
    /// the machine's range is reported as `usize::MAX`.
    pub fn get_edge_count(&self) -> (r: usize)
        ensures
            edge_total(self@) <= usize::MAX ==> r == edge_total(self@),
            edge_total(self@) > usize::MAX ==> r == usize::MAX,
    {
        let mut total: usize = 0;
        let n = self.adjacency_list.len();
        proof {
            assert(self@.take(0) =~= Seq::<(Seq<char>, Seq<Seq<char>>)>::empty());
        }
        for i in 0..n
            invariant
                n == self@.len(),
                edge_total(self@.take(i as int)) <= usize::MAX ==> total == edge_total(
                    self@.take(i as int),
                ),
                edge_total(self@.take(i as int)) > usize::MAX ==> total == usize::MAX,
                total <= edge_total(self@.take(i as int)),
        {
            proof {
                assert(self@.take(i + 1) =~= self@.take(i as int).push(self@[i as int]));
                lemma_edge_total_push(self@.take(i as int), self@[i as int]);
            }
            total = total.saturating_add(self.adjacency_list[i].1.len());
        }
        proof {
            assert(self@.take(n as int) =~= self@);
        }
        total
    }

    /// The dependency list stored under `name`, or `None` if `name` is not a
    /// key of the graph.
    pub fn get_dependencies(&self, name: &str) -> (r: Option<Vec<String>>)
        requires
            self.wf(),
        ensures
            match r {
                Some(v) => has_node(self@, name@) && v.deep_view() == deps_of(self@, name@),
                None => !has_node(self@, name@),
            },
    {
        let name_owned: String = name.to_owned();
        match self.find_key(&name_owned) {
            Some(i) => {
                let deps = &self.adjacency_list[i].1;
                let mut out: Vec<String> = Vec::new();
                let n = deps.len();
                for j in 0..n
                    invariant
                        n == deps@.len(),
                        out@.len() == j,
                        forall|k: int| 0 <= k < j ==> out@[k]@ == deps@[k]@,
                {
                    let d = deps[j].clone();
                    out.push(d);
                }
                proof {
                    assert(out.deep_view() =~~= deps.deep_view());
                    assert(deps.deep_view() == deps_of(self@, name@));
                }
                Some(out)
            },
            None => None,
        }
    }
}

} // verus!
