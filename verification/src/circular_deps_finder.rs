//! Reads a diagram text, rebuilds the dependency graph from its edge lines,
//! and re-emits the text with every cyclic edge marked.  Lines that are not
//! edges — the standalone declaration lines of unconnected components among
//! them — pass through unchanged, so they remain visible in the final text;
//! only the incoming header line is dropped, replaced by the emitter's own.

use crate::circle_detector::cycle_edges_of;
use crate::graph::{spec_add_edge, Graph, GraphModel};
use crate::text::{lines_of, split_lines, tokenize, tokens_of};
use vstd::prelude::*;

verus! {

/// The parse of one diagram line: the source and target of an edge written
/// `A --> B`, or nothing for any other line.
pub open spec fn parse_edge_spec(line: Seq<char>) -> Option<(Seq<char>, Seq<char>)> {
    let toks = tokens_of(line);
    if toks.len() >= 3 && toks[1] == "-->"@ {
        Some((toks[0], toks[2]))
    } else {
        None
    }
}

/// The edges of the given lines, each with the line it came from.
pub open spec fn edges_of_lines(lines: Seq<Seq<char>>) -> Seq<(Seq<char>, Seq<char>, Seq<char>)>
    decreases lines.len(),
{
    if lines.len() == 0 {
        Seq::empty()
    } else {
        let rest = edges_of_lines(lines.drop_first());
        match parse_edge_spec(lines[0]) {
            Some(p) => seq![(p.0, p.1, lines[0])] + rest,
            None => rest,
        }
    }
}

/// The graph obtained by adding, in order, one edge per edge line to `g`.
pub open spec fn build_from_lines(lines: Seq<Seq<char>>, g: GraphModel) -> GraphModel
    decreases lines.len(),
{
    if lines.len() == 0 {
        g
    } else {
        let g1 = match parse_edge_spec(lines[0]) {
            Some(p) => spec_add_edge(g, p.0, p.1),
            None => g,
        };
        build_from_lines(lines.drop_first(), g1)
    }
}

/// The graph a diagram text describes.
pub open spec fn mermaid_graph_of(input: Seq<char>) -> GraphModel {
    build_from_lines(lines_of(input), Seq::empty())
}

/// Parses a line for an edge in a Mermaid diagram of the form `A --> B`.
pub fn parse_edge(line: &str) -> (r: Option<(String, String)>)
    ensures
        match r {
            Some(p) => parse_edge_spec(line@) == Some((p.0@, p.1@)),
            None => parse_edge_spec(line@) is None,
        },
{
    let toks = tokenize(line);
    if toks.len() >= 3 {
        let arrow: String = "-->".to_owned();
        if toks[1] == arrow {
            proof {
                assert(toks.deep_view()[1] == "-->"@);
            }
            return Some((toks[0].clone(), toks[2].clone()));
        }
    }
    None
}

/// Builds a graph from a Mermaid diagram string by parsing edges.
pub fn build_graph_from_mermaid(mermaid_diagram: &str) -> (r: (
    Graph,
    Vec<(String, String, String)>,
))
    ensures
        r.0@ == mermaid_graph_of(mermaid_diagram@),
        r.0.wf(),
        r.1.deep_view() == edges_of_lines(lines_of(mermaid_diagram@)),
{
    let mut graph = Graph::new();
    let mut edges: Vec<(String, String, String)> = Vec::new();
    let lines = split_lines(mermaid_diagram);
    let ghost lv = lines_of(mermaid_diagram@);
    let n = lines.len();
    proof {
        assert(lv.skip(0) =~= lv);
        assert(edges.deep_view() + edges_of_lines(lv) =~~= edges_of_lines(lv));
    }
    for i in 0..n
        invariant
            n == lv.len(),
            lines.deep_view() == lv,
            graph.wf(),
            build_from_lines(lv.skip(i as int), graph@) == build_from_lines(
                lv,
                Seq::<(Seq<char>, Seq<Seq<char>>)>::empty(),
            ),
            edges.deep_view() + edges_of_lines(lv.skip(i as int)) == edges_of_lines(lv),
    {
        let ghost suf = lv.skip(i as int);
        proof {
            assert(suf[0] == lv[i as int]);
            assert(suf.drop_first() =~= lv.skip(i + 1));
        }
        match parse_edge(lines[i].as_str()) {
            Some(pair) => {
                let (from, to) = pair;
                graph.add_edge(from.as_str(), to.as_str());
                let ghost e0 = edges.deep_view();
                let line_copy = lines[i].clone();
                edges.push((from, to, line_copy));
                proof {
                    assert(edges.deep_view() =~~= e0.push(
                        (
                            parse_edge_spec(lv[i as int]).unwrap().0,
                            parse_edge_spec(lv[i as int]).unwrap().1,
                            lv[i as int],
                        ),
                    ));
                    assert(edges_of_lines(suf) == seq![
                        (
                            parse_edge_spec(lv[i as int]).unwrap().0,
                            parse_edge_spec(lv[i as int]).unwrap().1,
                            lv[i as int],
                        ),
                    ] + edges_of_lines(lv.skip(i + 1)));
                    assert(edges.deep_view() + edges_of_lines(lv.skip(i + 1)) =~~= e0
                        + edges_of_lines(suf));
                }
            },
            None => {
                proof {
                    assert(edges_of_lines(suf) == edges_of_lines(lv.skip(i + 1)));
                }
            },
        }
    }
    proof {
        assert(lv.skip(n as int) =~= Seq::<Seq<char>>::empty());
        assert(edges.deep_view() + edges_of_lines(lv.skip(n as int)) =~~= edges.deep_view());
    }
    (graph, edges)
}

/// Whether the edge `(a, b)` is among the collected cycle edges.
fn edge_list_contains(v: &Vec<(String, String)>, a: &String, b: &String) -> (r: bool)
    ensures
        r == v.deep_view().contains((a@, b@)),
{
    let n = v.len();
    for i in 0..n
        invariant
            n == v@.len(),
            forall|k: int| 0 <= k < i ==> v.deep_view()[k] != (a@, b@),
    {
        if v[i].0 == *a && v[i].1 == *b {
            proof {
                assert(v.deep_view()[i as int] == (a@, b@));
            }
            return true;
        }
    }
    proof {
        if v.deep_view().contains((a@, b@)) {
            let i = choose|i: int| 0 <= i < v.deep_view().len() && v.deep_view()[i] == (a@, b@);
            assert(v.deep_view()[i] != (a@, b@));
        }
    }
    false
}

/// Whether a line is a diagram header, `graph TD`, indented or not.
pub open spec fn is_header_line(line: Seq<char>) -> bool {
    tokens_of(line) == seq!["graph"@, "TD"@]
}

/// Whether the given line is a diagram header.
fn line_is_header(line: &str) -> (r: bool)
    ensures
        r == is_header_line(line@),
{
    let toks = tokenize(line);
    if toks.len() == 2 {
        let first_word: String = "graph".to_owned();
        let second_word: String = "TD".to_owned();
        if toks[0] == first_word && toks[1] == second_word {
            proof {
                assert(toks.deep_view()[0] == "graph"@);
                assert(toks.deep_view()[1] == "TD"@);
                assert(tokens_of(line@) =~= seq!["graph"@, "TD"@]);
            }
            return true;
        }
    }
    proof {
        if is_header_line(line@) {
            assert(tokens_of(line@).len() == 2);
            assert(tokens_of(line@)[0] == "graph"@);
            assert(tokens_of(line@)[1] == "TD"@);
        }
    }
    false
}

/// The emitted body: every line of the input re-emitted in order.  An edge
/// line gets the red marker appended when its edge is cyclic; any other line
/// passes through unchanged, so standalone declaration lines stay visible;
/// the one exception is the incoming header, which the emitter replaces.
pub open spec fn highlight_all_lines(
    lines: Seq<Seq<char>>,
    cyc: Set<(Seq<char>, Seq<char>)>,
) -> Seq<char>
    decreases lines.len(),
{
    if lines.len() == 0 {
        Seq::empty()
    } else {
        let rest = highlight_all_lines(lines.drop_first(), cyc);
        match parse_edge_spec(lines[0]) {
            Some(p) => (
            if cyc.contains((p.0, p.1)) {
                lines[0] + ":::red\n"@
            } else {
                lines[0] + "\n"@
            }) + rest,
            None => if is_header_line(lines[0]) {
                rest
            } else {
                lines[0] + "\n"@ + rest
            },
        }
    }
}

/// The whole highlighted diagram for a given input text.
pub open spec fn highlight_spec(input: Seq<char>) -> Seq<char> {
    let cyc = cycle_edges_of(mermaid_graph_of(input));
    "graph TD\n"@ + highlight_all_lines(lines_of(input), cyc)
        + "classDef red stroke:#ff0000,stroke-width:2px;\n"@
}

/// Law: the emitter is deterministic; two runs over one input text can only
/// produce one output, byte for byte.
pub proof fn lemma_highlight_deterministic(input: Seq<char>, r1: Seq<char>, r2: Seq<char>)
    requires
        r1 == highlight_spec(input),
        r2 == highlight_spec(input),
    ensures
        r1 == r2,
{
}

/// Checks a Mermaid diagram string for circular dependencies and marks cycles
/// in red.
pub fn highlight_cycles_in_mermaid(mermaid_diagram: &str) -> (r: String)
    ensures
        r@ == highlight_spec(mermaid_diagram@),
{
    let built = build_graph_from_mermaid(mermaid_diagram);
    let graph = built.0;
    let cycle_edges = graph.detect_cycles();
    let ghost cyc = cycle_edges_of(graph@);
    let lines = split_lines(mermaid_diagram);
    let ghost lv = lines_of(mermaid_diagram@);
    let mut highlighted_diagram: String = String::new();
    highlighted_diagram.append("graph TD\n");
    proof {
        assert(lv.skip(0) =~= lv);
        assert(highlighted_diagram@ + highlight_all_lines(lv, cyc) =~= "graph TD\n"@
            + highlight_all_lines(lv, cyc));
    }
    let n = lines.len();
    for i in 0..n
        invariant
            n == lv.len(),
            lines.deep_view() == lv,
            cycle_edges.deep_view().to_set() == cyc,
            highlighted_diagram@ + highlight_all_lines(lv.skip(i as int), cyc) == "graph TD\n"@
                + highlight_all_lines(lv, cyc),
    {
        let ghost suf = lv.skip(i as int);
        proof {
            assert(suf[0] == lv[i as int]);
            assert(suf.drop_first() =~= lv.skip(i + 1));
        }
        let line = &lines[i];
        match parse_edge(line.as_str()) {
            Some(pair) => {
                let is_cyclic = edge_list_contains(&cycle_edges, &pair.0, &pair.1);
                highlighted_diagram.append(line.as_str());
                if is_cyclic {
                    highlighted_diagram.append(":::red\n");
                } else {
                    highlighted_diagram.append("\n");
                }
            },
            None => {
                if !line_is_header(line.as_str()) {
                    highlighted_diagram.append(line.as_str());
                    highlighted_diagram.append("\n");
                }
            },
        }
        proof {
            assert(highlighted_diagram@ + highlight_all_lines(lv.skip(i + 1), cyc)
                =~= "graph TD\n"@ + highlight_all_lines(lv, cyc));
        }
    }
    proof {
        assert(lv.skip(n as int) =~= Seq::<Seq<char>>::empty());
    }
    highlighted_diagram.append("classDef red stroke:#ff0000,stroke-width:2px;\n");
    proof {
        assert(highlighted_diagram@ =~= highlight_spec(mermaid_diagram@));
    }
    highlighted_diagram
}

} // verus!
