//! The graph form of a pre-built DFA description: a node list and the
//! directed-graph text for visualization tooling.

use vstd::prelude::*;
use crate::dfa::DFA;
use crate::text::{dec_rep, push_dec};
use crate::exprs::contains_usize;

verus! {

/// A DFA together with its rendered graph forms: a digraph text and a list
/// of human-readable node lines.
#[derive(Debug)]
pub struct Graph {
    /// The underlying automaton.
    pub dfa: Box<DFA>,
    /// The digraph text, once rendered.
    pub distructure: String,
    /// One line per edge, accept states in parentheses.
    pub nodes: Vec<String>,
}

/// The views of a vector of strings.
pub open spec fn str_views(ns: Seq<String>) -> Seq<Seq<char>> {
    ns.map_values(|s: String| s@)
}

pub broadcast proof fn lemma_str_views_push(ns: Seq<String>, s: String)
    ensures
        #[trigger] str_views(ns.push(s)) == str_views(ns).push(s@),
{
    assert(str_views(ns.push(s)) =~= str_views(ns).push(s@));
}

/// The accept states, comma-separated, the last one bare.
pub open spec fn accept_list_spec(accept: Seq<usize>, k: int) -> Seq<char>
    decreases k,
{
    if k <= 0 {
        Seq::<char>::empty()
    } else {
        let prev = accept_list_spec(accept, k - 1);
        if k == accept.len() {
            prev + dec_rep(accept[k - 1] as nat)
        } else {
            prev + dec_rep(accept[k - 1] as nat) + ", "@
        }
    }
}

/// One digraph line per edge: tab, source, arrow, destination.
pub open spec fn digraph_edges_spec(ts: Seq<Vec<usize>>, k: int) -> Seq<char>
    decreases k,
{
    if k <= 0 {
        Seq::<char>::empty()
    } else {
        digraph_edges_spec(ts, k - 1) + "\t"@ + dec_rep(ts[k - 1]@[0] as nat) + " -> "@ + dec_rep(
            ts[k - 1]@[1] as nat,
        ) + ";\n"@
    }
}

/// The whole digraph text of a graph: header, accept-state declarations,
/// start edge, one line per edge, footer.
pub open spec fn create_digraph_spec(dfa: DFA) -> Seq<char> {
    "digraph {\n\n\tnode [shape=point]; start;\n\tnode [shape=doublecircle]; "@ + accept_list_spec(
        dfa.accept@,
        dfa.accept@.len() as int,
    ) + ";\n\tnode [shape=circle];\n\n"@ + "\tstart -> "@ + dec_rep(dfa.start as nat) + ";\n"@
        + digraph_edges_spec(dfa.transitions@, dfa.transitions@.len() as int) + "\n\n}"@
}

/// A state's name in a node line: parenthesized when it accepts.
pub open spec fn node_name_spec(accept: Seq<usize>, s: usize) -> Seq<char> {
    if accept.contains(s) {
        "("@ + dec_rep(s as nat) + ")"@
    } else {
        dec_rep(s as nat)
    }
}

/// The node lines of the first `k` edges: each edge rendered as
/// `from -> to`, accept states in parentheses.
pub open spec fn node_lines_spec(accept: Seq<usize>, ts: Seq<Vec<usize>>, k: int) -> Seq<Seq<char>>
    decreases k,
{
    if k <= 0 {
        Seq::<Seq<char>>::empty()
    } else {
        node_lines_spec(accept, ts, k - 1).push(
            node_name_spec(accept, ts[k - 1]@[0]) + " -> "@ + node_name_spec(
                accept,
                ts[k - 1]@[1],
            ),
        )
    }
}

impl Graph {
    /// Renders the digraph text: header, the accept states as
    /// double-circles, the start edge, and one line per edge.
    pub fn create_digraph(&self) -> (r: String)
        requires
            forall|t: int|
                0 <= t < self.dfa.transitions@.len() ==> (
                #[trigger] self.dfa.transitions@[t])@.len() >= 2,
        ensures
            r@ == create_digraph_spec(*self.dfa),
    {
        let mut out = String::new();
        out.append("digraph {\n\n\tnode [shape=point]; start;\n\tnode [shape=doublecircle]; ");

        let na = self.dfa.accept.len();
        for i in 0..na
            invariant
                na == self.dfa.accept@.len(),
                out@ == "digraph {\n\n\tnode [shape=point]; start;\n\tnode [shape=doublecircle]; "@
                    + accept_list_spec(self.dfa.accept@, i as int),
        {
            push_dec(&mut out, self.dfa.accept[i]);
            if i != na - 1 {
                out.append(", ");
            }
            proof {
                assert(out@ =~= "digraph {\n\n\tnode [shape=point]; start;\n\tnode [shape=doublecircle]; "@
                    + accept_list_spec(self.dfa.accept@, i + 1));
            }
        }

        out.append(";\n\tnode [shape=circle];\n\n");
        out.append("\tstart -> ");
        push_dec(&mut out, self.dfa.start);
        out.append(";\n");
        let ghost head = "digraph {\n\n\tnode [shape=point]; start;\n\tnode [shape=doublecircle]; "@
            + accept_list_spec(self.dfa.accept@, na as int)
            + ";\n\tnode [shape=circle];\n\n"@ + "\tstart -> "@ + dec_rep(self.dfa.start as nat)
            + ";\n"@;
        proof {
            assert(out@ =~= head);
        }

        let nt = self.dfa.transitions.len();
        for t in 0..nt
            invariant
                nt == self.dfa.transitions@.len(),
                forall|p: int|
                    0 <= p < nt ==> (#[trigger] self.dfa.transitions@[p])@.len() >= 2,
                head == "digraph {\n\n\tnode [shape=point]; start;\n\tnode [shape=doublecircle]; "@
                    + accept_list_spec(self.dfa.accept@, self.dfa.accept@.len() as int)
                    + ";\n\tnode [shape=circle];\n\n"@ + "\tstart -> "@ + dec_rep(
                    self.dfa.start as nat,
                ) + ";\n"@,
                out@ == head + digraph_edges_spec(self.dfa.transitions@, t as int),
        {
            let row = &self.dfa.transitions[t];
            out.append("\t");
            push_dec(&mut out, row[0]);
            out.append(" -> ");
            push_dec(&mut out, row[1]);
            out.append(";\n");
            proof {
                assert(out@ =~= head + digraph_edges_spec(self.dfa.transitions@, t + 1));
            }
        }

        out.append("\n\n}");
        proof {
            assert(out@ =~= create_digraph_spec(*self.dfa));
        }
        out
    }

    /// Fills the node list: the start edge first, then one line per edge
    /// with accept states parenthesized.
    pub fn load_node(&mut self)
        requires
            forall|t: int|
                0 <= t < old(self).dfa.transitions@.len() ==> (
                #[trigger] old(self).dfa.transitions@[t])@.len() >= 2,
        ensures
            final(self).dfa == old(self).dfa,
            final(self).distructure == old(self).distructure,
            str_views(final(self).nodes@) == str_views(old(self).nodes@).push(
                " -> "@ + dec_rep(old(self).dfa.start as nat),
            ) + node_lines_spec(
                old(self).dfa.accept@,
                old(self).dfa.transitions@,
                old(self).dfa.transitions@.len() as int,
            ),
    {
        broadcast use lemma_str_views_push;

        let mut first = String::new();
        first.append(" -> ");
        push_dec(&mut first, self.dfa.start);
        let ghost fg: String = first;
        let ghost pre0 = self.nodes@;
        self.nodes.push(first);
        proof {
            lemma_str_views_push(pre0, fg);
        }
        let ghost base = str_views(old(self).nodes@).push(
            " -> "@ + dec_rep(old(self).dfa.start as nat),
        );

        let nt = self.dfa.transitions.len();
        for t in 0..nt
            invariant
                nt == self.dfa.transitions@.len(),
                forall|p: int|
                    0 <= p < nt ==> (#[trigger] self.dfa.transitions@[p])@.len() >= 2,
                self.dfa == old(self).dfa,
                self.distructure == old(self).distructure,
                base == str_views(old(self).nodes@).push(
                    " -> "@ + dec_rep(old(self).dfa.start as nat),
                ),
                str_views(self.nodes@) == base + node_lines_spec(
                    self.dfa.accept@,
                    self.dfa.transitions@,
                    t as int,
                ),
        {
            let row = &self.dfa.transitions[t];
            let mut line = String::new();
            let a = row[0];
            let b = row[1];
            if contains_usize(&self.dfa.accept, a) {
                line.append("(");
                push_dec(&mut line, a);
                line.append(")");
            } else {
                push_dec(&mut line, a);
            }
            proof {
                assert(line@ =~= node_name_spec(self.dfa.accept@, a));
            }
            line.append(" -> ");
            if contains_usize(&self.dfa.accept, b) {
                line.append("(");
                push_dec(&mut line, b);
                line.append(")");
            } else {
                push_dec(&mut line, b);
            }
            proof {
                assert(line@ =~= node_name_spec(self.dfa.accept@, a) + " -> "@ + node_name_spec(
                    self.dfa.accept@,
                    b,
                ));
            }
            let ghost lg: String = line;
            let ghost pre_nodes = self.nodes@;
            self.nodes.push(line);
            proof {
                lemma_str_views_push(pre_nodes, lg);
                assert(str_views(self.nodes@) =~~= base + node_lines_spec(
                    self.dfa.accept@,
                    self.dfa.transitions@,
                    t + 1,
                ));
            }
        }
    }
}

} // verus!
