//! A linear chain of named nodes rendered as a digraph: the simplest of the
//! graph exports, fed by a comma-separated list of node names.

use vstd::prelude::*;
use crate::text::push_char;

verus! {

/// The node names with every comma removed, order kept.
pub open spec fn strip_commas_upto(s: Seq<char>, i: int) -> Seq<char>
    decreases i,
{
    if i <= 0 {
        Seq::<char>::empty()
    } else {
        let prev = strip_commas_upto(s, i - 1);
        if s[i - 1] == ',' {
            prev
        } else {
            prev.push(s[i - 1])
        }
    }
}

/// Removes the separating commas from a node-name list.
pub fn remove_commas(node_names: &Vec<char>) -> (r: Vec<char>)
    ensures
        r@ == strip_commas_upto(node_names@, node_names@.len() as int),
{
    let mut out: Vec<char> = Vec::new();
    let n = node_names.len();
    for i in 0..n
        invariant
            n == node_names@.len(),
            out@ == strip_commas_upto(node_names@, i as int),
    {
        let c = node_names[i];
        if c != ',' {
            out.push(c);
        }
    }
    out
}

/// One digraph line per node: the first is entered from the start marker,
/// every later one from its predecessor, and the last closes the graph.
pub open spec fn chain_line(names: Seq<char>, x: int) -> Seq<char> {
    if x == 0 {
        "\t"@ + "start -> "@ + seq![names[0]] + "\n"@
    } else if x == names.len() - 1 {
        "\t"@ + seq![names[x - 1]] + " -> "@ + seq![names[x]] + ";"@ + "\n"@ + "\n}"@
    } else {
        "\t"@ + seq![names[x - 1]] + " -> "@ + seq![names[x]] + ";"@ + "\n"@
    }
}

/// The first `k` digraph lines, concatenated.
pub open spec fn chain_lines(names: Seq<char>, k: int) -> Seq<char>
    decreases k,
{
    if k <= 0 {
        Seq::<char>::empty()
    } else {
        chain_lines(names, k - 1) + chain_line(names, k - 1)
    }
}

/// The whole digraph text of a node chain: header with the last node double
/// circled, then one edge per neighbouring pair.
pub open spec fn chain_digraph_spec(names: Seq<char>) -> Seq<char> {
    "digraph {\n\n\tnode [shape=point]; start;\n\tnode [shape=doublecircle]; "@ + seq![
        names[names.len() - 1],
    ] + ";\n\tnode [shape=circle];\n\n"@ + chain_lines(names, names.len() as int)
}

/// Renders a chain of single-character node names as a digraph: the start
/// marker feeds the first node, each node feeds the next, and the last node
/// is double circled.
pub fn chain_digraph(node_names: &Vec<char>) -> (r: String)
    requires
        node_names@.len() >= 1,
    ensures
        r@ == chain_digraph_spec(node_names@),
{
    let mut out = String::new();
    out.append("digraph {\n\n\tnode [shape=point]; start;\n\tnode [shape=doublecircle]; ");
    push_char(&mut out, node_names[node_names.len() - 1]);
    out.append(";\n\tnode [shape=circle];\n\n");
    let ghost head = "digraph {\n\n\tnode [shape=point]; start;\n\tnode [shape=doublecircle]; "@
        + seq![node_names@[node_names@.len() - 1]] + ";\n\tnode [shape=circle];\n\n"@;
    proof {
        assert(out@ =~= head);
    }

    let n = node_names.len();
    for x in 0..n
        invariant
            n == node_names@.len(),
            n >= 1,
            head == "digraph {\n\n\tnode [shape=point]; start;\n\tnode [shape=doublecircle]; "@
                + seq![node_names@[node_names@.len() - 1]] + ";\n\tnode [shape=circle];\n\n"@,
            out@ == head + chain_lines(node_names@, x as int),
    {
        out.append("\t");
        if x == 0 {
            out.append("start -> ");
            push_char(&mut out, node_names[0]);
            out.append("\n");
        } else if x == n - 1 {
            push_char(&mut out, node_names[x - 1]);
            out.append(" -> ");
            push_char(&mut out, node_names[x]);
            out.append(";");
            out.append("\n");
            out.append("\n}");
        } else {
            push_char(&mut out, node_names[x - 1]);
            out.append(" -> ");
            push_char(&mut out, node_names[x]);
            out.append(";");
            out.append("\n");
        }
        proof {
            assert(out@ =~= head + chain_lines(node_names@, x + 1));
        }
    }
    out
}

} // verus!
