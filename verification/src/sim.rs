//! The automaton simulator for compiled NFAs: replays an input string
//! symbol by symbol against the transition relation, recording a trace.

use vstd::prelude::*;
use crate::nfa::NFA;
use crate::exprs::{contains_char, contains_usize};
use crate::text::{dec_rep, push_dec, push_char};

verus! {

/// A single state of the state-graph form of an automaton.
#[derive(Debug)]
pub struct State {
    /// Is this an accept state.
    pub accept_state: bool,
    /// States this state shares an edge with.
    pub transitions: Vec<usize>,
}

/// The state-graph form of a compiled NFA, owning the NFA it was built from.
#[derive(Debug)]
pub struct StateGraph {
    /// The compiled automaton.
    pub nfa: NFA,
    /// One entry per state of the automaton.
    pub states: Vec<State>,
}

/// The flattened entries of one edge: one `(from, to, symbol)` triple per
/// symbol on the edge's label list.
pub open spec fn row_entries(row: Seq<usize>, labels: Seq<char>, j: int) -> Seq<
    (usize, usize, char),
>
    decreases j,
{
    if j <= 0 {
        Seq::<(usize, usize, char)>::empty()
    } else {
        row_entries(row, labels, j - 1).push((row[0], row[1], labels[j - 1]))
    }
}

/// The flattened entries of the first `t` edges.
pub open spec fn entries_upto(ts: Seq<Vec<usize>>, syms: Seq<Vec<char>>, t: int) -> Seq<
    (usize, usize, char),
>
    decreases t,
{
    if t <= 0 {
        Seq::<(usize, usize, char)>::empty()
    } else {
        entries_upto(ts, syms, t - 1) + row_entries(
            ts[t - 1]@,
            syms[t - 1]@,
            syms[t - 1]@.len() as int,
        )
    }
}

/// All `(from, to, symbol)` entries of an automaton, in edge order.
pub open spec fn nfa_entries(nfa: NFA) -> Seq<(usize, usize, char)> {
    entries_upto(nfa.transitions@, nfa.transition_symbols@, nfa.transitions@.len() as int)
}

/// One scan over the entry list for one input letter, starting at entry `j`
/// in state `cur`: an entry leading from the current state back to state 1 is
/// taken freely, without consuming the letter; the first entry leaving the
/// current state whose symbol is the letter fires.
pub open spec fn scan_step(
    entries: Seq<(usize, usize, char)>,
    j: int,
    cur: usize,
    letter: char,
) -> (usize, Option<(usize, usize, char)>)
    decreases entries.len() - j,
{
    if j < 0 || j >= entries.len() {
        (cur, None)
    } else {
        let e = entries[j];
        let c1 = if e.0 == cur && e.1 == 1 {
            1usize
        } else {
            cur
        };
        if e.0 == c1 && e.2 == letter {
            (e.1, Some(e))
        } else {
            scan_step(entries, j + 1, c1, letter)
        }
    }
}

/// The simulation state after the first `i` input letters: the current state
/// (starting at state 1) and the trace of fired entries.  A letter for which
/// no entry fires leaves the trace short: the simulation is stuck.
pub open spec fn run_upto(
    entries: Seq<(usize, usize, char)>,
    input: Seq<char>,
    i: int,
) -> (usize, Seq<(usize, usize, char)>)
    decreases i,
{
    if i <= 0 {
        (1usize, Seq::<(usize, usize, char)>::empty())
    } else {
        let prev = run_upto(entries, input, i - 1);
        let step = scan_step(entries, 0, prev.0, input[i - 1]);
        match step.1 {
            Some(e) => (step.0, prev.1.push(e)),
            None => (step.0, prev.1),
        }
    }
}

/// The final simulation state and trace of an automaton on an input.
pub open spec fn sim_result(nfa: NFA, input: Seq<char>) -> (usize, Seq<(usize, usize, char)>) {
    run_upto(nfa_entries(nfa), input, input.len() as int)
}

/// Acceptance: the simulation ends in an accept state, and one entry fired
/// for every input letter (a stuck simulation rejects).
pub open spec fn sim_accepts(nfa: NFA, input: Seq<char>) -> bool {
    &&& nfa.accept@.contains(sim_result(nfa, input).0)
    &&& sim_result(nfa, input).1.len() == input.len()
}

/// The neighbours a state reads off the first `t` edges: the opposite
/// endpoint of every edge it stands on.
pub open spec fn adj_upto(ts: Seq<Vec<usize>>, state: usize, t: int) -> Seq<usize>
    decreases t,
{
    if t <= 0 {
        Seq::<usize>::empty()
    } else {
        let prev = adj_upto(ts, state, t - 1);
        let row = ts[t - 1]@;
        if state == row[0] {
            prev.push(row[1])
        } else if state == row[1] {
            prev.push(row[0])
        } else {
            prev
        }
    }
}

impl StateGraph {
    /// Builds the state-graph form of a compiled NFA: one `State` per state
    /// number, marked as accepting when the NFA lists it, holding the
    /// opposite endpoints of the edges it stands on.
    pub fn new_from_nfa(nfa: NFA) -> (r: StateGraph)
        requires
            nfa.wf(),
        ensures
            r.nfa == nfa,
            r.states@.len() == nfa.states@.len(),
            forall|idx: int|
                0 <= idx < r.states@.len() ==> (#[trigger] r.states@[idx]).accept_state
                    == nfa.accept@.contains(nfa.states@[idx]) && r.states@[idx].transitions@
                    == adj_upto(nfa.transitions@, nfa.states@[idx], nfa.transitions@.len() as int),
    {
        let mut state_graph_states: Vec<State> = Vec::new();
        let ns = nfa.states.len();
        let nt = nfa.transitions.len();

        for idx in 0..ns
            invariant
                ns == nfa.states@.len(),
                nt == nfa.transitions@.len(),
                nfa.wf(),
                state_graph_states@.len() == idx,
                forall|p: int|
                    0 <= p < idx ==> (#[trigger] state_graph_states@[p]).accept_state
                        == nfa.accept@.contains(nfa.states@[p])
                        && state_graph_states@[p].transitions@ == adj_upto(
                        nfa.transitions@,
                        nfa.states@[p],
                        nt as int,
                    ),
        {
            let state = nfa.states[idx];
            let mut state_transitions: Vec<usize> = Vec::new();

            for t in 0..nt
                invariant
                    nt == nfa.transitions@.len(),
                    nfa.wf(),
                    state == nfa.states@[idx as int],
                    state_transitions@ == adj_upto(nfa.transitions@, state, t as int),
            {
                let row = &nfa.transitions[t];
                if state == row[0] {
                    state_transitions.push(row[1]);
                } else if state == row[1] {
                    state_transitions.push(row[0]);
                }
            }

            let state_accept_state = contains_usize(&nfa.accept, state);
            state_graph_states.push(
                State { accept_state: state_accept_state, transitions: state_transitions },
            );
        }

        StateGraph { nfa, states: state_graph_states }
    }

    /// Checks that the input holds only alphabet symbols, answering the first
    /// offending character if one exists.
    pub fn check_input_alphabet(&self, s: &Vec<char>) -> (r: Option<char>)
        ensures
            r is None <==> (forall|j: int|
                0 <= j < s@.len() ==> self.nfa.alphabet@.contains(#[trigger] s@[j])),
            r is Some ==> exists|i: int|
                0 <= i < s@.len() && #[trigger] s@[i] == r->Some_0 && !self.nfa.alphabet@.contains(
                    s@[i],
                ) && (forall|j: int| 0 <= j < i ==> self.nfa.alphabet@.contains(#[trigger] s@[j])),
    {
        let n = s.len();
        for i in 0..n
            invariant
                n == s@.len(),
                forall|j: int| 0 <= j < i ==> self.nfa.alphabet@.contains(#[trigger] s@[j]),
        {
            if !contains_char(&self.nfa.alphabet, s[i]) {
                return Some(s[i]);
            }
        }
        None
    }

    /// Replays the input against the transition relation from state 1: for
    /// each letter the entry list is scanned in order, entries leading back
    /// to state 1 are taken freely, and the first entry that leaves the
    /// current state under the letter fires and is recorded.  The verdict is
    /// acceptance: the final state accepts and no letter left the simulation
    /// stuck.
    pub fn check_string(&self, input: &Vec<char>) -> (r: (bool, Vec<(usize, usize, char)>))
        requires
            self.nfa.wf(),
        ensures
            r.1@ == sim_result(self.nfa, input@).1,
            r.0 == sim_accepts(self.nfa, input@),
    {
        let ghost ent = nfa_entries(self.nfa);

        // Flatten the edge/label pair into one entry per symbol.
        let mut transition_vec: Vec<(usize, usize, char)> = Vec::new();
        let nt = self.nfa.transitions.len();
        for t in 0..nt
            invariant
                nt == self.nfa.transitions@.len(),
                self.nfa.wf(),
                transition_vec@ == entries_upto(
                    self.nfa.transitions@,
                    self.nfa.transition_symbols@,
                    t as int,
                ),
        {
            let row = &self.nfa.transitions[t];
            let labels = &self.nfa.transition_symbols[t];
            let nl = labels.len();
            for j in 0..nl
                invariant
                    nt == self.nfa.transitions@.len(),
                    self.nfa.wf(),
                    t < nt,
                    nl == self.nfa.transition_symbols@[t as int]@.len(),
                    row == &self.nfa.transitions@[t as int],
                    labels == &self.nfa.transition_symbols@[t as int],
                    transition_vec@ == entries_upto(
                        self.nfa.transitions@,
                        self.nfa.transition_symbols@,
                        t as int,
                    ) + row_entries(row@, labels@, j as int),
            {
                transition_vec.push((row[0], row[1], labels[j]));
            }
        }
        proof {
            assert(transition_vec@ == ent);
        }

        // Replay the input.
        let mut curr_state: usize = 1;
        let mut transition_count: Vec<(usize, usize, char)> = Vec::new();
        let n = input.len();
        for i in 0..n
            invariant
                n == input@.len(),
                transition_vec@ == ent,
                (curr_state, transition_count@) == run_upto(ent, input@, i as int),
        {
            let letter = input[i];
            let ghost full = scan_step(ent, 0, curr_state, letter);
            let mut fired = false;
            let en = transition_vec.len();
            for j in 0..en
                invariant
                    en == ent.len(),
                    transition_vec@ == ent,
                    !fired ==> scan_step(ent, j as int, curr_state, letter) == full,
                    fired ==> full.1 is Some && curr_state == full.0 && transition_count@
                        == run_upto(ent, input@, i as int).1.push(full.1->0),
                    !fired ==> transition_count@ == run_upto(ent, input@, i as int).1,
            {
                if !fired {
                    let e = transition_vec[j];
                    if e.0 == curr_state && e.1 == 1 {
                        curr_state = 1;
                    }
                    if e.0 == curr_state && e.2 == letter {
                        transition_count.push(e);
                        curr_state = e.1;
                        fired = true;
                    }
                }
            }
        }

        // Acceptance: final state accepts, and the trace is full length.
        let string_in_accept = contains_usize(&self.nfa.accept, curr_state);
        let accept = string_in_accept && transition_count.len() == input.len();
        (accept, transition_count)
    }
}


/// One double-circle declaration per accept state.
pub open spec fn gv_accept_lines(accept: Seq<usize>, k: int) -> Seq<char>
    decreases k,
{
    if k <= 0 {
        Seq::<char>::empty()
    } else {
        gv_accept_lines(accept, k - 1) + "\tnode [shape = doublecircle]; q"@ + dec_rep(
            accept[k - 1] as nat,
        ) + ";\n"@
    }
}

/// One rendered edge per symbol on an edge's label list.
pub open spec fn gv_edge_syms(row: Seq<usize>, labels: Seq<char>, j: int) -> Seq<char>
    decreases j,
{
    if j <= 0 {
        Seq::<char>::empty()
    } else {
        gv_edge_syms(row, labels, j - 1) + "\tq"@ + dec_rep(row[0] as nat) + " -> q"@ + dec_rep(
            row[1] as nat,
        ) + " [label=\""@ + seq![labels[j - 1]] + "\"]\n"@
    }
}

/// The rendered edges of the first `t` transitions.
pub open spec fn gv_edges(ts: Seq<Vec<usize>>, syms: Seq<Vec<char>>, t: int) -> Seq<char>
    decreases t,
{
    if t <= 0 {
        Seq::<char>::empty()
    } else {
        gv_edges(ts, syms, t - 1) + gv_edge_syms(
            ts[t - 1]@,
            syms[t - 1]@,
            syms[t - 1]@.len() as int,
        )
    }
}

/// The whole digraph text of a compiled NFA: header, a point-shaped start
/// marker, double circles for accept states, the start edge, and one edge
/// line per (transition, symbol) pair.
pub open spec fn graphviz_spec(nfa: NFA) -> Seq<char> {
    "digraph {\n\trankdir=LR;\n\tnode [shape=point]; start;\n"@ + gv_accept_lines(
        nfa.accept@,
        nfa.accept@.len() as int,
    ) + "\tnode [shape=circle];\n"@ + "\tstart -> q"@ + dec_rep(nfa.start as nat) + "\n"@
        + gv_edges(nfa.transitions@, nfa.transition_symbols@, nfa.transitions@.len() as int)
        + "}\n"@
}

impl StateGraph {
    /// Renders the automaton as a digraph text for visualization tooling.
    pub fn write_graphviz(&self) -> (r: String)
        requires
            self.nfa.wf(),
        ensures
            r@ == graphviz_spec(self.nfa),
    {
        let mut out = String::new();
        out.append("digraph {\n\trankdir=LR;\n\tnode [shape=point]; start;\n");

        let na = self.nfa.accept.len();
        for i in 0..na
            invariant
                na == self.nfa.accept@.len(),
                out@ == "digraph {\n\trankdir=LR;\n\tnode [shape=point]; start;\n"@
                    + gv_accept_lines(self.nfa.accept@, i as int),
        {
            out.append("\tnode [shape = doublecircle]; q");
            push_dec(&mut out, self.nfa.accept[i]);
            out.append(";\n");
            proof {
                assert(out@ =~= "digraph {\n\trankdir=LR;\n\tnode [shape=point]; start;\n"@
                    + gv_accept_lines(self.nfa.accept@, i + 1));
            }
        }

        out.append("\tnode [shape=circle];\n");
        out.append("\tstart -> q");
        push_dec(&mut out, self.nfa.start);
        out.append("\n");
        let ghost head = "digraph {\n\trankdir=LR;\n\tnode [shape=point]; start;\n"@
            + gv_accept_lines(self.nfa.accept@, na as int) + "\tnode [shape=circle];\n"@
            + "\tstart -> q"@ + dec_rep(self.nfa.start as nat) + "\n"@;
        proof {
            assert(out@ =~= head);
        }

        let nt = self.nfa.transitions.len();
        for t in 0..nt
            invariant
                nt == self.nfa.transitions@.len(),
                self.nfa.wf(),
                head == "digraph {\n\trankdir=LR;\n\tnode [shape=point]; start;\n"@
                    + gv_accept_lines(self.nfa.accept@, self.nfa.accept@.len() as int)
                    + "\tnode [shape=circle];\n"@ + "\tstart -> q"@ + dec_rep(
                    self.nfa.start as nat,
                ) + "\n"@,
                out@ == head + gv_edges(
                    self.nfa.transitions@,
                    self.nfa.transition_symbols@,
                    t as int,
                ),
        {
            let row = &self.nfa.transitions[t];
            let labels = &self.nfa.transition_symbols[t];
            let nl = labels.len();
            for j in 0..nl
                invariant
                    nt == self.nfa.transitions@.len(),
                    self.nfa.wf(),
                    t < nt,
                    nl == self.nfa.transition_symbols@[t as int]@.len(),
                    row == &self.nfa.transitions@[t as int],
                    labels == &self.nfa.transition_symbols@[t as int],
                    out@ == head + gv_edges(
                        self.nfa.transitions@,
                        self.nfa.transition_symbols@,
                        t as int,
                    ) + gv_edge_syms(row@, labels@, j as int),
            {
                out.append("\tq");
                push_dec(&mut out, row[0]);
                out.append(" -> q");
                push_dec(&mut out, row[1]);
                out.append(" [label=\"");
                push_char(&mut out, labels[j]);
                out.append("\"]\n");
                proof {
                    assert(out@ =~= head + gv_edges(
                        self.nfa.transitions@,
                        self.nfa.transition_symbols@,
                        t as int,
                    ) + gv_edge_syms(row@, labels@, j + 1));
                }
            }
        }

        out.append("}\n");
        proof {
            assert(out@ =~= graphviz_spec(self.nfa));
        }
        out
    }
}

} // verus!
