//! The state-graph form of pre-built automata (DFA and PDA variants), with
//! the simulator for the DFA's total transition function.

use vstd::prelude::*;
use crate::dfa::DFA;
use crate::pda::PDA;
use crate::exprs::{contains_char, contains_usize};
use crate::text::{dec_rep, push_dec, push_char};

verus! {

/// A single state of the state-graph form.
#[derive(Debug)]
pub struct State {
    /// Is this an accept state.
    pub accept_state: bool,
    /// Destinations (0-relative for the DFA variant), one per alphabet index.
    pub transitions: Vec<usize>,
}

/// State-based representation of a pre-built automaton.
#[derive(Debug)]
pub struct StateGraph {
    /// The set of characters comprising the alphabet.
    pub alphabet: Vec<char>,
    /// State number (0-relative for the DFA variant) of the start state.
    pub start_state: usize,
    /// One state object per transition-table row.
    pub states: Vec<Box<State>>,
}

impl StateGraph {
    /// The shape the DFA simulator relies on: one destination per alphabet
    /// symbol, every destination a valid 0-relative state.
    pub open spec fn wf(&self) -> bool {
        forall|n: int|
            0 <= n < self.states@.len() ==> (#[trigger] self.states@[n]).transitions@.len()
                == self.alphabet@.len() && forall|i: int|
                0 <= i < self.states@[n].transitions@.len() ==> (
                #[trigger] self.states@[n].transitions@[i]) < self.states@.len()
    }

    /// Builds the 0-relative state graph of a validated DFA description:
    /// every state and destination shifts down by one, and a state is marked
    /// accepting exactly when the description lists its 1-relative number.
    pub fn new_from_dfa(dfa: &DFA) -> (r: Box<StateGraph>)
        requires
            dfa.start >= 1,
            forall|t: int, c: int|
                0 <= t < dfa.transitions@.len() && 0 <= c < dfa.transitions@[t]@.len() ==> 1 <= (
                #[trigger] dfa.transitions@[t]@[c]) <= dfa.transitions@.len(),
        ensures
            r.alphabet@ == dfa.alphabet@,
            r.start_state == dfa.start - 1,
            r.states@.len() == dfa.transitions@.len(),
            forall|n: int|
                0 <= n < r.states@.len() ==> (#[trigger] r.states@[n]).accept_state
                    == dfa.accept@.contains((n + 1) as usize) && r.states@[n].transitions@.len()
                    == dfa.transitions@[n]@.len() && (forall|c: int|
                    0 <= c < dfa.transitions@[n]@.len() ==> (
                    #[trigger] r.states@[n].transitions@[c]) as int == dfa.transitions@[n]@[c] - 1),
    {
        let mut states: Vec<Box<State>> = Vec::new();
        let nr = dfa.transitions.len();

        for n in 0..nr
            invariant
                nr == dfa.transitions@.len(),
                forall|t: int, c: int|
                    0 <= t < dfa.transitions@.len() && 0 <= c < dfa.transitions@[t]@.len() ==> 1
                        <= (#[trigger] dfa.transitions@[t]@[c]) <= dfa.transitions@.len(),
                states@.len() == n,
                forall|p: int|
                    0 <= p < n ==> (#[trigger] states@[p]).accept_state == dfa.accept@.contains(
                        (p + 1) as usize,
                    ) && states@[p].transitions@.len() == dfa.transitions@[p]@.len() && (forall|
                        c: int,
                    |
                        0 <= c < dfa.transitions@[p]@.len() ==> (
                        #[trigger] states@[p].transitions@[c]) as int == dfa.transitions@[p]@[c]
                            - 1),
        {
            let row = &dfa.transitions[n];
            let mut v: Vec<usize> = Vec::new();
            let width = row.len();
            for c in 0..width
                invariant
                    nr == dfa.transitions@.len(),
                    n < nr,
                    width == dfa.transitions@[n as int]@.len(),
                    row == &dfa.transitions@[n as int],
                    forall|t: int, cc: int|
                        0 <= t < dfa.transitions@.len() && 0 <= cc < dfa.transitions@[t]@.len()
                            ==> 1 <= (#[trigger] dfa.transitions@[t]@[cc])
                            <= dfa.transitions@.len(),
                    v@.len() == c,
                    forall|cc: int|
                        0 <= cc < c ==> (#[trigger] v@[cc]) as int == dfa.transitions@[n as int]@[cc]
                            - 1,
            {
                v.push(row[c] - 1);
            }
            let accepting = contains_usize(&dfa.accept, n + 1);
            states.push(Box::new(State { accept_state: accepting, transitions: v }));
        }

        Box::new(StateGraph { alphabet: crate::exprs::copy_chain(&dfa.alphabet), start_state: dfa.start - 1, states })
    }

    /// Builds the state graph of a PDA description: state numbers and
    /// destinations are taken as they stand, and the accept list indexes the
    /// state vector directly, 0-relative.
    pub fn new_from_pda(pda: &PDA) -> (r: Box<StateGraph>)
        requires
            forall|j: int|
                0 <= j < pda.accept@.len() ==> (#[trigger] pda.accept@[j])
                    < pda.transitions@.len(),
        ensures
            r.alphabet@ == pda.alphabet@,
            r.start_state == pda.start,
            r.states@.len() == pda.transitions@.len(),
            forall|n: int|
                0 <= n < r.states@.len() ==> (#[trigger] r.states@[n]).accept_state
                    == pda.accept@.contains(n as usize) && r.states@[n].transitions@
                    == pda.transitions@[n]@,
    {
        let mut states: Vec<Box<State>> = Vec::new();
        let nr = pda.transitions.len();

        for n in 0..nr
            invariant
                nr == pda.transitions@.len(),
                states@.len() == n,
                forall|p: int|
                    0 <= p < n ==> (#[trigger] states@[p]).accept_state == pda.accept@.contains(
                        p as usize,
                    ) && states@[p].transitions@ == pda.transitions@[p]@,
        {
            let row = &pda.transitions[n];
            let mut v: Vec<usize> = Vec::new();
            let width = row.len();
            for c in 0..width
                invariant
                    nr == pda.transitions@.len(),
                    n < nr,
                    width == pda.transitions@[n as int]@.len(),
                    row == &pda.transitions@[n as int],
                    v@ == pda.transitions@[n as int]@.subrange(0, c as int),
            {
                v.push(row[c]);
                proof {
                    assert(pda.transitions@[n as int]@.subrange(0, c as int).push(
                        pda.transitions@[n as int]@[c as int],
                    ) =~= pda.transitions@[n as int]@.subrange(0, c + 1));
                }
            }
            proof {
                assert(pda.transitions@[n as int]@.subrange(0, width as int)
                    =~= pda.transitions@[n as int]@);
            }
            let accepting = contains_usize(&pda.accept, n);
            states.push(Box::new(State { accept_state: accepting, transitions: v }));
        }

        Box::new(StateGraph { alphabet: crate::exprs::copy_chain(&pda.alphabet), start_state: pda.start, states })
    }

    /// Checks that the input holds only alphabet symbols, answering the first
    /// offending character if one exists.
    pub fn check_input_alphabet(&self, s: &Vec<char>) -> (r: Option<char>)
        ensures
            r is None <==> (forall|j: int|
                0 <= j < s@.len() ==> self.alphabet@.contains(#[trigger] s@[j])),
            r is Some ==> exists|i: int|
                0 <= i < s@.len() && #[trigger] s@[i] == r->Some_0 && !self.alphabet@.contains(
                    s@[i],
                ) && (forall|j: int| 0 <= j < i ==> self.alphabet@.contains(#[trigger] s@[j])),
    {
        let n = s.len();
        for i in 0..n
            invariant
                n == s@.len(),
                forall|j: int| 0 <= j < i ==> self.alphabet@.contains(#[trigger] s@[j]),
        {
            if !contains_char(&self.alphabet, s[i]) {
                return Some(s[i]);
            }
        }
        None
    }
}

/// The flattened `(from, symbol, to)` entries of one state's row, 1-relative
/// on both ends.
pub open spec fn state_entries(n: int, alpha: Seq<char>, dests: Seq<usize>, i: int) -> Seq<
    (usize, usize, char),
>
    decreases i,
{
    if i <= 0 {
        Seq::<(usize, usize, char)>::empty()
    } else {
        state_entries(n, alpha, dests, i - 1).push(
            (((n + 1) as usize), ((dests[i - 1] + 1) as usize), alpha[i - 1]),
        )
    }
}

/// The flattened entries of the first `k` states, in state order.
pub open spec fn graph_entries_upto(g: StateGraph, k: int) -> Seq<(usize, usize, char)>
    decreases k,
{
    if k <= 0 {
        Seq::<(usize, usize, char)>::empty()
    } else {
        graph_entries_upto(g, k - 1) + state_entries(
            k - 1,
            g.alphabet@,
            g.states@[k - 1].transitions@,
            g.alphabet@.len() as int,
        )
    }
}

/// All `(from, to, symbol)` entries of the state graph.
pub open spec fn graph_entries(g: StateGraph) -> Seq<(usize, usize, char)> {
    graph_entries_upto(g, g.states@.len() as int)
}

/// The first entry leaving `cur` under `letter`, scanning from entry `j`.
pub open spec fn dscan(
    entries: Seq<(usize, usize, char)>,
    j: int,
    cur: usize,
    letter: char,
) -> (usize, Option<(usize, usize, char)>)
    decreases entries.len() - j,
{
    if j < 0 || j >= entries.len() {
        (cur, None)
    } else {
        let e = entries[j];
        if e.0 == cur && e.2 == letter {
            (e.1, Some(e))
        } else {
            dscan(entries, j + 1, cur, letter)
        }
    }
}

/// The DFA simulation state after the first `i` letters, starting from the
/// 1-relative state `start`.
pub open spec fn drun_upto(
    entries: Seq<(usize, usize, char)>,
    input: Seq<char>,
    i: int,
    start: usize,
) -> (usize, Seq<(usize, usize, char)>)
    decreases i,
{
    if i <= 0 {
        (start, Seq::<(usize, usize, char)>::empty())
    } else {
        let prev = drun_upto(entries, input, i - 1, start);
        let step = dscan(entries, 0, prev.0, input[i - 1]);
        match step.1 {
            Some(e) => (step.0, prev.1.push(e)),
            None => (step.0, prev.1),
        }
    }
}

/// The 1-relative start state of a graph (the graph keeps it 0-relative).
pub open spec fn graph_start(g: StateGraph) -> usize {
    (g.start_state + 1) as usize
}

/// Whether the 1-relative state `cur` is an accept state of the graph.
pub open spec fn graph_accepts_state(g: StateGraph, cur: usize) -> bool {
    exists|n: int|
        0 <= n < g.states@.len() && (#[trigger] g.states@[n]).accept_state && cur == n + 1
}

impl StateGraph {
    /// Replays the input against the graph's total transition function from
    /// the designated start state, recording each fired transition, and
    /// answers whether the final state accepts.
    pub fn check_string(&self, input: &Vec<char>) -> (r: (bool, Vec<(usize, usize, char)>))
        requires
            self.wf(),
            self.start_state < usize::MAX,
        ensures
            r.1@ == drun_upto(
                graph_entries(*self),
                input@,
                input@.len() as int,
                graph_start(*self),
            ).1,
            r.0 == graph_accepts_state(
                *self,
                drun_upto(
                    graph_entries(*self),
                    input@,
                    input@.len() as int,
                    graph_start(*self),
                ).0,
            ),
    {
        let ghost ent = graph_entries(*self);

        // One entry per (state, symbol) pair, 1-relative on both ends.
        let mut transition_vec: Vec<(usize, usize, char)> = Vec::new();
        let ns = self.states.len();
        for n in 0..ns
            invariant
                ns == self.states@.len(),
                self.wf(),
                transition_vec@ == graph_entries_upto(*self, n as int),
        {
            let state = &self.states[n];
            let na = self.alphabet.len();
            for i in 0..na
                invariant
                    ns == self.states@.len(),
                    self.wf(),
                    n < ns,
                    na == self.alphabet@.len(),
                    state == &self.states@[n as int],
                    transition_vec@ == graph_entries_upto(*self, n as int) + state_entries(
                        n as int,
                        self.alphabet@,
                        self.states@[n as int].transitions@,
                        i as int,
                    ),
            {
                transition_vec.push((n + 1, state.transitions[i] + 1, self.alphabet[i]));
            }
        }
        proof {
            assert(transition_vec@ == ent);
        }

        // Replay the input from the designated start state, 1-relative.
        let mut curr_state: usize = self.start_state + 1;
        let mut trace: Vec<(usize, usize, char)> = Vec::new();
        let n = input.len();
        for i in 0..n
            invariant
                n == input@.len(),
                transition_vec@ == ent,
                (curr_state, trace@) == drun_upto(ent, input@, i as int, graph_start(*self)),
        {
            let letter = input[i];
            let ghost full = dscan(ent, 0, curr_state, letter);
            let mut fired = false;
            let en = transition_vec.len();
            for j in 0..en
                invariant
                    en == ent.len(),
                    transition_vec@ == ent,
                    !fired ==> dscan(ent, j as int, curr_state, letter) == full,
                    fired ==> full.1 is Some && curr_state == full.0 && trace@ == drun_upto(
                        ent,
                        input@,
                        i as int,
                        graph_start(*self),
                    ).1.push(full.1->0),
                    !fired ==> trace@ == drun_upto(ent, input@, i as int, graph_start(*self)).1,
            {
                if !fired {
                    let e = transition_vec[j];
                    if e.0 == curr_state && e.2 == letter {
                        trace.push(e);
                        curr_state = e.1;
                        fired = true;
                    }
                }
            }
        }

        // Does the final state accept?
        let mut accept = false;
        let ghost fin = curr_state;
        for n in 0..ns
            invariant
                ns == self.states@.len(),
                curr_state == fin,
                accept == exists|p: int|
                    0 <= p < n && (#[trigger] self.states@[p]).accept_state && fin == p + 1,
        {
            if self.states[n].accept_state && curr_state == n + 1 {
                proof {
                    assert((#[trigger] self.states@[n as int]).accept_state && fin == n + 1);
                }
                accept = true;
            }
        }
        (accept, trace)
    }
}


/// One double-circle declaration per accepting state, 1-relative.
pub open spec fn m_accept_lines(states: Seq<Box<State>>, k: int) -> Seq<char>
    decreases k,
{
    if k <= 0 {
        Seq::<char>::empty()
    } else {
        m_accept_lines(states, k - 1) + if states[k - 1].accept_state {
            "\tnode [shape=doublecircle]; q"@ + dec_rep(k as nat) + ";\n"@
        } else {
            Seq::<char>::empty()
        }
    }
}

/// The rendered edges of one state: one line per alphabet symbol.
pub open spec fn m_state_edges(n: int, alpha: Seq<char>, dests: Seq<usize>, i: int) -> Seq<char>
    decreases i,
{
    if i <= 0 {
        Seq::<char>::empty()
    } else {
        m_state_edges(n, alpha, dests, i - 1) + "\tq"@ + dec_rep((n + 1) as nat) + " -> q"@
            + dec_rep((dests[i - 1] + 1) as nat) + " [label=\""@ + seq![alpha[i - 1]]
            + "\"];\n"@
    }
}

/// The rendered edges of the first `k` states.
pub open spec fn m_edges(g: StateGraph, k: int) -> Seq<char>
    decreases k,
{
    if k <= 0 {
        Seq::<char>::empty()
    } else {
        m_edges(g, k - 1) + m_state_edges(
            k - 1,
            g.alphabet@,
            g.states@[k - 1].transitions@,
            g.alphabet@.len() as int,
        )
    }
}

/// The whole digraph text of a DFA state graph.
pub open spec fn m_graphviz_spec(g: StateGraph) -> Seq<char> {
    "digraph {\n\trankdir=LR;\n\tnode [shape=point]; start;\n"@ + m_accept_lines(
        g.states@,
        g.states@.len() as int,
    ) + "\tnode [shape=circle];\n"@ + "\tstart -> q"@ + dec_rep((g.start_state + 1) as nat)
        + "\n"@ + m_edges(g, g.states@.len() as int) + "}\n"@
}

/// One edge line per alphabet symbol: read the symbol, no stack change.
pub open spec fn pda_keep_lines(alpha: Seq<char>, i: int, a: usize, b: usize) -> Seq<char>
    decreases i,
{
    if i <= 0 {
        Seq::<char>::empty()
    } else {
        pda_keep_lines(alpha, i - 1, a, b) + "\tq"@ + dec_rep(a as nat) + " -> q"@ + dec_rep(
            b as nat,
        ) + " [label=\""@ + seq![alpha[i - 1]] + ", e -> "@ + seq![alpha[i - 1]] + "\"];\n"@
    }
}

/// One edge line per alphabet symbol: read the symbol and pop it.
pub open spec fn pda_pop_lines(alpha: Seq<char>, i: int, a: usize, b: usize) -> Seq<char>
    decreases i,
{
    if i <= 0 {
        Seq::<char>::empty()
    } else {
        pda_pop_lines(alpha, i - 1, a, b) + "\tq"@ + dec_rep(a as nat) + " -> q"@ + dec_rep(
            b as nat,
        ) + " [label=\""@ + seq![alpha[i - 1]] + ", "@ + seq![alpha[i - 1]] + " -> e\"];\n"@
    }
}

/// The synthesized label lines of one PDA edge: leaving the start state
/// pushes the bottom marker, entering an accept state pops it, a move
/// between distinct states keeps the stack, the self-loop on the designated
/// body state reads each symbol without a stack change, and any other
/// self-loop reads and pops each symbol.
pub open spec fn pda_edge_lines(
    alpha: Seq<char>,
    accept: Seq<usize>,
    start_state: usize,
    row: Seq<usize>,
) -> Seq<char> {
    let a = row[0];
    let b = row[1];
    if a == start_state {
        "\tq"@ + dec_rep(start_state as nat) + " -> q"@ + dec_rep(b as nat)
            + " [label=\"e, e -> $\"];\n"@
    } else if accept.contains(b) {
        "\tq"@ + dec_rep(a as nat) + " -> q"@ + dec_rep(b as nat)
            + " [label=\"e, $ -> e\"];\n"@
    } else if a != b {
        "\tq"@ + dec_rep(a as nat) + " -> q"@ + dec_rep(b as nat)
            + " [label=\"e, e -> e\"];\n"@
    } else if a == 2 {
        pda_keep_lines(alpha, alpha.len() as int, a, b)
    } else {
        pda_pop_lines(alpha, alpha.len() as int, a, b)
    }
}

/// The rendered edges of the first `k` PDA transition rows.
pub open spec fn pda_edges(
    alpha: Seq<char>,
    accept: Seq<usize>,
    start_state: usize,
    ts: Seq<Vec<usize>>,
    k: int,
) -> Seq<char>
    decreases k,
{
    if k <= 0 {
        Seq::<char>::empty()
    } else {
        pda_edges(alpha, accept, start_state, ts, k - 1) + pda_edge_lines(
            alpha,
            accept,
            start_state,
            ts[k - 1]@,
        )
    }
}

/// PDA accept-state declarations, numbered 0-relative.
pub open spec fn pda_accept_lines(states: Seq<Box<State>>, k: int) -> Seq<char>
    decreases k,
{
    if k <= 0 {
        Seq::<char>::empty()
    } else {
        pda_accept_lines(states, k - 1) + if states[k - 1].accept_state {
            "\tnode [shape=doublecircle]; q"@ + dec_rep((k - 1) as nat) + ";\n"@
        } else {
            Seq::<char>::empty()
        }
    }
}

/// The whole digraph text of a PDA state graph: structure from the state
/// graph, stack-operation labels synthesized from the PDA's rows.
pub open spec fn pda_graphviz_spec(g: StateGraph, pda: PDA) -> Seq<char> {
    "digraph {\n\trankdir=LR;\n\tnode [shape=point]; start;\n"@ + pda_accept_lines(
        g.states@,
        g.states@.len() as int,
    ) + "\tnode [shape=circle];\n"@ + "\tstart -> q"@ + dec_rep(g.start_state as nat) + "\n"@
        + pda_edges(
        pda.alphabet@,
        pda.accept@,
        g.start_state,
        pda.transitions@,
        pda.transitions@.len() as int,
    ) + "}\n"@
}

impl StateGraph {
    /// Renders the DFA state graph as a digraph text, states 1-relative.
    pub fn write_graphviz(&self) -> (r: String)
        requires
            self.wf(),
            self.start_state < usize::MAX,
        ensures
            r@ == m_graphviz_spec(*self),
    {
        let mut out = String::new();
        out.append("digraph {\n\trankdir=LR;\n\tnode [shape=point]; start;\n");

        let ns = self.states.len();
        for n in 0..ns
            invariant
                ns == self.states@.len(),
                self.wf(),
                out@ == "digraph {\n\trankdir=LR;\n\tnode [shape=point]; start;\n"@
                    + m_accept_lines(self.states@, n as int),
        {
            if self.states[n].accept_state {
                out.append("\tnode [shape=doublecircle]; q");
                push_dec(&mut out, n + 1);
                out.append(";\n");
            }
            proof {
                assert(out@ =~= "digraph {\n\trankdir=LR;\n\tnode [shape=point]; start;\n"@
                    + m_accept_lines(self.states@, n + 1));
            }
        }

        out.append("\tnode [shape=circle];\n");
        out.append("\tstart -> q");
        push_dec(&mut out, self.start_state + 1);
        out.append("\n");
        let ghost head = "digraph {\n\trankdir=LR;\n\tnode [shape=point]; start;\n"@
            + m_accept_lines(self.states@, ns as int) + "\tnode [shape=circle];\n"@
            + "\tstart -> q"@ + dec_rep((self.start_state + 1) as nat) + "\n"@;
        proof {
            assert(out@ =~= head);
        }

        for n in 0..ns
            invariant
                ns == self.states@.len(),
                self.wf(),
                head == "digraph {\n\trankdir=LR;\n\tnode [shape=point]; start;\n"@
                    + m_accept_lines(self.states@, self.states@.len() as int)
                    + "\tnode [shape=circle];\n"@ + "\tstart -> q"@ + dec_rep(
                    (self.start_state + 1) as nat,
                ) + "\n"@,
                out@ == head + m_edges(*self, n as int),
        {
            let state = &self.states[n];
            let na = self.alphabet.len();
            for i in 0..na
                invariant
                    ns == self.states@.len(),
                    self.wf(),
                    n < ns,
                    na == self.alphabet@.len(),
                    state == &self.states@[n as int],
                    out@ == head + m_edges(*self, n as int) + m_state_edges(
                        n as int,
                        self.alphabet@,
                        self.states@[n as int].transitions@,
                        i as int,
                    ),
            {
                out.append("\tq");
                push_dec(&mut out, n + 1);
                out.append(" -> q");
                push_dec(&mut out, state.transitions[i] + 1);
                out.append(" [label=\"");
                push_char(&mut out, self.alphabet[i]);
                out.append("\"];\n");
                proof {
                    assert(out@ =~= head + m_edges(*self, n as int) + m_state_edges(
                        n as int,
                        self.alphabet@,
                        self.states@[n as int].transitions@,
                        i + 1,
                    ));
                }
            }
        }

        out.append("}\n");
        proof {
            assert(out@ =~= m_graphviz_spec(*self));
        }
        out
    }

    /// Renders the PDA state graph as a digraph text, with stack-operation
    /// labels synthesized positionally from the PDA's rows.
    #[verifier::rlimit(50)]
    pub fn write_graphviz_pda(&self, pda: &PDA) -> (r: String)
        requires
            forall|t: int|
                0 <= t < pda.transitions@.len() ==> (#[trigger] pda.transitions@[t])@.len() >= 2,
        ensures
            r@ == pda_graphviz_spec(*self, *pda),
    {
        let mut out = String::new();
        out.append("digraph {\n\trankdir=LR;\n\tnode [shape=point]; start;\n");

        let ns = self.states.len();
        for n in 0..ns
            invariant
                ns == self.states@.len(),
                out@ == "digraph {\n\trankdir=LR;\n\tnode [shape=point]; start;\n"@
                    + pda_accept_lines(self.states@, n as int),
        {
            if self.states[n].accept_state {
                out.append("\tnode [shape=doublecircle]; q");
                push_dec(&mut out, n);
                out.append(";\n");
            }
            proof {
                assert(out@ =~= "digraph {\n\trankdir=LR;\n\tnode [shape=point]; start;\n"@
                    + pda_accept_lines(self.states@, n + 1));
            }
        }

        out.append("\tnode [shape=circle];\n");
        out.append("\tstart -> q");
        push_dec(&mut out, self.start_state);
        out.append("\n");
        let ghost head = "digraph {\n\trankdir=LR;\n\tnode [shape=point]; start;\n"@
            + pda_accept_lines(self.states@, ns as int) + "\tnode [shape=circle];\n"@
            + "\tstart -> q"@ + dec_rep(self.start_state as nat) + "\n"@;
        proof {
            assert(out@ =~= head);
        }

        let nt = pda.transitions.len();
        for t in 0..nt
            invariant
                nt == pda.transitions@.len(),
                forall|p: int|
                    0 <= p < nt ==> (#[trigger] pda.transitions@[p])@.len() >= 2,
                head == "digraph {\n\trankdir=LR;\n\tnode [shape=point]; start;\n"@
                    + pda_accept_lines(self.states@, self.states@.len() as int)
                    + "\tnode [shape=circle];\n"@ + "\tstart -> q"@ + dec_rep(
                    self.start_state as nat,
                ) + "\n"@,
                out@ == head + pda_edges(
                    pda.alphabet@,
                    pda.accept@,
                    self.start_state,
                    pda.transitions@,
                    t as int,
                ),
        {
            let row = &pda.transitions[t];
            let a = row[0];
            let b = row[1];
            let ghost done = pda_edges(
                pda.alphabet@,
                pda.accept@,
                self.start_state,
                pda.transitions@,
                t as int,
            );
            if a == self.start_state {
                out.append("\tq");
                push_dec(&mut out, self.start_state);
                out.append(" -> q");
                push_dec(&mut out, b);
                out.append(" [label=\"e, e -> $\"];\n");
            } else if contains_usize(&pda.accept, b) {
                out.append("\tq");
                push_dec(&mut out, a);
                out.append(" -> q");
                push_dec(&mut out, b);
                out.append(" [label=\"e, $ -> e\"];\n");
            } else if a != b {
                out.append("\tq");
                push_dec(&mut out, a);
                out.append(" -> q");
                push_dec(&mut out, b);
                out.append(" [label=\"e, e -> e\"];\n");
            } else if a == 2 {
                let na = pda.alphabet.len();
                for i in 0..na
                    invariant
                        na == pda.alphabet@.len(),
                        a == 2 && b == 2,
                        out@ == head + done + pda_keep_lines(pda.alphabet@, i as int, a, b),
                {
                    out.append("\tq");
                    push_dec(&mut out, a);
                    out.append(" -> q");
                    push_dec(&mut out, b);
                    out.append(" [label=\"");
                    push_char(&mut out, pda.alphabet[i]);
                    out.append(", e -> ");
                    push_char(&mut out, pda.alphabet[i]);
                    out.append("\"];\n");
                    proof {
                        assert(out@ =~= head + done + pda_keep_lines(
                            pda.alphabet@,
                            i + 1,
                            a,
                            b,
                        ));
                    }
                }
            } else {
                let na = pda.alphabet.len();
                for i in 0..na
                    invariant
                        na == pda.alphabet@.len(),
                        a == b,
                        out@ == head + done + pda_pop_lines(pda.alphabet@, i as int, a, b),
                {
                    out.append("\tq");
                    push_dec(&mut out, a);
                    out.append(" -> q");
                    push_dec(&mut out, b);
                    out.append(" [label=\"");
                    push_char(&mut out, pda.alphabet[i]);
                    out.append(", ");
                    push_char(&mut out, pda.alphabet[i]);
                    out.append(" -> e\"];\n");
                    proof {
                        assert(out@ =~= head + done + pda_pop_lines(
                            pda.alphabet@,
                            i + 1,
                            a,
                            b,
                        ));
                    }
                }
            }
            proof {
                assert(out@ =~= head + pda_edges(
                    pda.alphabet@,
                    pda.accept@,
                    self.start_state,
                    pda.transitions@,
                    t + 1,
                ));
            }
        }

        out.append("}\n");
        proof {
            assert(out@ =~= pda_graphviz_spec(*self, *pda));
        }
        out
    }
}

} // verus!
