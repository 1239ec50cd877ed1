use automata::chain::{chain_digraph, remove_commas};
use automata::dfa::DFA;
use automata::errors::DescError;
use automata::graph::Graph;
use automata::machine::StateGraph;
use automata::pda::PDA;

fn chars(s: &str) -> Vec<char> {
    s.chars().collect()
}

fn small_dfa() -> DFA {
    DFA {
        alphabet: chars("ab"),
        start: 1,
        accept: vec![2],
        transitions: vec![vec![1, 2], vec![2, 2]],
        n_states: 0,
        states: vec![],
    }
}

#[test]
fn compute_and_save_states() {
    let mut d = small_dfa();
    d.compute_states();
    assert_eq!(d.n_states, 2);
    assert_eq!(d.save_states(), true);
    assert_eq!(d.states, vec![1, 2]);
    assert_eq!(d.check_defined(), true);
}

#[test]
fn check_defined_needs_accept_states() {
    let d = DFA {
        alphabet: chars("ab"),
        start: 1,
        accept: vec![],
        transitions: vec![vec![1, 1]],
        n_states: 1,
        states: vec![1],
    };
    assert_eq!(d.check_defined(), false);
}

#[test]
fn transition_validity_spots_unknown_state() {
    let d = DFA {
        alphabet: chars("ab"),
        start: 1,
        accept: vec![1],
        transitions: vec![vec![1, 3]],
        n_states: 1,
        states: vec![1],
    };
    assert_eq!(d.check_tranistion_validity(), false);
    assert_eq!(d.check_start_accept_validity(), true);
}

#[test]
fn validate_accepts_consistent_description() {
    assert_eq!(small_dfa().validate(), Ok(()));
}

#[test]
fn validate_rejects_wrong_column_count() {
    let mut d = small_dfa();
    d.transitions = vec![vec![1, 2], vec![2]];
    assert_eq!(
        d.validate(),
        Err(DescError::WrongColumnCount { row: 1, found: 1, expected: 2 })
    );
}

#[test]
fn validate_rejects_out_of_range_transition() {
    let mut d = small_dfa();
    d.transitions = vec![vec![1, 2], vec![2, 3]];
    assert_eq!(
        d.validate(),
        Err(DescError::InvalidTransitionState { row: 1, col: 1, state: 3 })
    );
}

#[test]
fn validate_rejects_out_of_range_start() {
    let mut d = small_dfa();
    d.start = 5;
    assert_eq!(d.validate(), Err(DescError::InvalidStartState { start: 5 }));
}

#[test]
fn validate_rejects_out_of_range_accept() {
    let mut d = small_dfa();
    d.accept = vec![2, 7];
    assert_eq!(d.validate(), Err(DescError::InvalidAcceptState { state: 7 }));
}

#[test]
fn pda_validate_matches_dfa_rules() {
    let p = PDA {
        alphabet: chars("xy"),
        start: 1,
        accept: vec![3],
        transitions: vec![vec![1, 2], vec![2, 2]],
    };
    assert_eq!(p.validate(), Err(DescError::InvalidAcceptState { state: 3 }));
}

#[test]
fn state_graph_from_dfa_shifts_to_zero_relative() {
    let d = small_dfa();
    let g = StateGraph::new_from_dfa(&d);
    assert_eq!(g.start_state, 0);
    assert_eq!(g.states.len(), 2);
    assert_eq!(g.states[0].transitions, vec![0, 1]);
    assert_eq!(g.states[1].transitions, vec![1, 1]);
    assert_eq!(g.states[0].accept_state, false);
    assert_eq!(g.states[1].accept_state, true);
}

#[test]
fn dfa_simulation_traces_and_accepts() {
    let d = small_dfa();
    let g = StateGraph::new_from_dfa(&d);
    assert_eq!(g.check_input_alphabet(&chars("abba")), None);
    assert_eq!(g.check_input_alphabet(&chars("abc")), Some('c'));

    let (ok, trace) = g.check_string(&chars("ab"));
    assert_eq!(trace, vec![(1, 1, 'a'), (1, 2, 'b')]);
    assert_eq!(ok, true);

    let (ok, trace) = g.check_string(&chars("a"));
    assert_eq!(trace, vec![(1, 1, 'a')]);
    assert_eq!(ok, false);
}

#[test]
fn dfa_graphviz_text() {
    let d = small_dfa();
    let g = StateGraph::new_from_dfa(&d);
    let expected = "digraph {\n\
                    \trankdir=LR;\n\
                    \tnode [shape=point]; start;\n\
                    \tnode [shape=doublecircle]; q2;\n\
                    \tnode [shape=circle];\n\
                    \tstart -> q1\n\
                    \tq1 -> q1 [label=\"a\"];\n\
                    \tq1 -> q2 [label=\"b\"];\n\
                    \tq2 -> q2 [label=\"a\"];\n\
                    \tq2 -> q2 [label=\"b\"];\n\
                    }\n";
    assert_eq!(g.write_graphviz(), expected);
}

#[test]
fn pda_graphviz_synthesizes_stack_labels() {
    let p = PDA {
        alphabet: chars("xy"),
        start: 1,
        accept: vec![0],
        transitions: vec![vec![1, 2], vec![2, 2]],
    };
    let g = StateGraph::new_from_pda(&p);
    let expected = "digraph {\n\
                    \trankdir=LR;\n\
                    \tnode [shape=point]; start;\n\
                    \tnode [shape=doublecircle]; q0;\n\
                    \tnode [shape=circle];\n\
                    \tstart -> q1\n\
                    \tq1 -> q2 [label=\"e, e -> $\"];\n\
                    \tq2 -> q2 [label=\"x, e -> x\"];\n\
                    \tq2 -> q2 [label=\"y, e -> y\"];\n\
                    }\n";
    assert_eq!(g.write_graphviz_pda(&p), expected);
}

#[test]
fn graph_renders_digraph_and_nodes() {
    let g = Graph {
        dfa: Box::new(DFA {
            alphabet: chars("ab"),
            start: 1,
            accept: vec![2],
            transitions: vec![vec![1, 2], vec![2, 1]],
            n_states: 2,
            states: vec![1, 2],
        }),
        distructure: String::new(),
        nodes: vec![],
    };
    let expected = "digraph {\n\n\
                    \tnode [shape=point]; start;\n\
                    \tnode [shape=doublecircle]; 2;\n\
                    \tnode [shape=circle];\n\n\
                    \tstart -> 1;\n\
                    \t1 -> 2;\n\
                    \t2 -> 1;\n\n\n\
                    }";
    assert_eq!(g.create_digraph(), expected);

    let mut g = g;
    g.load_node();
    assert_eq!(
        g.nodes,
        vec![
            " -> 1".to_owned(),
            "1 -> (2)".to_owned(),
            "(2) -> 1".to_owned(),
        ]
    );
}

#[test]
fn graph_accept_list_is_comma_separated() {
    let g = Graph {
        dfa: Box::new(DFA {
            alphabet: chars("a"),
            start: 12,
            accept: vec![10, 11, 12],
            transitions: vec![],
            n_states: 0,
            states: vec![],
        }),
        distructure: String::new(),
        nodes: vec![],
    };
    let text = g.create_digraph();
    assert!(text.contains("doublecircle]; 10, 11, 12;"));
    assert!(text.contains("\tstart -> 12;\n"));
}

#[test]
fn chain_digraph_renders_node_list() {
    let names = remove_commas(&chars("a,b,c"));
    assert_eq!(names, chars("abc"));
    let expected = "digraph {\n\n\
                    \tnode [shape=point]; start;\n\
                    \tnode [shape=doublecircle]; c;\n\
                    \tnode [shape=circle];\n\n\
                    \tstart -> a\n\
                    \ta -> b;\n\
                    \tb -> c;\n\n\
                    }";
    assert_eq!(chain_digraph(&names), expected);
}

#[test]
fn validate_rejects_zero_states() {
    // State numbers are 1-relative: 0 is outside the state set.
    let mut d = small_dfa();
    d.transitions = vec![vec![0, 2], vec![2, 2]];
    assert_eq!(
        d.validate(),
        Err(DescError::InvalidTransitionState { row: 0, col: 0, state: 0 })
    );

    let mut d = small_dfa();
    d.start = 0;
    assert_eq!(d.validate(), Err(DescError::InvalidStartState { start: 0 }));

    let mut d = small_dfa();
    d.accept = vec![0];
    assert_eq!(d.validate(), Err(DescError::InvalidAcceptState { state: 0 }));
}

#[test]
fn dfa_simulation_starts_at_designated_state() {
    let d = DFA {
        alphabet: chars("ab"),
        start: 2,
        accept: vec![2],
        transitions: vec![vec![1, 2], vec![2, 2]],
        n_states: 0,
        states: vec![],
    };
    assert_eq!(d.validate(), Ok(()));
    let g = StateGraph::new_from_dfa(&d);
    assert_eq!(g.start_state, 1);

    let (ok, trace) = g.check_string(&chars("a"));
    assert_eq!(trace, vec![(2, 2, 'a')]);
    assert_eq!(ok, true);
}
