use automata::errors::RegexError;
use automata::guard::check_reg_ex_chars;
use automata::nfa::NFA;
use automata::parse::{get_alphabet, parse_original};
use automata::sim::StateGraph;
use automata::builder::{get_accept_states, get_states, get_transition_symbols, get_transitions};
use automata::simplify::{
    simplify_expressions, simplify_parentheses_end_parentheses, simplify_star_parentheses,
};

fn chars(s: &str) -> Vec<char> {
    s.chars().collect()
}

fn compile(s: &str) -> NFA {
    NFA::from_regex(&chars(s)).expect("expression should compile")
}

#[test]
fn guard_accepts_plain_expressions() {
    assert_eq!(check_reg_ex_chars(&chars("ab")), Ok(()));
    assert_eq!(check_reg_ex_chars(&chars("(a)(b)")), Ok(()));
    assert_eq!(check_reg_ex_chars(&chars("a|(b)*")), Ok(()));
}

#[test]
fn guard_rejects_bad_first_char() {
    assert_eq!(check_reg_ex_chars(&chars(")a")), Err(RegexError::BadFirstChar));
    assert_eq!(check_reg_ex_chars(&chars("*a")), Err(RegexError::BadFirstChar));
}

#[test]
fn guard_rejects_bad_char() {
    assert_eq!(check_reg_ex_chars(&chars("a$b")), Err(RegexError::BadChar));
}

#[test]
fn guard_rejects_bad_adjacent_pair() {
    assert_eq!(check_reg_ex_chars(&chars("(|a)")), Err(RegexError::BadAdjacentPair));
    assert_eq!(check_reg_ex_chars(&chars("a()b")), Err(RegexError::BadAdjacentPair));
}

#[test]
fn guard_rejects_double_star() {
    assert_eq!(check_reg_ex_chars(&chars("a**b")), Err(RegexError::DoubleStar));
}

#[test]
fn guard_rejects_bad_end_char() {
    assert_eq!(check_reg_ex_chars(&chars("ab(")), Err(RegexError::BadEndChar));
    assert_eq!(check_reg_ex_chars(&chars("a|b|")), Err(RegexError::BadEndChar));
}

#[test]
fn guard_rejects_unbalanced_parens() {
    assert_eq!(check_reg_ex_chars(&chars("(a))((b)")), Err(RegexError::UnbalancedParens));
    assert_eq!(check_reg_ex_chars(&chars("((a)b")), Err(RegexError::UnbalancedParens));
}

#[test]
fn rejected_expression_builds_nothing() {
    // The compiler answers the guard's rejection; no automaton exists.
    assert_eq!(NFA::from_regex(&chars(")a")).err(), Some(RegexError::BadFirstChar));
    assert_eq!(NFA::from_regex(&chars("a$b")).err(), Some(RegexError::BadChar));
}

#[test]
fn alphabet_is_first_occurrence_order() {
    assert_eq!(get_alphabet(&chars("ba(c)*ab")), chars("bac"));
    assert_eq!(get_alphabet(&chars("(a)*")), chars("a"));
}

#[test]
fn splitter_splits_on_top_level_bars_only() {
    let r = parse_original(&chars("a|(b|c)d"));
    assert_eq!(r, vec![chars("a"), chars("(b|c)d")]);
}

#[test]
fn simplifier_unwraps_nested_groups() {
    let r = simplify_expressions(&vec![chars("((a))")]);
    assert_eq!(r, vec![chars("a")]);
}

#[test]
fn simplifier_splits_starred_alternation() {
    let r = simplify_expressions(&vec![chars("(a|b)*")]);
    assert_eq!(r, vec![chars("(a)*"), chars("(b)*")]);
}

#[test]
fn simplifier_is_idempotent_on_simplified_chains() {
    let simplified = vec![chars("ab"), chars("(a)*")];
    assert_eq!(simplify_expressions(&simplified), simplified);
    let again = simplify_expressions(&simplify_expressions(&vec![chars("(a|b)*")]));
    assert_eq!(again, vec![chars("(a)*"), chars("(b)*")]);
}

#[test]
fn round_trip_ab() {
    let nfa = compile("ab");
    assert_eq!(nfa.states, vec![1, 2, 3]);
    assert_eq!(nfa.transitions, vec![vec![1, 2], vec![2, 3]]);
    assert_eq!(nfa.transition_symbols, vec![chars("a"), chars("b")]);
    assert_eq!(nfa.accept, vec![3]);
    assert_eq!(nfa.start, 1);

    let graph = StateGraph::new_from_nfa(nfa);

    let (ok, trace) = graph.check_string(&chars("ab"));
    assert_eq!(trace, vec![(1, 2, 'a'), (2, 3, 'b')]);
    assert_eq!(ok, true);

    // Too short: one trace entry, rejected by the length rule.
    let (ok, trace) = graph.check_string(&chars("a"));
    assert_eq!(trace.len(), 1);
    assert_eq!(ok, false);

    // 'c' is outside the alphabet: flagged before simulation.
    assert_eq!(graph.check_input_alphabet(&chars("ac")), Some('c'));
    assert_eq!(graph.check_input_alphabet(&chars("ab")), None);

    // Inside the alphabet but stuck: fewer trace entries than letters.
    let (ok, trace) = graph.check_string(&chars("aa"));
    assert_eq!(trace.len(), 1);
    assert_eq!(ok, false);
}

#[test]
fn star_accepts_empty_string() {
    let nfa = compile("(a)*");
    assert!(nfa.accept.contains(&1));
    assert_eq!(nfa.transitions, vec![vec![1, 2], vec![2, 1]]);
    assert_eq!(nfa.transition_symbols, vec![chars("a"), chars("a")]);

    let graph = StateGraph::new_from_nfa(nfa);
    let (ok, trace) = graph.check_string(&chars(""));
    assert_eq!(trace.len(), 0);
    assert_eq!(ok, true);
}

#[test]
fn alternation_branches_from_start() {
    let nfa = compile("a|b");
    assert_eq!(nfa.transitions, vec![vec![1, 2], vec![1, 3]]);
    assert_eq!(nfa.transition_symbols, vec![chars("a"), chars("b")]);
    assert_eq!(nfa.accept, vec![2, 3]);
}

#[test]
fn accept_states_are_sorted_and_unique() {
    let nfa = compile("(a)*|(b)*");
    assert_eq!(nfa.accept, vec![1, 2, 3]);
}

#[test]
fn star_group_returns_to_start() {
    let nfa = compile("(a|b)*");
    assert_eq!(
        nfa.transitions,
        vec![vec![1, 2], vec![2, 1], vec![1, 3], vec![3, 1]]
    );
    // The return edges carry every chain's leading symbol.
    assert_eq!(
        nfa.transition_symbols,
        vec![chars("a"), chars("ab"), chars("b"), chars("ab")]
    );

    let graph = StateGraph::new_from_nfa(nfa);
    assert_eq!(graph.check_string(&chars("")).0, true);
    assert_eq!(graph.check_string(&chars("a")).0, true);
    // Crossing branches passes through the free edge back to the start.
    assert_eq!(graph.check_string(&chars("ab")).0, true);
}

#[test]
fn graphviz_text_of_ab() {
    let nfa = compile("ab");
    let graph = StateGraph::new_from_nfa(nfa);
    let expected = "digraph {\n\
                    \trankdir=LR;\n\
                    \tnode [shape=point]; start;\n\
                    \tnode [shape = doublecircle]; q3;\n\
                    \tnode [shape=circle];\n\
                    \tstart -> q1\n\
                    \tq1 -> q2 [label=\"a\"]\n\
                    \tq2 -> q3 [label=\"b\"]\n\
                    }\n";
    assert_eq!(graph.write_graphviz(), expected);
}

#[test]
fn group_rewrite_unwraps_one_level() {
    assert_eq!(simplify_parentheses_end_parentheses(&chars("(ab)")), vec![chars("ab")]);
    assert_eq!(
        simplify_parentheses_end_parentheses(&chars("(a|b)")),
        vec![chars("a"), chars("b")]
    );
}

#[test]
fn star_rewrite_wraps_each_piece() {
    assert_eq!(simplify_star_parentheses(&chars("(ab)*")), vec![chars("(ab)*")]);
    assert_eq!(
        simplify_star_parentheses(&chars("(a|b)*")),
        vec![chars("(a)*"), chars("(b)*")]
    );
}

#[test]
fn builder_pieces_agree_on_a_plain_chain() {
    let chains = vec![chars("ab")];
    assert_eq!(get_states(&chains), vec![1, 2, 3]);
    assert_eq!(get_transitions(&chains), vec![vec![1, 2], vec![2, 3]]);
    assert_eq!(get_transition_symbols(&chains), vec![chars("a"), chars("b")]);
    assert_eq!(get_accept_states(&chains), vec![3]);
}

#[test]
fn builder_self_loop_on_inner_star() {
    // A trailing `*` inside a plain chain loops on the last allocated state.
    let chains = vec![chars("ab*")];
    assert_eq!(get_transitions(&chains), vec![vec![1, 2], vec![2, 3], vec![3, 3]]);
    assert_eq!(
        get_transition_symbols(&chains),
        vec![chars("a"), chars("b"), chars("b")]
    );
    assert_eq!(get_accept_states(&chains), vec![3]);
}
