use automata::dfa::DFA;
use automata::machine::StateGraph;
use automata::pda::PDA;

#[test]
fn test_string_mutability() {
    let mut test_string: String = "This is a ".to_owned();
    let true_string: String = "This is a test".to_owned();
    test_string.push_str("test");
    assert_eq!(test_string, true_string);
}

#[test]
fn test_validity_funcs() {
    let d = DFA {
        start: 1,
        transitions: [[1, 1].to_vec()].to_vec(),
        accept: [1].to_vec(),
        n_states: 1,
        alphabet: ['a', 'b'].to_vec(),
        states: [1].to_vec(),
    };

    let b_transition = d.check_tranistion_validity();
    let b_start_accept = d.check_start_accept_validity();

    assert_eq!(b_transition, true);
    assert_eq!(b_start_accept, true);
}

#[test]
fn test_input_alphabet_function() {
    let alphabet = ['A', 'B'];
    let s = "ABBA";

    for letter in s.chars() {
        let mut contains = false;
        for symbol in &alphabet {
            if letter == *symbol {
                contains = true;
                break;
            }
        }
        assert_eq!(contains, true);
    }
}

#[test]
fn test_alphabet_loads_properly() {
    let mut transitions: Vec<Vec<usize>> = Vec::new();
    transitions.push(vec![1, 2]);
    transitions.push(vec![2, 2]);
    transitions.push(vec![2, 3]);
    transitions.push(vec![3, 3]);
    transitions.push(vec![3, 4]);

    let pda: PDA = PDA {
        alphabet: "xy".chars().collect(),
        start: 1,
        accept: vec![4],
        transitions: transitions,
    };

    let state_graph = StateGraph::new_from_pda(&pda);

    assert_eq!(pda.alphabet, state_graph.alphabet);
}
