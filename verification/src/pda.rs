//! The pushdown-automaton description: validated like a DFA description; its
//! stack actions exist only as edge labels in the graph export.

use vstd::prelude::*;
use crate::errors::DescError;
use crate::dfa::{
    desc_ok, widths_ok, cells_ok, state_in_range, first_bad_width, first_bad_cell,
    first_bad_accept, validate_description,
};

verus! {

/// A stylized pushdown automaton loaded from a pre-built description.  Only
/// the finite-state skeleton is modelled; stack operations are synthesized
/// as edge labels by the graph exporter, never executed.
#[derive(Debug)]
pub struct PDA {
    /// The set of characters comprising the alphabet.
    pub alphabet: Vec<char>,
    /// State number (1-relative) of the start state.
    pub start: usize,
    /// Set of accept states (1-relative).
    pub accept: Vec<usize>,
    /// Matrix of transitions: rows are states, columns alphabet indices.
    pub transitions: Vec<Vec<usize>>,
}

impl PDA {
    /// Validates the description before export: row widths match the
    /// alphabet, and every transition entry, the start state and every
    /// accept state lies in the 1-relative state set.
    pub fn validate(&self) -> (r: Result<(), DescError>)
        ensures
            r is Ok <==> desc_ok(self.alphabet@, self.start, self.accept@, self.transitions@),
            forall|row: int|
                first_bad_width(self.alphabet@, self.transitions@, row) ==> r == Err::<
                    (),
                    DescError,
                >(
                    (DescError::WrongColumnCount {
                        row: row as usize,
                        found: self.transitions@[row]@.len() as usize,
                        expected: self.alphabet@.len() as usize,
                    }),
                ),
            widths_ok(self.alphabet@, self.transitions@) ==> forall|row: int, col: int|
                first_bad_cell(self.transitions@, row, col) ==> r == Err::<(), DescError>(
                    (DescError::InvalidTransitionState {
                        row: row as usize,
                        col: col as usize,
                        state: self.transitions@[row]@[col],
                    }),
                ),
            widths_ok(self.alphabet@, self.transitions@) && cells_ok(self.transitions@)
                && !state_in_range(self.start, self.transitions@.len() as int) ==> r == Err::<
                (),
                DescError,
            >((DescError::InvalidStartState { start: self.start })),
            widths_ok(self.alphabet@, self.transitions@) && cells_ok(self.transitions@)
                && state_in_range(self.start, self.transitions@.len() as int) ==> forall|j: int|
                first_bad_accept(self.accept@, self.transitions@, j) ==> r == Err::<(), DescError>(
                    (DescError::InvalidAcceptState { state: self.accept@[j] }),
                ),
    {
        validate_description(&self.alphabet, self.start, &self.accept, &self.transitions)
    }
}

} // verus!
