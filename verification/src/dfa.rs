//! Pre-built automaton descriptions: the DFA structure with its consistency
//! checks, shared with the PDA variant.

use vstd::prelude::*;
use crate::errors::DescError;
use crate::exprs::contains_usize;

verus! {

/// A deterministic finite automaton loaded from a pre-built description:
/// rows of the transition matrix are states, columns are alphabet indices.
/// The state set exists in two forms: implicitly as the row count
/// (`n_states`), and explicitly as a listed set (`states`, the start state
/// followed by the accept states).
#[derive(Debug)]
pub struct DFA {
    /// The set of characters comprising the alphabet.
    pub alphabet: Vec<char>,
    /// State number (1-relative) of the start state.
    pub start: usize,
    /// Set of accept states (1-relative).
    pub accept: Vec<usize>,
    /// Matrix of transitions: rows are states, columns alphabet indices.
    pub transitions: Vec<Vec<usize>>,
    /// Number of states, derived from the row count.
    pub n_states: usize,
    /// Explicitly listed states.
    pub states: Vec<usize>,
}

/// Every transition row is as wide as the alphabet.
pub open spec fn widths_ok(alphabet: Seq<char>, transitions: Seq<Vec<usize>>) -> bool {
    forall|r: int|
        0 <= r < transitions.len() ==> (#[trigger] transitions[r])@.len() == alphabet.len()
}

/// A member of the 1-relative state set `{1 ..= n}`, where `n` is the row
/// count.
pub open spec fn state_in_range(v: usize, n: int) -> bool {
    1 <= v <= n
}

/// Every transition entry is a member of the state set.
pub open spec fn cells_ok(transitions: Seq<Vec<usize>>) -> bool {
    forall|r: int, c: int|
        0 <= r < transitions.len() && 0 <= c < transitions[r]@.len() ==> state_in_range(
            #[trigger] transitions[r]@[c],
            transitions.len() as int,
        )
}

/// Every listed accept state is a member of the state set.
pub open spec fn accepts_ok(accept: Seq<usize>, transitions: Seq<Vec<usize>>) -> bool {
    forall|j: int|
        0 <= j < accept.len() ==> state_in_range(#[trigger] accept[j], transitions.len() as int)
}

/// A consistent description: row widths match the alphabet, and every
/// transition entry, the start state, and every accept state is a member of
/// the 1-relative state set.
pub open spec fn desc_ok(
    alphabet: Seq<char>,
    start: usize,
    accept: Seq<usize>,
    transitions: Seq<Vec<usize>>,
) -> bool {
    &&& widths_ok(alphabet, transitions)
    &&& cells_ok(transitions)
    &&& state_in_range(start, transitions.len() as int)
    &&& accepts_ok(accept, transitions)
}

/// The first row whose width disagrees with the alphabet.
pub open spec fn first_bad_width(alphabet: Seq<char>, transitions: Seq<Vec<usize>>, r: int) -> bool {
    &&& 0 <= r < transitions.len()
    &&& transitions[r]@.len() != alphabet.len()
    &&& forall|p: int| 0 <= p < r ==> (#[trigger] transitions[p])@.len() == alphabet.len()
}

/// The first out-of-range transition entry, in row-major order.
pub open spec fn first_bad_cell(transitions: Seq<Vec<usize>>, r: int, c: int) -> bool {
    &&& 0 <= r < transitions.len()
    &&& 0 <= c < transitions[r]@.len()
    &&& !state_in_range(transitions[r]@[c], transitions.len() as int)
    &&& forall|p: int, q: int|
        0 <= p < transitions.len() && 0 <= q < transitions[p]@.len() && (p < r || (p == r && q
            < c)) ==> state_in_range(#[trigger] transitions[p]@[q], transitions.len() as int)
}

/// The first out-of-range accept state.
pub open spec fn first_bad_accept(accept: Seq<usize>, transitions: Seq<Vec<usize>>, j: int) -> bool {
    &&& 0 <= j < accept.len()
    &&& !state_in_range(accept[j], transitions.len() as int)
    &&& forall|p: int|
        0 <= p < j ==> state_in_range(#[trigger] accept[p], transitions.len() as int)
}

/// Validates a pre-built description: row widths against the alphabet, then
/// every transition entry, then the start state, then the accept states —
/// each state value must lie in the 1-relative state set `{1 ..= n}` —
/// answering the first inconsistency found.
pub fn validate_description(
    alphabet: &Vec<char>,
    start: usize,
    accept: &Vec<usize>,
    transitions: &Vec<Vec<usize>>,
) -> (r: Result<(), DescError>)
    ensures
        r is Ok <==> desc_ok(alphabet@, start, accept@, transitions@),
        forall|row: int|
            first_bad_width(alphabet@, transitions@, row) ==> r == Err::<(), DescError>(
                (DescError::WrongColumnCount {
                    row: row as usize,
                    found: transitions@[row]@.len() as usize,
                    expected: alphabet@.len() as usize,
                }),
            ),
        widths_ok(alphabet@, transitions@) ==> forall|row: int, col: int|
            first_bad_cell(transitions@, row, col) ==> r == Err::<(), DescError>(
                (DescError::InvalidTransitionState {
                    row: row as usize,
                    col: col as usize,
                    state: transitions@[row]@[col],
                }),
            ),
        widths_ok(alphabet@, transitions@) && cells_ok(transitions@) && !state_in_range(
            start,
            transitions@.len() as int,
        ) ==> r == Err::<(), DescError>((DescError::InvalidStartState { start })),
        widths_ok(alphabet@, transitions@) && cells_ok(transitions@) && state_in_range(
            start,
            transitions@.len() as int,
        ) ==> forall|j: int|
            first_bad_accept(accept@, transitions@, j) ==> r == Err::<(), DescError>(
                (DescError::InvalidAcceptState { state: accept@[j] }),
            ),
{
    let nr = transitions.len();

    // Row widths must match the alphabet.
    for row in 0..nr
        invariant
            nr == transitions@.len(),
            forall|p: int| 0 <= p < row ==> (#[trigger] transitions@[p])@.len() == alphabet@.len(),
    {
        if transitions[row].len() != alphabet.len() {
            proof {
                assert(first_bad_width(alphabet@, transitions@, row as int));
            }
            return Err(
                DescError::WrongColumnCount {
                    row,
                    found: transitions[row].len(),
                    expected: alphabet.len(),
                },
            );
        }
    }

    // Every transition entry must be a member of the 1-relative state set.
    for row in 0..nr
        invariant
            nr == transitions@.len(),
            widths_ok(alphabet@, transitions@),
            forall|p: int, q: int|
                0 <= p < row && 0 <= q < transitions@[p]@.len() ==> state_in_range(
                    #[trigger] transitions@[p]@[q],
                    transitions@.len() as int,
                ),
    {
        let width = transitions[row].len();
        for col in 0..width
            invariant
                nr == transitions@.len(),
                row < nr,
                width == transitions@[row as int]@.len(),
                widths_ok(alphabet@, transitions@),
                forall|p: int, q: int|
                    0 <= p < row && 0 <= q < transitions@[p]@.len() ==> state_in_range(
                        #[trigger] transitions@[p]@[q],
                        transitions@.len() as int,
                    ),
                forall|q: int|
                    0 <= q < col ==> state_in_range(
                        #[trigger] transitions@[row as int]@[q],
                        transitions@.len() as int,
                    ),
        {
            let state = transitions[row][col];
            if state < 1 || state > nr {
                proof {
                    assert(first_bad_cell(transitions@, row as int, col as int));
                }
                return Err(DescError::InvalidTransitionState { row, col, state });
            }
        }
    }

    // The start state must be a member of the 1-relative state set.
    if start < 1 || start > nr {
        return Err(DescError::InvalidStartState { start });
    }

    // Every accept state must be a member of the 1-relative state set.
    let na = accept.len();
    for j in 0..na
        invariant
            nr == transitions@.len(),
            na == accept@.len(),
            widths_ok(alphabet@, transitions@),
            cells_ok(transitions@),
            state_in_range(start, nr as int),
            forall|p: int|
                0 <= p < j ==> state_in_range(#[trigger] accept@[p], transitions@.len() as int),
    {
        let state = accept[j];
        if state < 1 || state > nr {
            proof {
                assert(first_bad_accept(accept@, transitions@, j as int));
            }
            return Err(DescError::InvalidAcceptState { state });
        }
    }

    Ok(())
}

impl DFA {
    /// Derives the state count from the transition-table row count.
    pub fn compute_states(&mut self)
        ensures
            final(self).n_states == old(self).transitions@.len(),
            final(self).alphabet == old(self).alphabet,
            final(self).start == old(self).start,
            final(self).accept == old(self).accept,
            final(self).transitions == old(self).transitions,
            final(self).states == old(self).states,
    {
        self.n_states = self.transitions.len();
    }

    /// Fills the explicit state list: the start state, then every accept
    /// state.  The list must then agree with the computed state count.
    pub fn save_states(&mut self) -> (r: bool)
        requires
            old(self).states@.len() + 1 + old(self).accept@.len() == old(self).n_states,
        ensures
            final(self).states@ == old(self).states@ + seq![old(self).start] + old(self).accept@,
            final(self).alphabet == old(self).alphabet,
            final(self).start == old(self).start,
            final(self).accept == old(self).accept,
            final(self).transitions == old(self).transitions,
            final(self).n_states == old(self).n_states,
            r == true,
    {
        let ghost pre = self.states@;
        self.states.push(self.start);
        let na = self.accept.len();
        for j in 0..na
            invariant
                na == self.accept@.len(),
                self.states@ == pre + seq![self.start] + self.accept@.subrange(0, j as int),
                self.alphabet == old(self).alphabet,
                self.start == old(self).start,
                self.accept == old(self).accept,
                self.transitions == old(self).transitions,
                self.n_states == old(self).n_states,
                pre == old(self).states@,
                pre.len() + 1 + na == self.n_states,
        {
            self.states.push(self.accept[j]);
            proof {
                assert((pre + seq![self.start] + self.accept@.subrange(0, j as int)).push(
                    self.accept@[j as int],
                ) =~= pre + seq![self.start] + self.accept@.subrange(0, j + 1));
            }
        }
        proof {
            assert(self.accept@.subrange(0, na as int) =~= self.accept@);
        }
        self.states.len() == self.n_states
    }

    /// The description defines something to work with: a non-empty alphabet,
    /// a non-empty transition table, and at least one accept state.
    pub fn check_defined(&self) -> (r: bool)
        ensures
            r == (self.alphabet@.len() > 0 && self.transitions@.len() > 0 && self.accept@.len()
                > 0),
    {
        !self.alphabet.is_empty() && !self.transitions.is_empty() && !self.accept.is_empty()
    }

    /// Both endpoints of every transition row belong to the explicit state
    /// list.  Rows are read as `(from, to)` pairs.
    pub fn check_tranistion_validity(&self) -> (r: bool)
        requires
            forall|t: int|
                0 <= t < self.transitions@.len() ==> (#[trigger] self.transitions@[t])@.len() >= 2,
        ensures
            r == (forall|t: int|
                0 <= t < self.transitions@.len() ==> self.states@.contains(
                    (#[trigger] self.transitions@[t])@[0],
                ) && self.states@.contains(self.transitions@[t]@[1])),
    {
        let nt = self.transitions.len();
        for t in 0..nt
            invariant
                nt == self.transitions@.len(),
                forall|p: int|
                    0 <= p < nt ==> (#[trigger] self.transitions@[p])@.len() >= 2,
                forall|p: int|
                    0 <= p < t ==> self.states@.contains((#[trigger] self.transitions@[p])@[0])
                        && self.states@.contains(self.transitions@[p]@[1]),
        {
            let row = &self.transitions[t];
            if !contains_usize(&self.states, row[0]) {
                return false;
            }
            if !contains_usize(&self.states, row[1]) {
                return false;
            }
        }
        true
    }

    /// The start state and every accept state belong to the explicit state
    /// list.
    pub fn check_start_accept_validity(&self) -> (r: bool)
        ensures
            r == (self.states@.contains(self.start) && forall|j: int|
                0 <= j < self.accept@.len() ==> self.states@.contains(#[trigger] self.accept@[j])),
    {
        if !contains_usize(&self.states, self.start) {
            return false;
        }
        let na = self.accept.len();
        for j in 0..na
            invariant
                na == self.accept@.len(),
                self.states@.contains(self.start),
                forall|p: int| 0 <= p < j ==> self.states@.contains(#[trigger] self.accept@[p]),
        {
            if !contains_usize(&self.states, self.accept[j]) {
                return false;
            }
        }
        true
    }

    /// Validates the description before simulation: row widths match the
    /// alphabet, and every transition entry, the start state and every
    /// accept state lies in the 1-relative state set.
    pub fn validate(&self) -> (r: Result<(), DescError>)
        ensures
            r is Ok <==> desc_ok(self.alphabet@, self.start, self.accept@, self.transitions@),
            forall|row: int|
                first_bad_width(self.alphabet@, self.transitions@, row) ==> r == Err::<
                    (),
                    DescError,
                >(
                    (DescError::WrongColumnCount {
                        row: row as usize,
                        found: self.transitions@[row]@.len() as usize,
                        expected: self.alphabet@.len() as usize,
                    }),
                ),
            widths_ok(self.alphabet@, self.transitions@) ==> forall|row: int, col: int|
                first_bad_cell(self.transitions@, row, col) ==> r == Err::<(), DescError>(
                    (DescError::InvalidTransitionState {
                        row: row as usize,
                        col: col as usize,
                        state: self.transitions@[row]@[col],
                    }),
                ),
            widths_ok(self.alphabet@, self.transitions@) && cells_ok(self.transitions@)
                && !state_in_range(self.start, self.transitions@.len() as int) ==> r == Err::<
                (),
                DescError,
            >((DescError::InvalidStartState { start: self.start })),
            widths_ok(self.alphabet@, self.transitions@) && cells_ok(self.transitions@)
                && state_in_range(self.start, self.transitions@.len() as int) ==> forall|j: int|
                first_bad_accept(self.accept@, self.transitions@, j) ==> r == Err::<(), DescError>(
                    (DescError::InvalidAcceptState { state: self.accept@[j] }),
                ),
    {
        validate_description(&self.alphabet, self.start, &self.accept, &self.transitions)
    }
}

} // verus!
