//! Error kinds reported by the expression guard, the description validators,
//! and the simulator.

use vstd::prelude::*;

verus! {

/// Why a raw regular-expression string was rejected before any parsing began.
#[derive(Clone, Copy, Debug, PartialEq, Eq, Structural)]
pub enum RegexError {
    /// The first character is `)`, `|`, `*`, or a space.
    BadFirstChar,
    /// A character outside the accepted set (letters, digits, `*|() `) occurs.
    BadChar,
    /// `(` or `|` is immediately followed by `)`, `|`, or `*`.
    BadAdjacentPair,
    /// `*` is immediately followed by `*`.
    DoubleStar,
    /// The expression ends with `(` or `|`.
    BadEndChar,
    /// The parentheses do not balance.
    UnbalancedParens,
    /// The compiled automaton would need more states than a machine word holds.
    TooManyStates,
}

/// Why a pre-built automaton description was rejected before simulation.
#[derive(Clone, Copy, Debug, PartialEq, Eq, Structural)]
pub enum DescError {
    /// A transition row is not as wide as the alphabet.
    WrongColumnCount { row: usize, found: usize, expected: usize },
    /// A transition entry names a state beyond the state count.
    InvalidTransitionState { row: usize, col: usize, state: usize },
    /// The start state is beyond the state count.
    InvalidStartState { start: usize },
    /// An accept state is beyond the state count.
    InvalidAcceptState { state: usize },
}

} // verus!
