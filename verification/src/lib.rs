//! Finite-automaton toolkit: a compiler from a restricted regular-expression
//! language to a nondeterministic finite automaton (NFA), validators for
//! pre-built deterministic-automaton (DFA) and pushdown-automaton (PDA)
//! descriptions, a symbol-by-symbol simulator, and a directed-graph exporter.

pub mod builder;
pub mod chain;
pub mod dfa;
pub mod errors;
pub mod exprs;
pub mod graph;
pub mod guard;
pub mod machine;
pub mod nfa;
pub mod parse;
pub mod pda;
pub mod sim;
pub mod simplify;
pub mod text;
