//! The NFA model and the whole compiler pipeline from a raw expression to it.

use vstd::prelude::*;
use crate::errors::RegexError;
use crate::guard::{guard_spec, check_reg_ex_chars};
use crate::parse::{split_top, alphabet_spec, parse_original, get_alphabet};
use crate::simplify::{simplify_spec, simplify_expressions};
use crate::builder::{
    rows_match, trans_spec, syms_spec, accept_raw_spec, contains_int, n_states_spec, prefix_len,
    lemma_prefix_le_total, get_states, get_transitions, get_transition_symbols, get_accept_states,
    lemma_trans_syms_parallel,
};
use crate::exprs::{views, total_len};

verus! {

/// A nondeterministic finite automaton built from a regular expression:
/// state 1 is the start state, edges are `(from, to)` pairs, and each edge
/// carries a parallel list of the symbols it consumes.
///
/// The construction deviates deliberately from the textbook one: a starred
/// group's repetition edge re-enters the global start state, not a private
/// loop state, so repetition and a fresh match share the same paths.
#[derive(Debug)]
pub struct NFA {
    /// The set of characters comprising the alphabet.
    pub alphabet: Vec<char>,
    /// State number (1-relative) of the start state.
    pub start: usize,
    /// Accept states (1-relative), sorted, without duplicates.
    pub accept: Vec<usize>,
    /// Edges, each a `(from, to)` pair of states.
    pub transitions: Vec<Vec<usize>>,
    /// For each edge, the symbols that move along it.
    pub transition_symbols: Vec<Vec<char>>,
    /// All states: exactly `1 ..= n`.
    pub states: Vec<usize>,
}

/// The fully simplified chains of a raw expression.
pub open spec fn chains_spec(s: Seq<char>) -> Seq<Seq<char>> {
    simplify_spec(split_top(s))
}

impl NFA {
    /// The shape the simulator and the exporter rely on: every edge is a
    /// `(from, to)` pair, and every edge has its label list.
    pub open spec fn wf(&self) -> bool {
        &&& self.transitions@.len() == self.transition_symbols@.len()
        &&& forall|i: int|
            0 <= i < self.transitions@.len() ==> (#[trigger] self.transitions@[i])@.len() == 2
    }

    /// Whether this automaton is exactly the one compiled from `s`.
    pub open spec fn is_compiled_from(&self, s: Seq<char>) -> bool {
        &&& self.alphabet@ == alphabet_spec(s)
        &&& self.start == 1
        &&& rows_match(self.transitions@, trans_spec(chains_spec(s)))
        &&& views(self.transition_symbols@) == syms_spec(chains_spec(s))
        &&& self.states@.len() == n_states_spec(chains_spec(s))
        &&& forall|j: int| 0 <= j < self.states@.len() ==> (#[trigger] self.states@[j]) == j + 1
        &&& forall|p: int, q: int| 0 <= p < q < self.accept@.len() ==> self.accept@[p]
            < self.accept@[q]
        &&& forall|y: int| contains_int(self.accept@, y) <==> accept_raw_spec(
            chains_spec(s),
        ).contains(y)
    }

    /// Compiles a raw regular expression into an NFA.  An expression the
    /// lexical guard rejects is answered with that rejection and nothing is
    /// built from it; an expression whose automaton would outgrow a machine
    /// word is answered with `TooManyStates`.
    pub fn from_regex(reg_ex: &Vec<char>) -> (r: Result<NFA, RegexError>)
        requires
            reg_ex@.len() >= 1,
        ensures
            guard_spec(reg_ex@) is Err ==> r == Err::<NFA, RegexError>(
                guard_spec(reg_ex@)->Err_0,
            ),
            r is Err <==> guard_spec(reg_ex@) is Err || total_len(chains_spec(reg_ex@)) + 2
                > usize::MAX,
            guard_spec(reg_ex@) is Ok && total_len(chains_spec(reg_ex@)) + 2 > usize::MAX ==> r
                == Err::<NFA, RegexError>(RegexError::TooManyStates),
            r is Ok ==> r->Ok_0.is_compiled_from(reg_ex@) && r->Ok_0.wf(),
    {
        let ghost s = reg_ex@;
        match check_reg_ex_chars(reg_ex) {
            Err(e) => Err(e),
            Ok(()) => {
                let alphabet = get_alphabet(reg_ex);
                let parsed = parse_original(reg_ex);
                let expressions = simplify_expressions(&parsed);
                let ghost esv = views(expressions@);
                proof {
                    assert(esv == chains_spec(s));
                }

                // The state counter must fit in a machine word: one state per
                // symbol character, plus the start state and one spare.
                let mut total: usize = 0;
                let nk = expressions.len();
                for k in 0..nk
                    invariant
                        nk == expressions@.len(),
                        esv == views(expressions@),
                        esv == chains_spec(reg_ex@),
                        guard_spec(reg_ex@) is Ok,
                        total as int == prefix_len(esv, k as int),
                        total + 2 <= usize::MAX,
                {
                    let e_len = expressions[k].len();
                    proof {
                        assert(esv[k as int] == expressions@[k as int]@);
                    }
                    if e_len > usize::MAX - 2 - total {
                        proof {
                            lemma_prefix_le_total(esv, k as int + 1);
                        }
                        return Err(RegexError::TooManyStates);
                    }
                    total = total + e_len;
                }
                proof {
                    lemma_prefix_le_total(esv, nk as int);
                    crate::builder::lemma_prefix_total(esv);
                }

                let states = get_states(&expressions);
                let transitions = get_transitions(&expressions);
                let accept_states = get_accept_states(&expressions);
                let transition_symbols = get_transition_symbols(&expressions);
                proof {
                    lemma_trans_syms_parallel(esv, esv.len() as int);
                }

                Ok(
                    NFA {
                        alphabet,
                        start: 1,
                        accept: accept_states,
                        transitions,
                        transition_symbols,
                        states,
                    },
                )
            },
        }
    }
}

} // verus!
