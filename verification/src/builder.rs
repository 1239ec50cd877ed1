//! The automaton builder: walks a simplified chain sequence once, assigning
//! state numbers, emitting transition edges with their symbol labels, and
//! collecting the accept states.

use vstd::prelude::*;
use crate::exprs::{views, total_len};
use crate::simplify::is_star_chain;

verus! {

/// Characters that never allocate a state: the operators, parentheses, and
/// space.
pub open spec fn is_meta(c: char) -> bool {
    c == '(' || c == ')' || c == '|' || c == '*' || c == ' '
}

/// How many symbol characters stand among the first `i` characters of a chain.
pub open spec fn sym_count(e: Seq<char>, i: int) -> int
    decreases i,
{
    if i <= 0 {
        0
    } else {
        sym_count(e, i - 1) + if is_meta(e[i - 1]) {
            0int
        } else {
            1int
        }
    }
}

/// How many symbol characters a whole chain holds.
pub open spec fn chain_sym_count(e: Seq<char>) -> int {
    sym_count(e, e.len() as int)
}

/// How many symbol characters stand in the first `k` chains.
pub open spec fn total_sym_count(es: Seq<Seq<char>>, k: int) -> int
    decreases k,
{
    if k <= 0 {
        0
    } else {
        total_sym_count(es, k - 1) + chain_sym_count(es[k - 1])
    }
}

/// The number of states of the built automaton: the start state plus one
/// state per symbol character.
pub open spec fn n_states_spec(es: Seq<Seq<char>>) -> int {
    1 + total_sym_count(es, es.len() as int)
}

/// Total characters in the first `k` chains.
pub open spec fn prefix_len(es: Seq<Seq<char>>, k: int) -> int
    decreases k,
{
    if k <= 0 {
        0
    } else {
        prefix_len(es, k - 1) + es[k - 1].len()
    }
}

proof fn lemma_prefix_drop_last(es: Seq<Seq<char>>, k: int)
    requires
        k <= es.len() - 1,
    ensures
        prefix_len(es.drop_last(), k) == prefix_len(es, k),
    decreases k,
{
    if k > 0 {
        lemma_prefix_drop_last(es, k - 1);
    }
}

pub proof fn lemma_prefix_total(es: Seq<Seq<char>>)
    ensures
        prefix_len(es, es.len() as int) == total_len(es),
    decreases es.len(),
{
    if es.len() > 0 {
        lemma_prefix_total(es.drop_last());
        lemma_prefix_drop_last(es, es.len() - 1);
    }
}

proof fn lemma_prefix_mono(es: Seq<Seq<char>>, k: int, j: int)
    requires
        0 <= k <= j,
    ensures
        prefix_len(es, k) <= prefix_len(es, j),
    decreases j,
{
    if k < j {
        lemma_prefix_mono(es, k, j - 1);
    }
}

/// The characters of any chain prefix are among the characters of the whole
/// chain sequence.
pub proof fn lemma_prefix_le_total(es: Seq<Seq<char>>, k: int)
    requires
        0 <= k <= es.len(),
    ensures
        prefix_len(es, k) <= total_len(es),
        prefix_len(es, k) >= 0,
{
    lemma_prefix_mono(es, 0, k);
    lemma_prefix_mono(es, k, es.len() as int);
    lemma_prefix_total(es);
}

proof fn lemma_sym_count_le(e: Seq<char>, i: int)
    requires
        0 <= i,
    ensures
        0 <= sym_count(e, i) <= i,
    decreases i,
{
    if i > 0 {
        lemma_sym_count_le(e, i - 1);
    }
}

proof fn lemma_total_sym_le_prefix(es: Seq<Seq<char>>, k: int)
    requires
        0 <= k,
    ensures
        0 <= total_sym_count(es, k) <= prefix_len(es, k),
    decreases k,
{
    if k > 0 {
        lemma_total_sym_le_prefix(es, k - 1);
        lemma_sym_count_le(es[k - 1], es[k - 1].len() as int);
    }
}

/// Assigns the state numbers: state 1 is the start state, and every symbol
/// character of every chain allocates the next number in order.
pub fn get_states(expressions: &Vec<Vec<char>>) -> (r: Vec<usize>)
    requires
        total_len(views(expressions@)) + 2 <= usize::MAX,
    ensures
        r@.len() == n_states_spec(views(expressions@)),
        forall|j: int| 0 <= j < r@.len() ==> r@[j] == j + 1,
{
    let ghost esv = views(expressions@);
    let mut states: Vec<usize> = Vec::new();
    let mut n: usize = 1;
    states.push(1);
    let nk = expressions.len();

    for k in 0..nk
        invariant
            nk == expressions@.len(),
            esv == views(expressions@),
            total_len(esv) + 2 <= usize::MAX,
            n as int == 1 + total_sym_count(esv, k as int),
            n as int <= 1 + prefix_len(esv, k as int),
            states@.len() == n,
            forall|j: int| 0 <= j < states@.len() ==> states@[j] == j + 1,
    {
        let e = &expressions[k];
        proof {
            assert(esv[k as int] == e@);
        }
        let m = e.len();
        for i in 0..m
            invariant
                m == e@.len(),
                esv == views(expressions@),
                nk == esv.len(),
                k < nk,
                e@ == esv[k as int],
                total_len(esv) + 2 <= usize::MAX,
                n as int == 1 + total_sym_count(esv, k as int) + sym_count(e@, i as int),
                n as int <= 1 + prefix_len(esv, k as int) + i,
                states@.len() == n,
                forall|j: int| 0 <= j < states@.len() ==> states@[j] == j + 1,
        {
            let c = e[i];
            if c == '(' || c == ')' || c == '|' || c == '*' || c == ' ' {
            } else {
                proof {
                    lemma_prefix_le_total(esv, k as int + 1);
                }
                n = n + 1;
                states.push(n);
            }
        }
    }
    proof {
        assert(n_states_spec(esv) == 1 + total_sym_count(esv, nk as int));
    }
    states
}


/// One transition row and a spec edge agree: a two-element row `(from, to)`.
pub open spec fn row_matches(row: Vec<usize>, t: (int, int)) -> bool {
    row@.len() == 2 && row@[0] as int == t.0 && row@[1] as int == t.1
}

/// The emitted transition rows and the spec edges agree pairwise.
pub open spec fn rows_match(rv: Seq<Vec<usize>>, ts: Seq<(int, int)>) -> bool {
    rv.len() == ts.len() && forall|j: int|
        0 <= j < rv.len() ==> row_matches(#[trigger] rv[j], ts[j])
}

proof fn lemma_rows_match_push(rv: Seq<Vec<usize>>, ts: Seq<(int, int)>, row: Vec<usize>, t: (
    int,
    int,
))
    requires
        rows_match(rv, ts),
        row_matches(row, t),
    ensures
        rows_match(rv.push(row), ts.push(t)),
{
    assert forall|j: int| 0 <= j < rv.push(row).len() implies row_matches(
        #[trigger] rv.push(row)[j],
        ts.push(t)[j],
    ) by {
        if j < rv.len() {
            assert(rv.push(row)[j] == rv[j]);
            assert(ts.push(t)[j] == ts[j]);
        }
    }
}

/// The edges of a plain chain after its first `i` characters, entered with
/// state counter `n0`: the chain is entered from the start state, each symbol
/// character allocates a new destination, and `*` emits a self-loop on the
/// state allocated last.
pub open spec fn plain_upto(e: Seq<char>, i: int, n0: int) -> (Seq<(int, int)>, int)
    decreases i,
{
    if i <= 1 {
        (seq![(1int, n0)], n0 + 1)
    } else {
        let prev = plain_upto(e, i - 1, n0);
        let c = e[i - 1];
        if c == '*' {
            (prev.0.push((prev.1 - 1, prev.1 - 1)), prev.1)
        } else {
            (prev.0.push((prev.1 - 1, prev.1)), prev.1 + 1)
        }
    }
}

/// The edges of a starred group after its first `i` characters, entered with
/// state counter `n0`: the group is entered from the start state, interior
/// characters behave as in a plain chain (with nested groups tracked by
/// depth), and the closing `*` emits an edge back to the start state.
pub open spec fn star_upto(e: Seq<char>, i: int, n0: int) -> (Seq<(int, int)>, int, int)
    decreases i,
{
    if i <= 2 {
        (seq![(1int, n0)], n0 + 1, 1int)
    } else {
        let prev = star_upto(e, i - 1, n0);
        let c = e[i - 1];
        let n = prev.1;
        let d = prev.2;
        if d == 0 && c == '*' {
            (prev.0.push((n - 1, 1int)), n, d)
        } else if c == '(' {
            (prev.0, n, d + 1)
        } else if c == ')' {
            (
                prev.0,
                n,
                if d > 0 {
                    d - 1
                } else {
                    0int
                },
            )
        } else if d > 0 && c == '*' {
            (prev.0.push((n - 1, n - 1)), n, d)
        } else {
            (prev.0.push((n - 1, n)), n + 1, d)
        }
    }
}

/// The edges one chain emits, entered with state counter `n0`, and the
/// counter left for the next chain.
pub open spec fn chain_trans(e: Seq<char>, n0: int) -> (Seq<(int, int)>, int) {
    if e.len() == 0 {
        (Seq::<(int, int)>::empty(), n0)
    } else if is_star_chain(e) {
        let st = star_upto(e, e.len() as int, n0);
        (st.0, st.1)
    } else {
        plain_upto(e, e.len() as int, n0)
    }
}

/// The edges of the first `k` chains, with the state counter threaded from
/// chain to chain, starting at 2.
pub open spec fn trans_upto(es: Seq<Seq<char>>, k: int) -> (Seq<(int, int)>, int)
    decreases k,
{
    if k <= 0 {
        (Seq::<(int, int)>::empty(), 2int)
    } else {
        let prev = trans_upto(es, k - 1);
        let cur = chain_trans(es[k - 1], prev.1);
        (prev.0 + cur.0, cur.1)
    }
}

/// All edges of the built automaton, in emission order.
pub open spec fn trans_spec(es: Seq<Seq<char>>) -> Seq<(int, int)> {
    trans_upto(es, es.len() as int).0
}

/// Emits the transition edges: each chain is entered from the start state;
/// each symbol character moves to a freshly allocated state; `*` emits a
/// self-loop on the last allocated state; and the `*` closing a starred group
/// emits an edge back to the start state.
pub fn get_transitions(expressions: &Vec<Vec<char>>) -> (r: Vec<Vec<usize>>)
    requires
        total_len(views(expressions@)) + 2 <= usize::MAX,
    ensures
        rows_match(r@, trans_spec(views(expressions@))),
{
    let ghost esv = views(expressions@);
    let mut transitions: Vec<Vec<usize>> = Vec::new();
    let mut n: usize = 2;
    let nk = expressions.len();

    for k in 0..nk
        invariant
            nk == expressions@.len(),
            esv == views(expressions@),
            total_len(esv) + 2 <= usize::MAX,
            rows_match(transitions@, trans_upto(esv, k as int).0),
            n as int == trans_upto(esv, k as int).1,
            n as int <= 2 + prefix_len(esv, k as int),
            n >= 2,
    {
        let e = &expressions[k];
        proof {
            assert(esv[k as int] == e@);
            lemma_prefix_le_total(esv, k as int);
            lemma_prefix_le_total(esv, k as int + 1);
        }
        let ghost n0 = n as int;
        let m = e.len();
        if m == 0 {
            proof {
                assert(trans_upto(esv, k as int).0 + chain_trans(e@, n0).0 =~= trans_upto(
                    esv,
                    k as int,
                ).0);
            }
        } else if m >= 2 && e[0] == '(' && e[m - 1] == '*' && e[m - 2] == ')' {
            // A starred group: entry edge from the start state, then the scan.
            let mut row: Vec<usize> = Vec::new();
            row.push(1);
            row.push(n);
            proof {
                lemma_rows_match_push(
                    transitions@,
                    trans_upto(esv, k as int).0,
                    row,
                    (1int, n0),
                );
                assert(trans_upto(esv, k as int).0.push((1int, n0)) =~= trans_upto(esv, k as int).0
                    + star_upto(e@, 2, n0).0);
            }
            transitions.push(row);
            n = n + 1;
            let mut depth: usize = 1;
            for i in 2..m
                invariant
                    m == e@.len(),
                    esv == views(expressions@),
                    nk == esv.len(),
                    k < nk,
                    e@ == esv[k as int],
                    is_star_chain(e@),
                    total_len(esv) + 2 <= usize::MAX,
                    n0 == trans_upto(esv, k as int).1,
                    n0 >= 2,
                    n0 <= 2 + prefix_len(esv, k as int),
                    rows_match(transitions@, trans_upto(esv, k as int).0 + star_upto(
                        e@,
                        i as int,
                        n0,
                    ).0),
                    n as int == star_upto(e@, i as int, n0).1,
                    depth as int == star_upto(e@, i as int, n0).2,
                    depth <= i,
                    n as int <= n0 + i - 1,
                    n >= 2,
            {
                let c = e[i];
                let ghost st = star_upto(e@, i as int, n0);
                if depth == 0 && c == '*' {
                    let mut row: Vec<usize> = Vec::new();
                    row.push(n - 1);
                    row.push(1);
                    proof {
                        lemma_rows_match_push(
                            transitions@,
                            trans_upto(esv, k as int).0 + st.0,
                            row,
                            (n as int - 1, 1int),
                        );
                        assert((trans_upto(esv, k as int).0 + st.0).push((n as int - 1, 1int))
                            =~= trans_upto(esv, k as int).0 + star_upto(e@, i as int + 1, n0).0);
                    }
                    transitions.push(row);
                } else if c == '(' {
                    depth = depth + 1;
                } else if c == ')' {
                    if depth > 0 {
                        depth = depth - 1;
                    }
                } else if depth > 0 && c == '*' {
                    let mut row: Vec<usize> = Vec::new();
                    row.push(n - 1);
                    row.push(n - 1);
                    proof {
                        lemma_rows_match_push(
                            transitions@,
                            trans_upto(esv, k as int).0 + st.0,
                            row,
                            (n as int - 1, n as int - 1),
                        );
                        assert((trans_upto(esv, k as int).0 + st.0).push(
                            (n as int - 1, n as int - 1),
                        ) =~= trans_upto(esv, k as int).0 + star_upto(e@, i as int + 1, n0).0);
                    }
                    transitions.push(row);
                } else {
                    proof {
                        lemma_prefix_le_total(esv, k as int + 1);
                    }
                    let mut row: Vec<usize> = Vec::new();
                    row.push(n - 1);
                    row.push(n);
                    proof {
                        lemma_rows_match_push(
                            transitions@,
                            trans_upto(esv, k as int).0 + st.0,
                            row,
                            (n as int - 1, n as int),
                        );
                        assert((trans_upto(esv, k as int).0 + st.0).push((n as int - 1, n as int))
                            =~= trans_upto(esv, k as int).0 + star_upto(e@, i as int + 1, n0).0);
                    }
                    transitions.push(row);
                    n = n + 1;
                }
            }
            proof {
                assert(chain_trans(e@, n0).0 == star_upto(e@, m as int, n0).0);
            }
        } else {
            // A plain chain: entry edge from the start state, then the tail.
            let mut row: Vec<usize> = Vec::new();
            row.push(1);
            row.push(n);
            proof {
                lemma_rows_match_push(
                    transitions@,
                    trans_upto(esv, k as int).0,
                    row,
                    (1int, n0),
                );
                assert(trans_upto(esv, k as int).0.push((1int, n0)) =~= trans_upto(esv, k as int).0
                    + plain_upto(e@, 1, n0).0);
            }
            transitions.push(row);
            n = n + 1;
            for i in 1..m
                invariant
                    m == e@.len(),
                    esv == views(expressions@),
                    nk == esv.len(),
                    k < nk,
                    e@ == esv[k as int],
                    m >= 1,
                    !is_star_chain(e@),
                    total_len(esv) + 2 <= usize::MAX,
                    n0 == trans_upto(esv, k as int).1,
                    n0 >= 2,
                    n0 <= 2 + prefix_len(esv, k as int),
                    rows_match(transitions@, trans_upto(esv, k as int).0 + plain_upto(
                        e@,
                        i as int,
                        n0,
                    ).0),
                    n as int == plain_upto(e@, i as int, n0).1,
                    n as int <= n0 + i,
                    n >= 2,
            {
                let c = e[i];
                let ghost st = plain_upto(e@, i as int, n0);
                if c == '*' {
                    let mut row: Vec<usize> = Vec::new();
                    row.push(n - 1);
                    row.push(n - 1);
                    proof {
                        lemma_rows_match_push(
                            transitions@,
                            trans_upto(esv, k as int).0 + st.0,
                            row,
                            (n as int - 1, n as int - 1),
                        );
                        assert((trans_upto(esv, k as int).0 + st.0).push(
                            (n as int - 1, n as int - 1),
                        ) =~= trans_upto(esv, k as int).0 + plain_upto(e@, i as int + 1, n0).0);
                    }
                    transitions.push(row);
                } else {
                    proof {
                        lemma_prefix_le_total(esv, k as int + 1);
                    }
                    let mut row: Vec<usize> = Vec::new();
                    row.push(n - 1);
                    row.push(n);
                    proof {
                        lemma_rows_match_push(
                            transitions@,
                            trans_upto(esv, k as int).0 + st.0,
                            row,
                            (n as int - 1, n as int),
                        );
                        assert((trans_upto(esv, k as int).0 + st.0).push((n as int - 1, n as int))
                            =~= trans_upto(esv, k as int).0 + plain_upto(e@, i as int + 1, n0).0);
                    }
                    transitions.push(row);
                    n = n + 1;
                }
            }
            proof {
                assert(chain_trans(e@, n0) == plain_upto(e@, m as int, n0));
            }
        }
    }
    transitions
}


/// The leading symbol of each of the first `k` chains: for a starred group
/// its second character, else its first.  Empty chains contribute nothing.
pub open spec fn begin_upto(es: Seq<Seq<char>>, k: int) -> Seq<char>
    decreases k,
{
    if k <= 0 {
        Seq::<char>::empty()
    } else {
        let prev = begin_upto(es, k - 1);
        let e = es[k - 1];
        if e.len() == 0 {
            prev
        } else if is_star_chain(e) {
            prev.push(e[1])
        } else {
            prev.push(e[0])
        }
    }
}

/// The leading symbols of all chains, in order.
pub open spec fn begin_chars_spec(es: Seq<Seq<char>>) -> Seq<char> {
    begin_upto(es, es.len() as int)
}

/// The symbol labels of a plain chain's edges after its first `i` characters:
/// one label per edge; a `*` labels its self-loop with the preceding
/// character.
pub open spec fn sym_plain_upto(e: Seq<char>, i: int) -> Seq<Seq<char>>
    decreases i,
{
    if i <= 1 {
        seq![seq![e[0]]]
    } else {
        let prev = sym_plain_upto(e, i - 1);
        let c = e[i - 1];
        if c == '*' {
            prev.push(seq![e[i - 2]])
        } else {
            prev.push(seq![c])
        }
    }
}

/// The symbol labels of a starred group's edges after its first `i`
/// characters.  The `*` that closes the group labels the edge back to the
/// start state with the leading symbols of all chains, so that the group can
/// be re-entered; every other edge carries one symbol.
pub open spec fn sym_star_upto(e: Seq<char>, i: int, begin: Seq<char>) -> (Seq<Seq<char>>, int)
    decreases i,
{
    if i <= 2 {
        (seq![seq![e[1]]], 0int)
    } else {
        let prev = sym_star_upto(e, i - 1, begin);
        let c = e[i - 1];
        let d = prev.1;
        if d == 0 && c == '*' {
            (prev.0.push(begin), d)
        } else if c == '(' {
            (prev.0, d + 1)
        } else if c == ')' {
            (
                prev.0,
                if d > 0 {
                    d - 1
                } else {
                    0int
                },
            )
        } else if d > 0 && c == '*' {
            (prev.0.push(seq![e[i - 2]]), d)
        } else {
            (prev.0.push(seq![c]), d)
        }
    }
}

/// The symbol labels one chain's edges carry.
pub open spec fn chain_syms(e: Seq<char>, begin: Seq<char>) -> Seq<Seq<char>> {
    if e.len() == 0 {
        Seq::<Seq<char>>::empty()
    } else if is_star_chain(e) {
        sym_star_upto(e, e.len() as int, begin).0
    } else {
        sym_plain_upto(e, e.len() as int)
    }
}

/// The symbol labels of the first `k` chains' edges, concatenated.
pub open spec fn syms_upto(es: Seq<Seq<char>>, k: int) -> Seq<Seq<char>>
    decreases k,
{
    if k <= 0 {
        Seq::<Seq<char>>::empty()
    } else {
        syms_upto(es, k - 1) + chain_syms(es[k - 1], begin_chars_spec(es))
    }
}

/// The symbol labels of all edges, parallel to the emitted edge sequence.
pub open spec fn syms_spec(es: Seq<Seq<char>>) -> Seq<Seq<char>> {
    syms_upto(es, es.len() as int)
}

/// Emits the symbol labels of the edges, parallel to `get_transitions`: one
/// symbol per edge, except that the edge a starred group emits back to the
/// start state carries the leading symbols of all chains.
pub fn get_transition_symbols(expressions: &Vec<Vec<char>>) -> (r: Vec<Vec<char>>)
    ensures
        views(r@) == syms_spec(views(expressions@)),
{
    let ghost esv = views(expressions@);
    let nk = expressions.len();

    // First pass: the leading symbol of every chain.
    let mut begin_chars: Vec<char> = Vec::new();
    for k in 0..nk
        invariant
            nk == expressions@.len(),
            esv == views(expressions@),
            begin_chars@ == begin_upto(esv, k as int),
    {
        let e = &expressions[k];
        proof {
            assert(esv[k as int] == e@);
        }
        let m = e.len();
        if m == 0 {
        } else if m >= 2 && e[0] == '(' && e[m - 1] == '*' && e[m - 2] == ')' {
            begin_chars.push(e[1]);
        } else {
            begin_chars.push(e[0]);
        }
    }
    let ghost bg = begin_chars@;
    proof {
        assert(bg == begin_chars_spec(esv));
    }

    // Second pass: one label list per emitted edge.
    let mut transition_symbols: Vec<Vec<char>> = Vec::new();
    for k in 0..nk
        invariant
            nk == expressions@.len(),
            esv == views(expressions@),
            bg == begin_chars_spec(esv),
            begin_chars@ == bg,
            views(transition_symbols@) == syms_upto(esv, k as int),
    {
        let e = &expressions[k];
        proof {
            assert(esv[k as int] == e@);
        }
        let m = e.len();
        if m == 0 {
            proof {
                assert(syms_upto(esv, k as int) + chain_syms(e@, bg) =~= syms_upto(esv, k as int));
            }
        } else if m >= 2 && e[0] == '(' && e[m - 1] == '*' && e[m - 2] == ')' {
            let mut row: Vec<char> = Vec::new();
            row.push(e[1]);
            proof {
                crate::exprs::lemma_views_push(transition_symbols@, row);
                assert(row@ =~= seq![e@[1]]);
                assert(syms_upto(esv, k as int).push(row@) =~= syms_upto(esv, k as int)
                    + sym_star_upto(e@, 2, bg).0);
            }
            transition_symbols.push(row);
            let mut depth: usize = 0;
            for i in 2..m
                invariant
                    m == e@.len(),
                    esv == views(expressions@),
                    nk == esv.len(),
                    k < nk,
                    e@ == esv[k as int],
                    is_star_chain(e@),
                    bg == begin_chars_spec(esv),
                    begin_chars@ == bg,
                    views(transition_symbols@) == syms_upto(esv, k as int) + sym_star_upto(
                        e@,
                        i as int,
                        bg,
                    ).0,
                    depth as int == sym_star_upto(e@, i as int, bg).1,
                    depth <= i,
            {
                let c = e[i];
                let ghost st = sym_star_upto(e@, i as int, bg);
                if depth == 0 && c == '*' {
                    let row = crate::exprs::copy_chain(&begin_chars);
                    proof {
                        crate::exprs::lemma_views_push(transition_symbols@, row);
                        assert((syms_upto(esv, k as int) + st.0).push(bg) =~= syms_upto(
                            esv,
                            k as int,
                        ) + sym_star_upto(e@, i as int + 1, bg).0);
                    }
                    transition_symbols.push(row);
                } else if c == '(' {
                    depth = depth + 1;
                } else if c == ')' {
                    if depth > 0 {
                        depth = depth - 1;
                    }
                } else if depth > 0 && c == '*' {
                    let mut row: Vec<char> = Vec::new();
                    row.push(e[i - 1]);
                    proof {
                        crate::exprs::lemma_views_push(transition_symbols@, row);
                        assert(row@ =~= seq![e@[i as int - 1]]);
                        assert((syms_upto(esv, k as int) + st.0).push(row@) =~= syms_upto(
                            esv,
                            k as int,
                        ) + sym_star_upto(e@, i as int + 1, bg).0);
                    }
                    transition_symbols.push(row);
                } else {
                    let mut row: Vec<char> = Vec::new();
                    row.push(c);
                    proof {
                        crate::exprs::lemma_views_push(transition_symbols@, row);
                        assert(row@ =~= seq![e@[i as int]]);
                        assert((syms_upto(esv, k as int) + st.0).push(row@) =~= syms_upto(
                            esv,
                            k as int,
                        ) + sym_star_upto(e@, i as int + 1, bg).0);
                    }
                    transition_symbols.push(row);
                }
            }
            proof {
                assert(chain_syms(e@, bg) == sym_star_upto(e@, m as int, bg).0);
            }
        } else {
            let mut row: Vec<char> = Vec::new();
            row.push(e[0]);
            proof {
                crate::exprs::lemma_views_push(transition_symbols@, row);
                assert(row@ =~= seq![e@[0]]);
                assert(syms_upto(esv, k as int).push(row@) =~= syms_upto(esv, k as int)
                    + sym_plain_upto(e@, 1));
            }
            transition_symbols.push(row);
            for i in 1..m
                invariant
                    m == e@.len(),
                    esv == views(expressions@),
                    nk == esv.len(),
                    k < nk,
                    e@ == esv[k as int],
                    m >= 1,
                    !is_star_chain(e@),
                    bg == begin_chars_spec(esv),
                    begin_chars@ == bg,
                    views(transition_symbols@) == syms_upto(esv, k as int) + sym_plain_upto(
                        e@,
                        i as int,
                    ),
            {
                let c = e[i];
                let ghost st = sym_plain_upto(e@, i as int);
                if c == '*' {
                    let mut row: Vec<char> = Vec::new();
                    row.push(e[i - 1]);
                    proof {
                        crate::exprs::lemma_views_push(transition_symbols@, row);
                        assert(row@ =~= seq![e@[i as int - 1]]);
                        assert((syms_upto(esv, k as int) + st).push(row@) =~= syms_upto(
                            esv,
                            k as int,
                        ) + sym_plain_upto(e@, i as int + 1));
                    }
                    transition_symbols.push(row);
                } else {
                    let mut row: Vec<char> = Vec::new();
                    row.push(c);
                    proof {
                        crate::exprs::lemma_views_push(transition_symbols@, row);
                        assert(row@ =~= seq![e@[i as int]]);
                        assert((syms_upto(esv, k as int) + st).push(row@) =~= syms_upto(
                            esv,
                            k as int,
                        ) + sym_plain_upto(e@, i as int + 1));
                    }
                    transition_symbols.push(row);
                }
            }
            proof {
                assert(chain_syms(e@, bg) == sym_plain_upto(e@, m as int));
            }
        }
    }
    transition_symbols
}


/// The accept states of the first `k` chains and the counter after them: the
/// last state a chain allocates accepts, and a starred group additionally
/// marks the start state accepting.
pub open spec fn accept_upto(es: Seq<Seq<char>>, k: int) -> (Seq<int>, int)
    decreases k,
{
    if k <= 0 {
        (Seq::<int>::empty(), 2int)
    } else {
        let prev = accept_upto(es, k - 1);
        let e = es[k - 1];
        if e.len() == 0 {
            prev
        } else if is_star_chain(e) {
            let n2 = prev.1 + chain_sym_count(e);
            (prev.0 + seq![1int, n2 - 1], n2)
        } else {
            let n2 = prev.1 + chain_sym_count(e);
            (prev.0.push(n2 - 1), n2)
        }
    }
}

/// The accept states of all chains, in emission order, before sorting.
pub open spec fn accept_raw_spec(es: Seq<Seq<char>>) -> Seq<int> {
    accept_upto(es, es.len() as int).0
}

/// Whether a vector of state numbers holds the value `y`.
pub open spec fn contains_int(rv: Seq<usize>, y: int) -> bool {
    exists|j: int| 0 <= j < rv.len() && (#[trigger] rv[j]) as int == y
}

/// Sorted copy of a state list with duplicates removed.
fn sort_unique(v: &Vec<usize>) -> (r: Vec<usize>)
    ensures
        forall|p: int, q: int| 0 <= p < q < r@.len() ==> r@[p] < r@[q],
        forall|x: usize| r@.contains(x) <==> v@.contains(x),
{
    let mut out: Vec<usize> = Vec::new();
    let n = v.len();
    for i in 0..n
        invariant
            n == v@.len(),
            forall|p: int, q: int| 0 <= p < q < out@.len() ==> out@[p] < out@[q],
            forall|x: usize| out@.contains(x) <==> v@.subrange(0, i as int).contains(x),
    {
        let x = v[i];
        let ghost pre = out@;
        let mut j: usize = 0;
        while j < out.len() && out[j] < x
            invariant
                j <= out@.len(),
                out@ == pre,
                forall|t: int| 0 <= t < j ==> out@[t] < x,
            decreases out@.len() - j,
        {
            j = j + 1;
        }
        if j < out.len() && out[j] == x {
            // already present
            proof {
                assert(out@[j as int] == x);
                assert(out@.contains(x));
                assert forall|y: usize| out@.contains(y) <==> v@.subrange(
                    0,
                    i as int + 1,
                ).contains(y) by {
                    assert(v@.subrange(0, i as int + 1).drop_last() =~= v@.subrange(0, i as int));
                    if v@.subrange(0, i as int + 1).contains(y) {
                        let t = choose|t: int|
                            0 <= t < i + 1 && (#[trigger] v@.subrange(0, i as int + 1)[t]) == y;
                        if t < i {
                            assert(v@.subrange(0, i as int)[t] == y);
                        }
                    } else {
                        if out@.contains(y) {
                            assert(v@.subrange(0, i as int).contains(y));
                            let t = choose|t: int| 0 <= t < i && (#[trigger] v@.subrange(0, i as int)[t]) == y;
                            assert(v@.subrange(0, i as int + 1)[t] == y);
                        }
                    }
                }
            }
        } else {
            proof {
                assert(forall|t: int| 0 <= t < j ==> out@[t] < x);
                assert(j < out@.len() ==> out@[j as int] > x);
            }
            out.insert(j, x);
            proof {
                let newv = pre.insert(j as int, x);
                assert(out@ == newv);
                assert forall|p: int, q: int| 0 <= p < q < newv.len() implies newv[p] < newv[q] by {
                    if p < j && q < j {
                    } else if p < j && q == j {
                    } else if p < j && q > j {
                        assert(newv[q] == pre[q - 1]);
                    } else if p == j {
                        assert(newv[q] == pre[q - 1]);
                        assert(pre[q - 1] >= pre[j as int]);
                    } else {
                        assert(newv[p] == pre[p - 1]);
                        assert(newv[q] == pre[q - 1]);
                    }
                }
                assert forall|y: usize| out@.contains(y) <==> v@.subrange(
                    0,
                    i as int + 1,
                ).contains(y) by {
                    assert(v@.subrange(0, i as int + 1).drop_last() =~= v@.subrange(0, i as int));
                    assert(v@.subrange(0, i as int + 1).last() == x);
                    if out@.contains(y) {
                        let t = choose|t: int| 0 <= t < newv.len() && newv[t] == y;
                        if t == j {
                            assert(y == x);
                            assert(v@.subrange(0, i as int + 1)[i as int] == x);
                        } else if t < j {
                            assert(pre[t] == y);
                            assert(pre.contains(y));
                            assert(v@.subrange(0, i as int).contains(y));
                            let u = choose|u: int| 0 <= u < i && (#[trigger] v@.subrange(0, i as int)[u]) == y;
                            assert(v@.subrange(0, i as int + 1)[u] == y);
                        } else {
                            assert(pre[t - 1] == y);
                            assert(pre.contains(y));
                            assert(v@.subrange(0, i as int).contains(y));
                            let u = choose|u: int| 0 <= u < i && (#[trigger] v@.subrange(0, i as int)[u]) == y;
                            assert(v@.subrange(0, i as int + 1)[u] == y);
                        }
                    } else if v@.subrange(0, i as int + 1).contains(y) {
                        let t = choose|t: int|
                            0 <= t < i + 1 && (#[trigger] v@.subrange(0, i as int + 1)[t]) == y;
                        if t < i {
                            assert(v@.subrange(0, i as int)[t] == y);
                            assert(pre.contains(y));
                            let u = choose|u: int| 0 <= u < pre.len() && pre[u] == y;
                            if u < j {
                                assert(newv[u] == y);
                            } else {
                                assert(newv[u + 1] == y);
                            }
                            assert(out@.contains(y));
                        } else {
                            assert(y == x);
                            assert(newv[j as int] == x);
                            assert(out@.contains(y));
                        }
                    }
                }
            }
        }
    }
    proof {
        assert(v@.subrange(0, n as int) =~= v@);
    }
    out
}

/// Collects the accept states: the last state each chain allocates, plus the
/// start state for every starred group, sorted and with duplicates removed.
pub fn get_accept_states(expressions: &Vec<Vec<char>>) -> (r: Vec<usize>)
    requires
        total_len(views(expressions@)) + 2 <= usize::MAX,
    ensures
        forall|p: int, q: int| 0 <= p < q < r@.len() ==> r@[p] < r@[q],
        forall|y: int| contains_int(r@, y) <==> accept_raw_spec(views(expressions@)).contains(y),
{
    let ghost esv = views(expressions@);
    let mut accept_states: Vec<usize> = Vec::new();
    let mut n: usize = 2;
    let nk = expressions.len();

    for k in 0..nk
        invariant
            nk == expressions@.len(),
            esv == views(expressions@),
            total_len(esv) + 2 <= usize::MAX,
            n as int == accept_upto(esv, k as int).1,
            n as int <= 2 + prefix_len(esv, k as int),
            n >= 2,
            accept_states@.len() == accept_upto(esv, k as int).0.len(),
            forall|j: int|
                0 <= j < accept_states@.len() ==> (#[trigger] accept_states@[j]) as int
                    == accept_upto(esv, k as int).0[j],
    {
        let e = &expressions[k];
        proof {
            assert(esv[k as int] == e@);
            lemma_prefix_le_total(esv, k as int);
            lemma_prefix_le_total(esv, k as int + 1);
            lemma_sym_count_le(e@, e@.len() as int);
        }
        let m = e.len();
        if m == 0 {
        } else {
            let star = m >= 2 && e[0] == '(' && e[m - 1] == '*' && e[m - 2] == ')';
            if star {
                accept_states.push(1);
            }
            for i in 0..m
                invariant
                    m == e@.len(),
                    esv == views(expressions@),
                    nk == esv.len(),
                    k < nk,
                    e@ == esv[k as int],
                    total_len(esv) + 2 <= usize::MAX,
                    n as int == accept_upto(esv, k as int).1 + sym_count(e@, i as int),
                    n as int <= 2 + prefix_len(esv, k as int) + i,
                    n >= 2,
                    star == is_star_chain(e@),
                    accept_states@.len() == accept_upto(esv, k as int).0.len() + (if star {
                        1int
                    } else {
                        0int
                    }),
                    forall|j: int|
                        0 <= j < accept_upto(esv, k as int).0.len() ==> (
                        #[trigger] accept_states@[j]) as int == accept_upto(esv, k as int).0[j],
                    star ==> accept_states@.last() == 1,
            {
                let c = e[i];
                if c == '(' || c == ')' || c == '|' || c == '*' || c == ' ' {
                } else {
                    proof {
                        lemma_prefix_le_total(esv, k as int + 1);
                        lemma_sym_count_le(e@, i as int + 1);
                    }
                    n = n + 1;
                }
            }
            accept_states.push(n - 1);
            proof {
                let prev = accept_upto(esv, k as int);
                let next = accept_upto(esv, k as int + 1);
                if star {
                    assert(next.0 =~= prev.0 + seq![1int, prev.1 + chain_sym_count(e@) - 1]);
                } else {
                    assert(next.0 =~= prev.0.push(prev.1 + chain_sym_count(e@) - 1));
                }
            }
        }
    }
    let r = sort_unique(&accept_states);
    proof {
        let raw = accept_raw_spec(esv);
        assert forall|y: int| contains_int(r@, y) <==> raw.contains(y) by {
            if contains_int(r@, y) {
                let j = choose|j: int| 0 <= j < r@.len() && (#[trigger] r@[j]) as int == y;
                assert(r@.contains(r@[j]));
                assert(accept_states@.contains(r@[j]));
                let t = choose|t: int|
                    0 <= t < accept_states@.len() && accept_states@[t] == r@[j];
                assert(raw[t] == y);
            } else if raw.contains(y) {
                let t = choose|t: int| 0 <= t < raw.len() && raw[t] == y;
                assert((accept_states@[t]) as int == y);
                assert(accept_states@.contains(accept_states@[t]));
                assert(r@.contains(accept_states@[t]));
                let j = choose|j: int| 0 <= j < r@.len() && r@[j] == accept_states@[t];
                assert((r@[j]) as int == y);
                assert(contains_int(r@, y));
            }
        }
    }
    r
}


proof fn lemma_plain_counts(e: Seq<char>, i: int, n0: int)
    ensures
        plain_upto(e, i, n0).0.len() == sym_plain_upto(e, i).len(),
    decreases i,
{
    if i > 1 {
        lemma_plain_counts(e, i - 1, n0);
    }
}

proof fn lemma_star_counts(e: Seq<char>, i: int, n0: int, begin: Seq<char>)
    ensures
        star_upto(e, i, n0).0.len() == sym_star_upto(e, i, begin).0.len(),
    decreases i,
{
    if i > 2 {
        lemma_star_counts(e, i - 1, n0, begin);
    }
}

/// The edge sequence and the label sequence walk the chains identically: one
/// label list per edge.
pub proof fn lemma_trans_syms_parallel(es: Seq<Seq<char>>, k: int)
    requires
        0 <= k <= es.len(),
    ensures
        trans_upto(es, k).0.len() == syms_upto(es, k).len(),
    decreases k,
{
    if k > 0 {
        lemma_trans_syms_parallel(es, k - 1);
        let e = es[k - 1];
        if e.len() == 0 {
        } else if is_star_chain(e) {
            lemma_star_counts(e, e.len() as int, trans_upto(es, k - 1).1, begin_chars_spec(es));
        } else {
            lemma_plain_counts(e, e.len() as int, trans_upto(es, k - 1).1);
        }
    }
}

} // verus!
