//! The expression simplifier: recursively rewrites wholly parenthesized and
//! parenthesized-and-starred chains until every chain is flat, or flat inside
//! one outer `(...)*` wrapper.

use vstd::prelude::*;
use crate::exprs::{
    views, total_len, lemma_views_push, lemma_views_add, lemma_total_len_push,
    lemma_member_le_total, copy_chain,
};
use crate::parse::{split_top, parse_original, lemma_split_top_total};

verus! {

/// A chain that is wholly parenthesized: `(...)`.
pub open spec fn is_group_chain(e: Seq<char>) -> bool {
    e.len() >= 1 && e[0] == '(' && e[e.len() - 1] == ')'
}

/// A chain that is parenthesized and starred: `(...)*`.
pub open spec fn is_star_chain(e: Seq<char>) -> bool {
    e.len() >= 2 && e[0] == '(' && e[e.len() - 1] == '*' && e[e.len() - 2] == ')'
}

/// A chain the simplifier rewrites; all others are kept as they stand.
pub open spec fn chain_matches(e: Seq<char>) -> bool {
    is_group_chain(e) || is_star_chain(e)
}

/// One step of the outer-parenthesis strip: parentheses at depth zero are
/// dropped, everything else is kept.
pub open spec fn strip_step(st: (Seq<char>, nat), c: char) -> (Seq<char>, nat) {
    if c == '(' {
        (
            if st.1 > 0 {
                st.0.push(c)
            } else {
                st.0
            },
            st.1 + 1,
        )
    } else if c == ')' {
        (
            if st.1 == 1 {
                st.0
            } else {
                st.0.push(c)
            },
            if st.1 > 0 {
                (st.1 - 1) as nat
            } else {
                0nat
            },
        )
    } else {
        (st.0.push(c), st.1)
    }
}

/// The strip state after the first `i` characters.
pub open spec fn strip_upto(e: Seq<char>, i: int) -> (Seq<char>, nat)
    decreases i,
{
    if i <= 0 {
        (Seq::<char>::empty(), 0nat)
    } else {
        strip_step(strip_upto(e, i - 1), e[i - 1])
    }
}

/// A chain with its outermost parentheses removed.
pub open spec fn strip_spec(e: Seq<char>) -> Seq<char> {
    strip_upto(e, e.len() as int).0
}

proof fn lemma_strip_upto_len(e: Seq<char>, i: int)
    requires
        1 <= i <= e.len(),
        e[0] == '(',
    ensures
        strip_upto(e, i).0.len() <= i - 1,
    decreases i,
{
    if i == 1 {
        assert(strip_upto(e, 0) == (Seq::<char>::empty(), 0nat));
        assert(strip_upto(e, 1) == strip_step(strip_upto(e, 0), e[0]));
    } else {
        lemma_strip_upto_len(e, i - 1);
        assert(strip_upto(e, i) == strip_step(strip_upto(e, i - 1), e[i - 1]));
    }
}

/// Stripping a chain that opens with `(` makes it strictly shorter.
pub proof fn lemma_strip_len(e: Seq<char>)
    requires
        e.len() >= 1,
        e[0] == '(',
    ensures
        strip_spec(e).len() < e.len(),
{
    lemma_strip_upto_len(e, e.len() as int);
}

/// One step of the starred-group scan: the group's own parenthesis is
/// dropped, `|` at group depth splits, the `)` that closes the group stops
/// the scan, and everything after it is ignored.
pub open spec fn star_scan_step(st: (Seq<Seq<char>>, Seq<char>, nat, bool), c: char) -> (
    Seq<Seq<char>>,
    Seq<char>,
    nat,
    bool,
) {
    if st.3 {
        st
    } else if c == '(' {
        (
            st.0,
            if st.2 > 0 {
                st.1.push(c)
            } else {
                st.1
            },
            st.2 + 1,
            false,
        )
    } else if c == ')' {
        if st.2 == 1 {
            (st.0, st.1, st.2, true)
        } else {
            (
                st.0,
                st.1.push(c),
                if st.2 > 0 {
                    (st.2 - 1) as nat
                } else {
                    0nat
                },
                false,
            )
        }
    } else if c == '|' && st.2 == 1 {
        (st.0.push(st.1), Seq::<char>::empty(), st.2, false)
    } else {
        (st.0, st.1.push(c), st.2, false)
    }
}

/// The starred-group scan state after the first `i` characters.
pub open spec fn star_scan_upto(e: Seq<char>, i: int) -> (Seq<Seq<char>>, Seq<char>, nat, bool)
    decreases i,
{
    if i <= 0 {
        (Seq::<Seq<char>>::empty(), Seq::<char>::empty(), 0nat, false)
    } else {
        star_scan_step(star_scan_upto(e, i - 1), e[i - 1])
    }
}

/// The interior pieces of a starred group, split on its top-level `|`.
pub open spec fn star_pieces(e: Seq<char>) -> Seq<Seq<char>> {
    let st = star_scan_upto(e, e.len() as int);
    st.0.push(st.1)
}

proof fn lemma_star_scan_total(e: Seq<char>, i: int)
    requires
        1 <= i <= e.len(),
        e[0] == '(',
    ensures
        total_len(star_scan_upto(e, i).0) + star_scan_upto(e, i).1.len() <= i - 1,
    decreases i,
{
    broadcast use lemma_total_len_push;

    if i == 1 {
        assert(star_scan_upto(e, 0) == (Seq::<Seq<char>>::empty(), Seq::<char>::empty(), 0nat, false));
        assert(star_scan_upto(e, 1) == star_scan_step(star_scan_upto(e, 0), e[0]));
    } else {
        lemma_star_scan_total(e, i - 1);
        assert(star_scan_upto(e, i) == star_scan_step(star_scan_upto(e, i - 1), e[i - 1]));
    }
}

/// The interior of a starred group is strictly smaller than the group.
pub proof fn lemma_star_pieces_total(e: Seq<char>)
    requires
        e.len() >= 1,
        e[0] == '(',
    ensures
        total_len(star_pieces(e)) < e.len(),
{
    broadcast use lemma_total_len_push;

    lemma_star_scan_total(e, e.len() as int);
}

/// A piece re-wrapped as a starred group: `(piece)*`.
pub open spec fn wrap_one(e: Seq<char>) -> Seq<char> {
    seq!['('] + e + seq![')'] + seq!['*']
}

/// Every piece re-wrapped as a starred group.
pub open spec fn wrap_all(es: Seq<Seq<char>>) -> Seq<Seq<char>> {
    es.map_values(|e: Seq<char>| wrap_one(e))
}

/// The chains among the first `i` that the simplifier keeps in place.
pub open spec fn kept_upto(es: Seq<Seq<char>>, i: int) -> Seq<Seq<char>>
    decreases i,
{
    if i <= 0 {
        Seq::<Seq<char>>::empty()
    } else if chain_matches(es[i - 1]) {
        kept_upto(es, i - 1)
    } else {
        kept_upto(es, i - 1).push(es[i - 1])
    }
}

/// The fully simplified chain sequence: chains that match neither rewrite
/// pattern stay in place, and the rewrites of the others are appended, in
/// order, behind them.
pub open spec fn simplify_spec(es: Seq<Seq<char>>) -> Seq<Seq<char>>
    decreases total_len(es), 3nat, 0nat,
{
    kept_upto(es, es.len() as int) + news_upto(es, es.len() as int)
}

/// The rewrites of the matching chains among the first `i`, concatenated.
pub open spec fn news_upto(es: Seq<Seq<char>>, i: int) -> Seq<Seq<char>>
    decreases total_len(es), 2nat, i,
    via news_upto_dec
{
    if i <= 0 || i > es.len() {
        Seq::<Seq<char>>::empty()
    } else if is_group_chain(es[i - 1]) {
        news_upto(es, i - 1) + pep_spec(es[i - 1])
    } else if is_star_chain(es[i - 1]) {
        news_upto(es, i - 1) + star_spec(es[i - 1])
    } else {
        news_upto(es, i - 1)
    }
}

#[via_fn]
proof fn news_upto_dec(es: Seq<Seq<char>>, i: int) {
    if 0 < i <= es.len() {
        lemma_member_le_total(es, i - 1);
    }
}

/// The rewrite of a wholly parenthesized chain: strip the outermost
/// parentheses, split the interior at top level, and simplify the result.
pub open spec fn pep_spec(e: Seq<char>) -> Seq<Seq<char>>
    decreases e.len(), 1nat, 0nat,
    when e.len() >= 1 && e[0] == '('
    via pep_spec_dec
{
    simplify_spec(split_top(strip_spec(e)))
}

#[via_fn]
proof fn pep_spec_dec(e: Seq<char>) {
    lemma_strip_len(e);
    lemma_split_top_total(strip_spec(e));
}

/// The rewrite of a starred group: split the interior on its top-level `|`,
/// simplify each piece, and re-wrap each result as `(piece)*`.
pub open spec fn star_spec(e: Seq<char>) -> Seq<Seq<char>>
    decreases e.len(), 1nat, 0nat,
    when e.len() >= 1 && e[0] == '('
    via star_spec_dec
{
    wrap_all(simplify_spec(star_pieces(e)))
}

#[via_fn]
proof fn star_spec_dec(e: Seq<char>) {
    lemma_star_pieces_total(e);
}

/// Rewrites every chain until each is flat or flat inside one `(...)*`
/// wrapper: chains that match neither pattern are retained in place, and the
/// simplified rewrites of the others are appended behind them.
pub fn simplify_expressions(expressions: &Vec<Vec<char>>) -> (r: Vec<Vec<char>>)
    ensures
        views(r@) == simplify_spec(views(expressions@)),
    decreases total_len(views(expressions@)), 3nat, 0nat,
{
    let ghost esv = views(expressions@);
    let mut kept: Vec<Vec<char>> = Vec::new();
    let mut news: Vec<Vec<char>> = Vec::new();
    let n = expressions.len();

    for i in 0..n
        invariant
            n == expressions@.len(),
            esv == views(expressions@),
            views(kept@) == kept_upto(esv, i as int),
            views(news@) == news_upto(esv, i as int),
    {
        let e = &expressions[i];
        proof {
            assert(esv[i as int] == e@);
        }
        if e.len() == 0 {
            proof {
                lemma_views_push(kept@, *e);
            }
            kept.push(copy_chain(e));
        } else if e[0] == '(' && e[e.len() - 1] == ')' {
            proof {
                lemma_member_le_total(esv, i as int);
            }
            let mut simplified = simplify_parentheses_end_parentheses(e);
            proof {
                lemma_views_add(news@, simplified@);
            }
            news.append(&mut simplified);
        } else if e.len() >= 2 && e[0] == '(' && e[e.len() - 1] == '*' && e[e.len() - 2] == ')' {
            proof {
                lemma_member_le_total(esv, i as int);
            }
            let mut simplified = simplify_star_parentheses(e);
            proof {
                lemma_views_add(news@, simplified@);
            }
            news.append(&mut simplified);
        } else {
            proof {
                lemma_views_push(kept@, *e);
            }
            kept.push(copy_chain(e));
        }
    }

    let mut result = kept;
    proof {
        lemma_views_add(result@, news@);
    }
    result.append(&mut news);
    result
}

/// Rewrites a chain of the form `(...)`: the outermost parentheses are
/// removed, and the interior is split and simplified as a whole expression.
pub fn simplify_parentheses_end_parentheses(expression: &Vec<char>) -> (r: Vec<Vec<char>>)
    requires
        expression@.len() >= 1,
        expression@[0] == '(',
    ensures
        views(r@) == pep_spec(expression@),
    decreases expression@.len(), 1nat, 0nat,
{
    let mut start_expression: Vec<char> = Vec::new();
    let mut depth: usize = 0;
    let n = expression.len();

    for i in 0..n
        invariant
            n == expression@.len(),
            depth <= i,
            (start_expression@, depth as nat) == strip_upto(expression@, i as int),
    {
        let c = expression[i];
        if c == '(' {
            if depth > 0 {
                start_expression.push(c);
            }
            depth = depth + 1;
        } else if c == ')' {
            if depth != 1 {
                start_expression.push(c);
            }
            if depth > 0 {
                depth = depth - 1;
            }
        } else {
            start_expression.push(c);
        }
    }

    proof {
        lemma_strip_len(expression@);
        lemma_split_top_total(start_expression@);
    }
    let expressions = parse_original(&start_expression);
    simplify_expressions(&expressions)
}

/// Rewrites a chain of the form `(...)*`: the interior is split on its
/// top-level `|`, each piece is simplified, and each result is re-wrapped
/// individually as `(piece)*`.
pub fn simplify_star_parentheses(expression: &Vec<char>) -> (r: Vec<Vec<char>>)
    requires
        expression@.len() >= 1,
        expression@[0] == '(',
    ensures
        views(r@) == star_spec(expression@),
    decreases expression@.len(), 1nat, 0nat,
{
    let ghost ev = expression@;
    let mut expressions: Vec<Vec<char>> = Vec::new();
    let mut curr_expression: Vec<char> = Vec::new();
    let mut depth: usize = 0;
    let mut stopped: bool = false;
    let n = expression.len();

    for i in 0..n
        invariant
            n == ev.len(),
            expression@ == ev,
            depth <= i,
            (views(expressions@), curr_expression@, depth as nat, stopped) == star_scan_upto(
                ev,
                i as int,
            ),
    {
        let c = expression[i];
        if stopped {
        } else if c == '(' {
            if depth > 0 {
                curr_expression.push(c);
            }
            depth = depth + 1;
        } else if c == ')' {
            if depth == 1 {
                stopped = true;
            } else {
                curr_expression.push(c);
                if depth > 0 {
                    depth = depth - 1;
                }
            }
        } else if c == '|' && depth == 1 {
            proof {
                lemma_views_push(expressions@, curr_expression);
            }
            expressions.push(curr_expression);
            curr_expression = Vec::new();
        } else {
            curr_expression.push(c);
        }
    }

    proof {
        lemma_views_push(expressions@, curr_expression);
        lemma_star_pieces_total(ev);
    }
    expressions.push(curr_expression);

    let simplified = simplify_expressions(&expressions);

    let mut wrapped: Vec<Vec<char>> = Vec::new();
    let m = simplified.len();
    for k in 0..m
        invariant
            m == simplified@.len(),
            wrapped@.len() == k,
            forall|j: int| 0 <= j < k ==> #[trigger] wrapped@[j]@ == wrap_one(
                views(simplified@)[j],
            ),
    {
        let piece = &simplified[k];
        let mut w: Vec<char> = Vec::new();
        w.push('(');
        for t in 0..piece.len()
            invariant
                w@ == seq!['('] + piece@.subrange(0, t as int),
        {
            w.push(piece[t]);
            proof {
                assert((seq!['('] + piece@.subrange(0, t as int)).push(piece@[t as int]) =~= seq![
                    '(',
                ] + piece@.subrange(0, t + 1));
            }
        }
        w.push(')');
        w.push('*');
        proof {
            assert(piece@.subrange(0, piece@.len() as int) =~= piece@);
            assert(w@ =~= wrap_one(piece@));
            assert(views(simplified@)[k as int] == piece@);
        }
        wrapped.push(w);
    }
    proof {
        assert(views(wrapped@) =~= wrap_all(views(simplified@)));
    }
    wrapped
}


/// A chain the simplifier is finished with: it matches neither rewrite
/// pattern.
pub open spec fn settled_chain(e: Seq<char>) -> bool {
    !chain_matches(e)
}

/// A star-wrapped flat chain `(w)*`: a non-empty interior free of
/// parentheses and `|`, the shape the simplifier leaves starred groups in.
pub open spec fn flat_star_chain(e: Seq<char>) -> bool {
    &&& e.len() >= 4
    &&& e[0] == '('
    &&& e[e.len() - 1] == '*'
    &&& e[e.len() - 2] == ')'
    &&& forall|i: int| 1 <= i < e.len() - 2 ==> (#[trigger] e[i]) != '(' && e[i] != ')' && e[i]
        != '|'
}

proof fn lemma_flat_star_scan(e: Seq<char>, i: int)
    requires
        flat_star_chain(e),
        1 <= i <= e.len() - 2,
    ensures
        star_scan_upto(e, i) == (Seq::<Seq<char>>::empty(), e.subrange(1, i), 1nat, false),
    decreases i,
{
    if i == 1 {
        assert(star_scan_upto(e, 0) == (
            Seq::<Seq<char>>::empty(),
            Seq::<char>::empty(),
            0nat,
            false,
        ));
        assert(star_scan_upto(e, 1) == star_scan_step(star_scan_upto(e, 0), e[0]));
        assert(e.subrange(1, 1) =~= Seq::<char>::empty());
    } else {
        lemma_flat_star_scan(e, i - 1);
        assert(star_scan_upto(e, i) == star_scan_step(star_scan_upto(e, i - 1), e[i - 1]));
        assert(e[i - 1] != '(' && e[i - 1] != ')' && e[i - 1] != '|');
        assert(e.subrange(1, i - 1).push(e[i - 1]) =~= e.subrange(1, i));
    }
}

proof fn lemma_settled_simplify_upto(es: Seq<Seq<char>>, i: int)
    requires
        0 <= i <= es.len(),
        forall|j: int| 0 <= j < es.len() ==> settled_chain(#[trigger] es[j]),
    ensures
        kept_upto(es, i) == es.subrange(0, i),
        news_upto(es, i) == Seq::<Seq<char>>::empty(),
    decreases i,
{
    if i == 0 {
        assert(es.subrange(0, 0) =~= Seq::<Seq<char>>::empty());
    } else {
        lemma_settled_simplify_upto(es, i - 1);
        assert(es.subrange(0, i - 1).push(es[i - 1]) =~= es.subrange(0, i));
    }
}

/// A sequence of settled chains passes through the simplifier unchanged.
pub proof fn lemma_settled_simplify(es: Seq<Seq<char>>)
    requires
        forall|j: int| 0 <= j < es.len() ==> settled_chain(#[trigger] es[j]),
    ensures
        simplify_spec(es) == es,
{
    lemma_settled_simplify_upto(es, es.len() as int);
    assert(es.subrange(0, es.len() as int) + Seq::<Seq<char>>::empty() =~= es);
}

/// A star-wrapped flat chain is rewritten to exactly itself.
pub proof fn lemma_flat_star_rewrites_to_self(e: Seq<char>)
    requires
        flat_star_chain(e),
    ensures
        star_spec(e) == seq![e],
{
    let n = e.len() as int;
    let w = e.subrange(1, n - 2);
    lemma_flat_star_scan(e, n - 2);
    assert(star_scan_upto(e, n - 1) == star_scan_step(star_scan_upto(e, n - 2), e[n - 2]));
    assert(star_scan_upto(e, n - 1) == (Seq::<Seq<char>>::empty(), w, 1nat, true));
    assert(star_scan_upto(e, n) == star_scan_step(star_scan_upto(e, n - 1), e[n - 1]));
    assert(star_pieces(e) =~= seq![w]);

    // The interior is settled: it opens with a symbol, not `(`, and holds
    // no `)` that a star pattern would need.
    assert(w.len() >= 1);
    assert(w[0] == e[1]);
    assert(!is_group_chain(w));
    assert(w.len() >= 2 ==> w[w.len() - 2] == e[n - 4] && e[n - 4] != ')');
    assert(!is_star_chain(w));
    assert forall|j: int| 0 <= j < seq![w].len() implies settled_chain(#[trigger] seq![w][j]) by {
        assert(seq![w][0] == w);
    }
    lemma_settled_simplify(seq![w]);

    assert(wrap_one(w) =~= e);
    assert(wrap_all(seq![w]) =~= seq![wrap_one(w)]);
    assert(star_spec(e) == seq![e]);
}

proof fn lemma_idem_upto(es: Seq<Seq<char>>, k: int, i: int)
    requires
        0 <= k <= es.len(),
        0 <= i <= es.len(),
        forall|j: int| 0 <= j < k ==> settled_chain(#[trigger] es[j]),
        forall|j: int| k <= j < es.len() ==> flat_star_chain(#[trigger] es[j]),
    ensures
        kept_upto(es, i) == es.subrange(
            0,
            if i <= k {
                i
            } else {
                k
            },
        ),
        news_upto(es, i) == if i <= k {
            Seq::<Seq<char>>::empty()
        } else {
            es.subrange(k, i)
        },
    decreases i,
{
    if i == 0 {
        assert(es.subrange(0, 0) =~= Seq::<Seq<char>>::empty());
    } else {
        lemma_idem_upto(es, k, i - 1);
        if i - 1 < k {
            assert(settled_chain(es[i - 1]));
            assert(es.subrange(0, i - 1).push(es[i - 1]) =~= es.subrange(0, i));
        } else {
            assert(flat_star_chain(es[i - 1]));
            assert(is_star_chain(es[i - 1]));
            assert(!is_group_chain(es[i - 1]));
            lemma_flat_star_rewrites_to_self(es[i - 1]);
            if i - 1 == k {
                assert(Seq::<Seq<char>>::empty() + star_spec(es[i - 1]) =~= es.subrange(k, i));
            } else {
                assert(es.subrange(k, i - 1) + star_spec(es[i - 1]) =~= es.subrange(k, i));
            }
        }
    }
}

/// Idempotence of the simplifier: a chain sequence already in simplified
/// form — its settled chains first, its star-wrapped flat chains after
/// them — is returned unchanged.
pub proof fn lemma_simplify_idempotent(es: Seq<Seq<char>>, k: int)
    requires
        0 <= k <= es.len(),
        forall|j: int| 0 <= j < k ==> settled_chain(#[trigger] es[j]),
        forall|j: int| k <= j < es.len() ==> flat_star_chain(#[trigger] es[j]),
    ensures
        simplify_spec(es) == es,
{
    lemma_idem_upto(es, k, es.len() as int);
    if es.len() <= k {
        assert(es.subrange(0, es.len() as int) + Seq::<Seq<char>>::empty() =~= es);
    } else {
        assert(es.subrange(0, k) + es.subrange(k, es.len() as int) =~= es);
    }
}

} // verus!
