//! The expression splitter: alphabet extraction and the one top-level pass
//! that splits an expression on `|` outside any parenthesis group.

use vstd::prelude::*;
use crate::exprs::{views, total_len, lemma_views_push};

verus! {

/// Characters that never belong to the alphabet.
pub open spec fn is_non_alphabet(c: char) -> bool {
    c == '(' || c == ')' || c == '|' || c == '*' || c == ' '
}

/// The alphabet of the first `i` characters: each symbol character once, in
/// order of first occurrence.
pub open spec fn alphabet_upto(s: Seq<char>, i: int) -> Seq<char>
    decreases i,
{
    if i <= 0 {
        Seq::empty()
    } else {
        let prev = alphabet_upto(s, i - 1);
        let c = s[i - 1];
        if is_non_alphabet(c) || prev.contains(c) {
            prev
        } else {
            prev.push(c)
        }
    }
}

/// The alphabet of a raw expression.
pub open spec fn alphabet_spec(s: Seq<char>) -> Seq<char> {
    alphabet_upto(s, s.len() as int)
}

/// Collects the alphabet of a raw expression: every symbol character, once,
/// in order of first occurrence.
pub fn get_alphabet(reg_ex: &Vec<char>) -> (r: Vec<char>)
    ensures
        r@ == alphabet_spec(reg_ex@),
{
    let mut alphabet: Vec<char> = Vec::new();
    let n = reg_ex.len();
    for i in 0..n
        invariant
            n == reg_ex@.len(),
            alphabet@ == alphabet_upto(reg_ex@, i as int),
    {
        let c = reg_ex[i];
        if c == '(' || c == ')' || c == '|' || c == '*' || c == ' ' {
        } else if crate::exprs::contains_char(&alphabet, c) {
        } else {
            alphabet.push(c);
        }
    }
    alphabet
}

/// One step of the top-level split: `(` and `)` adjust the nesting depth and
/// are kept in the current chain; `|` at depth zero closes the current chain;
/// everything else is appended to it.
pub open spec fn split_step(st: (Seq<Seq<char>>, Seq<char>, nat), c: char) -> (
    Seq<Seq<char>>,
    Seq<char>,
    nat,
) {
    if c == '(' {
        (st.0, st.1.push(c), st.2 + 1)
    } else if c == ')' {
        (st.0, st.1.push(c), if st.2 > 0 {
            (st.2 - 1) as nat
        } else {
            0nat
        })
    } else if c == '|' && st.2 == 0 {
        (st.0.push(st.1), Seq::<char>::empty(), 0nat)
    } else {
        (st.0, st.1.push(c), st.2)
    }
}

/// The split state after the first `i` characters.
pub open spec fn split_upto(s: Seq<char>, i: int) -> (Seq<Seq<char>>, Seq<char>, nat)
    decreases i,
{
    if i <= 0 {
        (Seq::<Seq<char>>::empty(), Seq::<char>::empty(), 0nat)
    } else {
        split_step(split_upto(s, i - 1), s[i - 1])
    }
}

/// The chains an expression splits into at top level.  There is always at
/// least one chain: the one still open at the end is closed last.
pub open spec fn split_top(s: Seq<char>) -> Seq<Seq<char>> {
    let st = split_upto(s, s.len() as int);
    st.0.push(st.1)
}

/// The characters of the split are exactly the input characters minus the
/// top-level `|` separators, so no chain outgrows the input.
pub proof fn lemma_split_upto_total(s: Seq<char>, i: int)
    requires
        0 <= i <= s.len(),
    ensures
        total_len(split_upto(s, i).0) + split_upto(s, i).1.len() <= i,
    decreases i,
{
    broadcast use crate::exprs::lemma_total_len_push;

    if i > 0 {
        lemma_split_upto_total(s, i - 1);
    }
}

/// The total size of the top-level split never exceeds the input length.
pub proof fn lemma_split_top_total(s: Seq<char>)
    ensures
        total_len(split_top(s)) <= s.len(),
{
    broadcast use crate::exprs::lemma_total_len_push;

    lemma_split_upto_total(s, s.len() as int);
}

/// Splits the expression into concatenation chains on every `|` that stands
/// outside all parenthesis groups.
pub fn parse_original(reg_ex: &Vec<char>) -> (r: Vec<Vec<char>>)
    ensures
        views(r@) == split_top(reg_ex@),
{
    let mut expressions: Vec<Vec<char>> = Vec::new();
    let mut curr_expression: Vec<char> = Vec::new();
    let mut depth: usize = 0;
    let n = reg_ex.len();

    for i in 0..n
        invariant
            n == reg_ex@.len(),
            depth <= i,
            (views(expressions@), curr_expression@, depth as nat) == split_upto(
                reg_ex@,
                i as int,
            ),
    {
        let c = reg_ex[i];
        if c == '(' {
            depth = depth + 1;
            curr_expression.push(c);
        } else if c == ')' {
            if depth > 0 {
                depth = depth - 1;
            }
            curr_expression.push(c);
        } else if c == '|' && depth == 0 {
            proof {
                lemma_views_push(expressions@, curr_expression);
            }
            expressions.push(curr_expression);
            curr_expression = Vec::new();
        } else {
            curr_expression.push(c);
        }
    }
    proof {
        lemma_views_push(expressions@, curr_expression);
    }
    expressions.push(curr_expression);
    expressions
}

} // verus!
