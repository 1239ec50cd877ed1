//! The lexical guard: validates a raw expression string before any structural
//! parsing begins.

use vstd::prelude::*;
use crate::errors::RegexError;

verus! {

/// Characters the expression language accepts: lower-case letters, digits,
/// the operators `*` and `|`, parentheses, and space.
pub open spec fn is_accepted_char(c: char) -> bool {
    ('a' <= c && c <= 'z') || ('0' <= c && c <= '9') || c == '*' || c == '|' || c == '(' || c
        == ')' || c == ' '
}

/// Characters that may not open an expression.
pub open spec fn is_first_reject(c: char) -> bool {
    c == ')' || c == '|' || c == '*' || c == ' '
}

/// `(` or `|` immediately followed by `)`, `|`, or `*` is malformed.
pub open spec fn is_pair_reject(a: char, b: char) -> bool {
    (a == '(' || a == '|') && (b == '*' || b == '|' || b == ')')
}

/// Characters that may not close an expression.
pub open spec fn is_end_reject(c: char) -> bool {
    c == '(' || c == '|'
}

/// Parenthesis balance of the first `i` characters: `(` counts +1, `)` -1.
pub open spec fn paren_depth(s: Seq<char>, i: int) -> int
    decreases i,
{
    if i <= 0 {
        0
    } else {
        paren_depth(s, i - 1) + if s[i - 1] == '(' {
            1int
        } else if s[i - 1] == ')' {
            -1int
        } else {
            0int
        }
    }
}

/// The parentheses balance: the scan never dips below zero and ends at zero.
pub open spec fn balanced(s: Seq<char>) -> bool {
    &&& paren_depth(s, s.len() as int) == 0
    &&& forall|i: int| 0 <= i <= s.len() ==> paren_depth(s, i) >= 0
}

/// The guard's verdict on a raw expression, with the checks in the order they
/// are applied: opening character, character set, adjacency of `(`/`|`,
/// doubled `*`, closing character, parenthesis balance.
pub open spec fn guard_spec(s: Seq<char>) -> Result<(), RegexError>
    recommends
        s.len() >= 1,
{
    if is_first_reject(s[0]) {
        Err(RegexError::BadFirstChar)
    } else if exists|i: int| 0 <= i < s.len() && !is_accepted_char(#[trigger] s[i]) {
        Err(RegexError::BadChar)
    } else if exists|i: int| 0 <= i < s.len() - 1 && #[trigger] is_pair_reject(s[i], s[i + 1]) {
        Err(RegexError::BadAdjacentPair)
    } else if exists|i: int| 0 <= i < s.len() - 1 && (#[trigger] s[i]) == '*' && s[i + 1] == '*' {
        Err(RegexError::DoubleStar)
    } else if is_end_reject(s[s.len() - 1]) {
        Err(RegexError::BadEndChar)
    } else if !balanced(s) {
        Err(RegexError::UnbalancedParens)
    } else {
        Ok(())
    }
}

/// Checks a raw regular expression for lexical errors: accepted characters,
/// operator placement, and balanced parentheses.  Nothing is built from an
/// expression this function rejects.
pub fn check_reg_ex_chars(reg_ex: &Vec<char>) -> (r: Result<(), RegexError>)
    requires
        reg_ex@.len() >= 1,
    ensures
        r == guard_spec(reg_ex@),
{
    let ghost s = reg_ex@;
    let n = reg_ex.len();

    // The first character must not be an operator, a closing parenthesis, or a space.
    let c0 = reg_ex[0];
    if c0 == ')' || c0 == '|' || c0 == '*' || c0 == ' ' {
        return Err(RegexError::BadFirstChar);
    }

    // Every character must belong to the accepted set.
    for i in 0..n
        invariant
            n == s.len(),
            reg_ex@ == s,
            n >= 1,
            !is_first_reject(s[0]),
            forall|j: int| 0 <= j < i ==> is_accepted_char(s[j]),
    {
        let c = reg_ex[i];
        if !(('a' <= c && c <= 'z') || ('0' <= c && c <= '9') || c == '*' || c == '|' || c == '('
            || c == ')' || c == ' ') {
            proof {
                assert(!is_accepted_char(s[i as int]));
            }
            return Err(RegexError::BadChar);
        }
    }

    // `(` and `|` must not be followed by `)`, `|`, or `*`.
    for i in 0..n - 1
        invariant
            n == s.len(),
            reg_ex@ == s,
            n >= 1,
            !is_first_reject(s[0]),
            forall|j: int| 0 <= j < s.len() ==> is_accepted_char(s[j]),
            forall|j: int| 0 <= j < i ==> !(#[trigger] is_pair_reject(s[j], s[j + 1])),
    {
        let a = reg_ex[i];
        let b = reg_ex[i + 1];
        if (a == '(' || a == '|') && (b == '*' || b == '|' || b == ')') {
            proof {
                assert(is_pair_reject(s[i as int], s[i as int + 1]));
            }
            return Err(RegexError::BadAdjacentPair);
        }
    }

    // `*` must not be followed by another `*`.
    for i in 0..n - 1
        invariant
            n == s.len(),
            reg_ex@ == s,
            n >= 1,
            !is_first_reject(s[0]),
            forall|j: int| 0 <= j < s.len() ==> is_accepted_char(s[j]),
            forall|j: int| 0 <= j < s.len() - 1 ==> !(#[trigger] is_pair_reject(s[j], s[j + 1])),
            forall|j: int| 0 <= j < i ==> !((#[trigger] s[j]) == '*' && s[j + 1] == '*'),
    {
        let a = reg_ex[i];
        let b = reg_ex[i + 1];
        if a == '*' && b == '*' {
            proof {
                assert((s[i as int]) == '*' && s[i as int + 1] == '*');
            }
            return Err(RegexError::DoubleStar);
        }
    }

    // The expression must not end with `(` or `|`.
    let cl = reg_ex[n - 1];
    if cl == '(' || cl == '|' {
        return Err(RegexError::BadEndChar);
    }

    // Parentheses must balance: a stack-based scan, pushing on `(` and popping
    // on `)`, must never underflow and must end empty.
    let mut depth: usize = 0;
    let mut underflow: bool = false;
    for i in 0..n
        invariant
            n == s.len(),
            reg_ex@ == s,
            depth <= i,
            !underflow ==> depth == paren_depth(s, i as int),
            !underflow ==> forall|j: int| 0 <= j <= i ==> paren_depth(s, j) >= 0,
            underflow ==> exists|j: int| 0 <= j <= i && paren_depth(s, j) < 0,
    {
        let c = reg_ex[i];
        if c == '(' {
            if !underflow {
                depth = depth + 1;
            }
        } else if c == ')' {
            if !underflow {
                if depth == 0 {
                    proof {
                        assert(paren_depth(s, i as int + 1) < 0);
                    }
                    underflow = true;
                } else {
                    depth = depth - 1;
                }
            }
        }
    }
    if underflow || depth != 0 {
        return Err(RegexError::UnbalancedParens);
    }

    Ok(())
}

/// Every expression the guard accepts has balanced parentheses: the depth scan
/// never dips below zero, and it is back at zero exactly when the final
/// character has been processed.
pub proof fn lemma_guard_balanced(s: Seq<char>)
    requires
        s.len() >= 1,
        guard_spec(s) is Ok,
    ensures
        paren_depth(s, s.len() as int) == 0,
        forall|i: int| 0 <= i <= s.len() ==> paren_depth(s, i) >= 0,
{
    assert(balanced(s));
}

} // verus!
