//! Shared helpers for sequences of concatenation chains (`Vec<Vec<char>>`).

use vstd::prelude::*;

verus! {

/// The chains of a chain vector, as mathematical sequences.
pub open spec fn views(es: Seq<Vec<char>>) -> Seq<Seq<char>> {
    es.map_values(|v: Vec<char>| v@)
}

/// Total number of characters across a sequence of chains.
pub open spec fn total_len(es: Seq<Seq<char>>) -> nat
    decreases es.len(),
{
    if es.len() == 0 {
        0
    } else {
        total_len(es.drop_last()) + es.last().len()
    }
}

pub broadcast proof fn lemma_views_push(s: Seq<Vec<char>>, v: Vec<char>)
    ensures
        #[trigger] views(s.push(v)) == views(s).push(v@),
{
    assert(views(s.push(v)) =~= views(s).push(v@));
}

pub broadcast proof fn lemma_views_add(a: Seq<Vec<char>>, b: Seq<Vec<char>>)
    ensures
        #[trigger] views(a + b) == views(a) + views(b),
{
    assert(views(a + b) =~= views(a) + views(b));
}

pub broadcast proof fn lemma_total_len_push(es: Seq<Seq<char>>, e: Seq<char>)
    ensures
        #[trigger] total_len(es.push(e)) == total_len(es) + e.len(),
{
    assert(es.push(e).drop_last() =~= es);
    assert(es.push(e).last() == e);
}

/// Every chain is at most as long as the whole chain sequence.
pub proof fn lemma_member_le_total(es: Seq<Seq<char>>, i: int)
    requires
        0 <= i < es.len(),
    ensures
        es[i].len() <= total_len(es),
    decreases es.len(),
{
    if i == es.len() - 1 {
    } else {
        lemma_member_le_total(es.drop_last(), i);
    }
}

/// Whether a character vector contains a character.
pub fn contains_char(v: &Vec<char>, c: char) -> (r: bool)
    ensures
        r == v@.contains(c),
{
    for i in 0..v.len()
        invariant
            forall|j: int| 0 <= j < i ==> v@[j] != c,
    {
        if v[i] == c {
            proof {
                assert(v@[i as int] == c);
            }
            return true;
        }
    }
    false
}

/// Whether an integer vector contains a value.
pub fn contains_usize(v: &Vec<usize>, x: usize) -> (r: bool)
    ensures
        r == v@.contains(x),
{
    for i in 0..v.len()
        invariant
            forall|j: int| 0 <= j < i ==> v@[j] != x,
    {
        if v[i] == x {
            proof {
                assert(v@[i as int] == x);
            }
            return true;
        }
    }
    false
}

/// A fresh copy of a chain.
pub fn copy_chain(e: &Vec<char>) -> (r: Vec<char>)
    ensures
        r@ == e@,
{
    let mut out: Vec<char> = Vec::new();
    for i in 0..e.len()
        invariant
            out@ == e@.subrange(0, i as int),
    {
        out.push(e[i]);
        proof {
            assert(e@.subrange(0, i as int).push(e@[i as int]) =~= e@.subrange(0, i + 1));
        }
    }
    proof {
        assert(e@.subrange(0, e@.len() as int) =~= e@);
    }
    out
}

} // verus!
