//! Lexicographic comparison of integer sequences, on which the order of
//! categories and of kickers is built.

use vstd::prelude::*;
use std::cmp::Ordering;

verus! {

/// Lexicographic order of two sequences of integers; a proper prefix comes
/// first.
pub open spec fn lex(a: Seq<int>, b: Seq<int>) -> Ordering
    decreases a.len(),
{
    if a.len() == 0 {
        if b.len() == 0 {
            Ordering::Equal
        } else {
            Ordering::Less
        }
    } else if b.len() == 0 {
        Ordering::Greater
    } else if a[0] < b[0] {
        Ordering::Less
    } else if a[0] > b[0] {
        Ordering::Greater
    } else {
        lex(a.drop_first(), b.drop_first())
    }
}

/// The opposite of an ordering.
pub open spec fn flip(o: Ordering) -> Ordering {
    match o {
        Ordering::Less => Ordering::Greater,
        Ordering::Equal => Ordering::Equal,
        Ordering::Greater => Ordering::Less,
    }
}

/// A sequence of machine integers read as mathematical integers.
pub open spec fn ints(s: Seq<usize>) -> Seq<int> {
    s.map_values(|x: usize| x as int)
}

/// Every sequence is equal to itself.
pub proof fn lemma_lex_reflexive(a: Seq<int>)
    ensures
        lex(a, a) == Ordering::Equal,
    decreases a.len(),
{
    if a.len() > 0 {
        lemma_lex_reflexive(a.drop_first());
    }
}

/// Swapping the operands flips the result.
pub proof fn lemma_lex_flip(a: Seq<int>, b: Seq<int>)
    ensures
        lex(b, a) == flip(lex(a, b)),
    decreases a.len(),
{
    if a.len() > 0 && b.len() > 0 && a[0] == b[0] {
        lemma_lex_flip(a.drop_first(), b.drop_first());
    }
}

/// Only equal sequences compare equal.
pub proof fn lemma_lex_equal(a: Seq<int>, b: Seq<int>)
    requires
        lex(a, b) == Ordering::Equal,
    ensures
        a == b,
    decreases a.len(),
{
    if a.len() > 0 {
        lemma_lex_equal(a.drop_first(), b.drop_first());
        assert(a =~= seq![a[0]] + a.drop_first());
        assert(b =~= seq![b[0]] + b.drop_first());
    } else {
        assert(a =~= b);
    }
}

/// Being smaller carries over.
pub proof fn lemma_lex_less_transitive(a: Seq<int>, b: Seq<int>, c: Seq<int>)
    requires
        lex(a, b) == Ordering::Less,
        lex(b, c) == Ordering::Less,
    ensures
        lex(a, c) == Ordering::Less,
    decreases a.len(),
{
    if a.len() > 0 && b.len() > 0 && c.len() > 0 && a[0] == b[0] && b[0] == c[0] {
        lemma_lex_less_transitive(a.drop_first(), b.drop_first(), c.drop_first());
    }
}

/// Any outcome carries over: two steps that both give `o` give `o`.
pub proof fn lemma_lex_transitive(a: Seq<int>, b: Seq<int>, c: Seq<int>, o: Ordering)
    requires
        lex(a, b) == o,
        lex(b, c) == o,
    ensures
        lex(a, c) == o,
{
    match o {
        Ordering::Less => lemma_lex_less_transitive(a, b, c),
        Ordering::Equal => {
            lemma_lex_equal(a, b);
        },
        Ordering::Greater => {
            lemma_lex_flip(a, b);
            lemma_lex_flip(b, c);
            lemma_lex_flip(a, c);
            lemma_lex_less_transitive(c, b, a);
        },
    }
}

/// The first position where two sequences differ decides between them.
pub proof fn lemma_lex_first_difference(a: Seq<int>, b: Seq<int>, i: int)
    requires
        0 <= i < a.len(),
        i < b.len(),
        forall|k: int| 0 <= k < i ==> #[trigger] a[k] == b[k],
        a[i] != b[i],
    ensures
        lex(a, b) == if a[i] < b[i] {
            Ordering::Less
        } else {
            Ordering::Greater
        },
    decreases i,
{
    if i > 0 {
        assert forall|k: int| 0 <= k < i - 1 implies #[trigger] a.drop_first()[k]
            == b.drop_first()[k] by {
            assert(a[k + 1] == b[k + 1]);
        }
        assert(a[0] == b[0]);
        lemma_lex_first_difference(a.drop_first(), b.drop_first(), i - 1);
    }
}

fn lex_cmp_from(a: &Vec<usize>, b: &Vec<usize>, i: usize) -> (o: Ordering)
    requires
        i <= a@.len(),
        i <= b@.len(),
    ensures
        o == lex(ints(a@).skip(i as int), ints(b@).skip(i as int)),
    decreases a@.len() - i,
{
    let ghost x = ints(a@).skip(i as int);
    let ghost y = ints(b@).skip(i as int);
    if i == a.len() {
        if i == b.len() {
            Ordering::Equal
        } else {
            Ordering::Less
        }
    } else if i == b.len() {
        Ordering::Greater
    } else if a[i] < b[i] {
        Ordering::Less
    } else if a[i] > b[i] {
        Ordering::Greater
    } else {
        proof {
            assert(x.drop_first() =~= ints(a@).skip(i + 1));
            assert(y.drop_first() =~= ints(b@).skip(i + 1));
        }
        lex_cmp_from(a, b, i + 1)
    }
}

/// Compares two sequences of machine integers lexicographically.
pub fn lex_cmp(a: &Vec<usize>, b: &Vec<usize>) -> (o: Ordering)
    ensures
        o == lex(ints(a@), ints(b@)),
{
    proof {
        assert(ints(a@).skip(0) =~= ints(a@));
        assert(ints(b@).skip(0) =~= ints(b@));
    }
    lex_cmp_from(a, b, 0)
}

} // verus!
