//! Orders of first appearance and occurrence counts over sequences.
use vstd::prelude::*;

verus! {

/// The distinct elements of `s`, each once, in the order in which they
/// first appear in `s`.
pub open spec fn distinct_order<A>(s: Seq<A>) -> Seq<A>
    decreases s.len(),
{
    if s.len() == 0 {
        Seq::empty()
    } else {
        let d = distinct_order(s.drop_last());
        if d.contains(s.last()) {
            d
        } else {
            d.push(s.last())
        }
    }
}

/// How many elements of `s` equal `x`.
pub open spec fn count_eq<A>(s: Seq<A>, x: A) -> nat
    decreases s.len(),
{
    if s.len() == 0 {
        0
    } else {
        count_eq(s.drop_last(), x) + if s.last() == x {
            1nat
        } else {
            0nat
        }
    }
}

/// How many pairs in `s` have `a` as their first component.
pub open spec fn count_first<A, B>(s: Seq<(A, B)>, a: A) -> nat
    decreases s.len(),
{
    if s.len() == 0 {
        0
    } else {
        count_first(s.drop_last(), a) + if s.last().0 == a {
            1nat
        } else {
            0nat
        }
    }
}

/// Appending an element extends the order of first appearance by that
/// element exactly when it is new.
pub proof fn lemma_distinct_order_push<A>(s: Seq<A>, x: A)
    ensures
        distinct_order(s.push(x)) == if distinct_order(s).contains(x) {
            distinct_order(s)
        } else {
            distinct_order(s).push(x)
        },
{
    assert(s.push(x).drop_last() =~= s);
}

/// The order of first appearance holds no element twice.
pub proof fn lemma_distinct_order_unique<A>(s: Seq<A>)
    ensures
        distinct_order(s).no_duplicates(),
    decreases s.len(),
{
    if s.len() > 0 {
        lemma_distinct_order_unique(s.drop_last());
    }
}

pub proof fn lemma_count_eq_push<A>(s: Seq<A>, y: A, x: A)
    ensures
        count_eq(s.push(y), x) == count_eq(s, x) + if y == x {
            1nat
        } else {
            0nat
        },
{
    assert(s.push(y).drop_last() =~= s);
}

pub proof fn lemma_count_first_push<A, B>(s: Seq<(A, B)>, p: (A, B), a: A)
    ensures
        count_first(s.push(p), a) == count_first(s, a) + if p.0 == a {
            1nat
        } else {
            0nat
        },
{
    assert(s.push(p).drop_last() =~= s);
}

pub proof fn lemma_count_first_le_len<A, B>(s: Seq<(A, B)>, a: A)
    ensures
        count_first(s, a) <= s.len(),
    decreases s.len(),
{
    if s.len() > 0 {
        lemma_count_first_le_len(s.drop_last(), a);
    }
}

pub proof fn lemma_count_eq_le_len<A>(s: Seq<A>, x: A)
    ensures
        count_eq(s, x) <= s.len(),
    decreases s.len(),
{
    if s.len() > 0 {
        lemma_count_eq_le_len(s.drop_last(), x);
    }
}

} // verus!
