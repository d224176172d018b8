//! Sums of sequences of natural numbers.

use vstd::prelude::*;

verus! {

/// The sum of the numbers in `terms`.
pub open spec fn sum(terms: Seq<nat>) -> nat
    decreases terms.len(),
{
    if terms.len() == 0 {
        0
    } else {
        sum(terms.drop_last()) + terms.last()
    }
}

/// One more term adds itself to the sum.
pub proof fn lemma_sum_push(terms: Seq<nat>, term: nat)
    ensures
        sum(terms.push(term)) == sum(terms) + term,
{
    assert(terms.push(term).drop_last() =~= terms);
}

/// The sum of two sequences, one after the other, is the sum of their sums.
pub proof fn lemma_sum_concat(first: Seq<nat>, second: Seq<nat>)
    ensures
        sum(first + second) == sum(first) + sum(second),
    decreases second.len(),
{
    if second.len() == 0 {
        assert(first + second =~= first);
    } else {
        lemma_sum_concat(first, second.drop_last());
        assert((first + second).drop_last() =~= first + second.drop_last());
    }
}

/// No term is larger than the sum.
pub proof fn lemma_sum_bounds_term(terms: Seq<nat>, i: int)
    requires
        0 <= i < terms.len(),
    ensures
        terms[i] <= sum(terms),
    decreases terms.len(),
{
    if i < terms.len() - 1 {
        lemma_sum_bounds_term(terms.drop_last(), i);
    }
}

/// The sum of the first terms is no larger than the sum of all.
pub proof fn lemma_sum_bounds_prefix(terms: Seq<nat>, n: int)
    requires
        0 <= n <= terms.len(),
    ensures
        sum(terms.take(n)) <= sum(terms),
{
    assert(terms.take(n) + terms.skip(n) =~= terms);
    lemma_sum_concat(terms.take(n), terms.skip(n));
}

/// A sum is zero exactly where every term is.
pub proof fn lemma_sum_zero(terms: Seq<nat>)
    ensures
        sum(terms) == 0 <==> forall|i: int| 0 <= i < terms.len() ==> terms[i] == 0,
    decreases terms.len(),
{
    if terms.len() > 0 {
        let front = terms.drop_last();
        lemma_sum_zero(front);
        if sum(terms) == 0 {
            assert forall|i: int| 0 <= i < terms.len() implies terms[i] == 0 by {
                if i < front.len() {
                    assert(front[i] == 0);
                }
            }
        } else if forall|i: int| 0 <= i < terms.len() ==> terms[i] == 0 {
            assert forall|i: int| 0 <= i < front.len() implies front[i] == 0 by {
                assert(terms[i] == 0);
            }
        }
    }
}

/// Taking one term out lowers the sum by that term.
pub proof fn lemma_sum_remove(terms: Seq<nat>, i: int)
    requires
        0 <= i < terms.len(),
    ensures
        sum(terms.remove(i)) + terms[i] == sum(terms),
{
    let before = terms.take(i);
    let after = terms.skip(i + 1);
    assert(terms.remove(i) =~= before + after);
    assert(terms =~= before.push(terms[i]) + after);
    lemma_sum_concat(before, after);
    lemma_sum_concat(before.push(terms[i]), after);
    lemma_sum_push(before, terms[i]);
}

/// The sum does not depend on the order of the terms.
pub proof fn lemma_sum_permutation(first: Seq<nat>, second: Seq<nat>)
    requires
        first.to_multiset() == second.to_multiset(),
    ensures
        sum(first) == sum(second),
    decreases first.len(),
{
    broadcast use vstd::seq_lib::group_to_multiset_ensures;

    first.to_multiset_ensures();
    second.to_multiset_ensures();
    if first.len() == 0 {
        assert(second.len() == 0);
    } else {
        let term = first.last();
        let front = first.drop_last();
        assert(first.to_multiset().count(term) > 0) by {
            assert(first.contains(term));
        }
        assert(second.contains(term));
        let i = choose|i: int| 0 <= i < second.len() && second[i] == term;
        assert(first.remove(first.len() - 1) =~= front);
        assert(front.to_multiset() =~= first.to_multiset().remove(term));
        assert(second.remove(i).to_multiset() =~= second.to_multiset().remove(term));
        lemma_sum_permutation(front, second.remove(i));
        lemma_sum_remove(second, i);
    }
}

} // verus!
