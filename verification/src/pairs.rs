//! Pairs of values, in the order in which two nested loops visit them.

use itertools::Itertools;
use vstd::arithmetic::div_mod::{lemma_fundamental_div_mod_converse, lemma_multiply_divide_lt};
use vstd::prelude::*;

verus! {

/// Whether `pairs` holds every pair of a value of `first` and a value of
/// `second`, the pairs of the first value of `first` first, each block in
/// the order of `second`.
pub open spec fn is_product<A, B>(pairs: Seq<(A, B)>, first: Seq<A>, second: Seq<B>) -> bool {
    &&& pairs.len() == first.len() * second.len()
    &&& forall|k: int|
        0 <= k < pairs.len() ==> #[trigger] pairs[k] == (
            first[k / (second.len() as int)],
            second[k % (second.len() as int)],
        )
}

/// Every pair of a value of `first` and a value of `second`, in the order
/// of two nested loops with `first` outside.
///
/// This is `Itertools::cartesian_product` on the two lists, collected. Its
/// contract restates what that adaptor yields and is not proved here.
#[verifier::external_body]
pub(crate) fn cartesian_product<A: Copy, B: Copy>(first: &Vec<A>, second: &Vec<B>) -> (pairs: Vec<
    (A, B),
>)
    requires
        first@.len() * second@.len() <= usize::MAX,
    ensures
        is_product(pairs@, first@, second@),
{
    first.iter().cloned().cartesian_product(second.iter().cloned()).collect()
}

/// A product holds a pair if and only if the first list holds the pair's
/// first value and the second list its second.
pub proof fn lemma_product_members<A, B>(pairs: Seq<(A, B)>, first: Seq<A>, second: Seq<B>)
    requires
        is_product(pairs, first, second),
    ensures
        forall|pair: (A, B)| #[trigger]
            pairs.contains(pair) <==> first.contains(pair.0) && second.contains(pair.1),
{
    let width = second.len() as int;
    assert forall|pair: (A, B)| #[trigger]
        pairs.contains(pair) <==> first.contains(pair.0) && second.contains(pair.1) by {
        if pairs.contains(pair) {
            let k = choose|k: int| 0 <= k < pairs.len() && pairs[k] == pair;
            assert(width > 0) by (nonlinear_arith)
                requires
                    first.len() * width > 0,
            ;
            assert(k < width * first.len()) by (nonlinear_arith)
                requires
                    k < first.len() * width,
            ;
            lemma_multiply_divide_lt(k, width, first.len() as int);
            assert(0 <= k / width) by (nonlinear_arith)
                requires
                    0 <= k,
                    width > 0,
            ;
        }
        if first.contains(pair.0) && second.contains(pair.1) {
            let i = choose|i: int| 0 <= i < first.len() && first[i] == pair.0;
            let j = choose|j: int| 0 <= j < second.len() && second[j] == pair.1;
            let k = i * width + j;
            assert(0 <= k < first.len() * width) by (nonlinear_arith)
                requires
                    0 <= i < first.len(),
                    0 <= j < width,
                    k == i * width + j,
            ;
            lemma_fundamental_div_mod_converse(k, width, i, j);
            assert(pairs[k] == pair);
        }
    }
}

/// The integers from `low` to `high`, both included, in rising order.
pub fn inclusive_range(low: isize, high: isize) -> (values: Vec<isize>)
    requires
        low <= high,
        high - low < usize::MAX,
    ensures
        values@.len() == high - low + 1,
        forall|i: int| 0 <= i < values@.len() ==> values@[i] == low + i,
        forall|value: isize| #[trigger] values@.contains(value) <==> low <= value <= high,
{
    let mut values: Vec<isize> = Vec::new();
    let mut next: isize = low;
    while next < high
        invariant
            low <= next <= high,
            values@.len() == next - low,
            forall|i: int| 0 <= i < values@.len() ==> values@[i] == low + i,
        decreases high - next,
    {
        values.push(next);
        next = next + 1;
    }
    values.push(high);
    assert forall|value: isize| #[trigger] values@.contains(value) <==> low <= value <= high by {
        if low <= value <= high {
            assert(values@[value - low] == value);
        }
    }
    values
}

} // verus!
