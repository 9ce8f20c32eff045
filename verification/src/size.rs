//! The size algebra: sums and maxima of optional size bounds.
//!
//! A bound of `None` stands for "unbounded": the footprint depends on the
//! data and cannot be known ahead of time. Unboundedness is contagious, and
//! a sum that does not fit the machine word is reported as unbounded rather
//! than wrapped.

use vstd::prelude::*;

verus! {

/// The sum of two bounds: unbounded when either operand is unbounded or when
/// the arithmetic sum exceeds `usize::MAX`.
pub open spec fn spec_sum_size(a: Option<usize>, b: Option<usize>) -> Option<usize> {
    match (a, b) {
        (Some(x), Some(y)) => if x + y <= usize::MAX {
            Some((x + y) as usize)
        } else {
            None
        },
        _ => None,
    }
}

/// The larger of two bounds: unbounded when either operand is unbounded.
pub open spec fn spec_max_size(a: Option<usize>, b: Option<usize>) -> Option<usize> {
    match (a, b) {
        (Some(x), Some(y)) => if x >= y {
            Some(x)
        } else {
            Some(y)
        },
        _ => None,
    }
}

/// Adds two size bounds.
pub fn sum_size(a: Option<usize>, b: Option<usize>) -> (r: Option<usize>)
    ensures
        r == spec_sum_size(a, b),
{
    match (a, b) {
        (Some(x), Some(y)) => x.checked_add(y),
        _ => None,
    }
}

/// Takes the larger of two size bounds.
pub fn max_size(a: Option<usize>, b: Option<usize>) -> (r: Option<usize>)
    ensures
        r == spec_max_size(a, b),
{
    match (a, b) {
        (Some(x), Some(y)) => if x >= y {
            Some(x)
        } else {
            Some(y)
        },
        _ => None,
    }
}

/// An unbounded operand makes the sum unbounded, on either side.
pub proof fn lemma_sum_size_unbounded(x: Option<usize>)
    ensures
        spec_sum_size(None, x) == None::<usize>,
        spec_sum_size(x, None) == None::<usize>,
{
}

/// An unbounded operand makes the maximum unbounded, on either side.
pub proof fn lemma_max_size_unbounded(x: Option<usize>)
    ensures
        spec_max_size(None, x) == None::<usize>,
        spec_max_size(x, None) == None::<usize>,
{
}

/// Zero is the neutral element of both operations.
pub proof fn lemma_size_zero_neutral(x: Option<usize>)
    ensures
        spec_sum_size(Some(0), x) == x,
        spec_sum_size(x, Some(0)) == x,
        spec_max_size(Some(0), x) == x,
        spec_max_size(x, Some(0)) == x,
{
}

/// `sum_size` is commutative.
pub proof fn lemma_sum_size_commutative(a: Option<usize>, b: Option<usize>)
    ensures
        spec_sum_size(a, b) == spec_sum_size(b, a),
{
}

/// `sum_size` is associative.
pub proof fn lemma_sum_size_associative(a: Option<usize>, b: Option<usize>, c: Option<usize>)
    ensures
        spec_sum_size(spec_sum_size(a, b), c) == spec_sum_size(a, spec_sum_size(b, c)),
{
}

/// `max_size` is commutative.
pub proof fn lemma_max_size_commutative(a: Option<usize>, b: Option<usize>)
    ensures
        spec_max_size(a, b) == spec_max_size(b, a),
{
}

/// `max_size` is associative.
pub proof fn lemma_max_size_associative(a: Option<usize>, b: Option<usize>, c: Option<usize>)
    ensures
        spec_max_size(spec_max_size(a, b), c) == spec_max_size(a, spec_max_size(b, c)),
{
}

/// The sum of a list of bounds, folded from the first to the last starting
/// at zero.
pub open spec fn spec_sum_fold(bounds: Seq<Option<usize>>) -> Option<usize>
    decreases bounds.len(),
{
    if bounds.len() == 0 {
        Some(0)
    } else {
        spec_sum_size(spec_sum_fold(bounds.drop_last()), bounds.last())
    }
}

/// Folding two lists one after the other gives what `sum_size` makes of
/// their two folds.
pub proof fn lemma_sum_fold_concat(first: Seq<Option<usize>>, second: Seq<Option<usize>>)
    ensures
        spec_sum_fold(first + second) == spec_sum_size(
            spec_sum_fold(first),
            spec_sum_fold(second),
        ),
    decreases second.len(),
{
    if second.len() == 0 {
        assert(first + second =~= first);
    } else {
        lemma_sum_fold_concat(first, second.drop_last());
        assert((first + second).drop_last() =~= first + second.drop_last());
    }
}

/// Taking one bound out of a list and putting it last does not change the
/// fold.
pub proof fn lemma_sum_fold_remove(bounds: Seq<Option<usize>>, index: int)
    requires
        0 <= index < bounds.len(),
    ensures
        spec_sum_fold(bounds) == spec_sum_size(
            spec_sum_fold(bounds.remove(index)),
            bounds[index],
        ),
{
    let front = bounds.take(index);
    let back = bounds.skip(index + 1);
    let taken = front.push(bounds[index]);
    assert(taken.drop_last() =~= front);
    assert(taken + back =~= bounds);
    assert(front + back =~= bounds.remove(index));
    lemma_sum_fold_concat(taken, back);
    lemma_sum_fold_concat(front, back);
}

/// The fold does not depend on the order of the bounds: two lists that
/// hold the same bounds, each as often as the other, fold to the same
/// bound.
pub proof fn lemma_sum_fold_order(first: Seq<Option<usize>>, second: Seq<Option<usize>>)
    requires
        first.to_multiset() == second.to_multiset(),
    ensures
        spec_sum_fold(first) == spec_sum_fold(second),
    decreases first.len(),
{
    broadcast use vstd::multiset::group_multiset_axioms;

    vstd::seq_lib::to_multiset_len(first);
    vstd::seq_lib::to_multiset_len(second);
    if first.len() == 0 {
        assert(second =~= Seq::<Option<usize>>::empty());
        assert(first =~= Seq::<Option<usize>>::empty());
    } else {
        let last = first.last();
        let at = first.len() - 1;
        vstd::seq_lib::to_multiset_contains(first, last);
        vstd::seq_lib::to_multiset_contains(second, last);
        assert(first[at] == last);
        assert(first.contains(last));
        assert(second.contains(last));
        let index = choose|index: int| 0 <= index < second.len() && second[index] == last;
        vstd::seq_lib::to_multiset_remove(first, at);
        vstd::seq_lib::to_multiset_remove(second, index);
        assert(first.remove(at) =~= first.drop_last());
        lemma_sum_fold_order(first.drop_last(), second.remove(index));
        lemma_sum_fold_remove(second, index);
    }
}

/// The largest of a list of bounds, folded from the first to the last starting
/// at zero.
pub open spec fn spec_max_fold(bounds: Seq<Option<usize>>) -> Option<usize>
    decreases bounds.len(),
{
    if bounds.len() == 0 {
        Some(0)
    } else {
        spec_max_size(spec_max_fold(bounds.drop_last()), bounds.last())
    }
}

/// Folding two lists one after the other gives what `max_size` makes of
/// their two folds.
pub proof fn lemma_max_fold_concat(first: Seq<Option<usize>>, second: Seq<Option<usize>>)
    ensures
        spec_max_fold(first + second) == spec_max_size(
            spec_max_fold(first),
            spec_max_fold(second),
        ),
    decreases second.len(),
{
    if second.len() == 0 {
        assert(first + second =~= first);
    } else {
        lemma_max_fold_concat(first, second.drop_last());
        assert((first + second).drop_last() =~= first + second.drop_last());
    }
}

/// Taking one bound out of a list and putting it last does not change the
/// fold.
pub proof fn lemma_max_fold_remove(bounds: Seq<Option<usize>>, index: int)
    requires
        0 <= index < bounds.len(),
    ensures
        spec_max_fold(bounds) == spec_max_size(
            spec_max_fold(bounds.remove(index)),
            bounds[index],
        ),
{
    let front = bounds.take(index);
    let back = bounds.skip(index + 1);
    let taken = front.push(bounds[index]);
    assert(taken.drop_last() =~= front);
    assert(taken + back =~= bounds);
    assert(front + back =~= bounds.remove(index));
    lemma_max_fold_concat(taken, back);
    lemma_max_fold_concat(front, back);
}

/// The fold does not depend on the order of the bounds: two lists that
/// hold the same bounds, each as often as the other, fold to the same
/// bound.
pub proof fn lemma_max_fold_order(first: Seq<Option<usize>>, second: Seq<Option<usize>>)
    requires
        first.to_multiset() == second.to_multiset(),
    ensures
        spec_max_fold(first) == spec_max_fold(second),
    decreases first.len(),
{
    broadcast use vstd::multiset::group_multiset_axioms;

    vstd::seq_lib::to_multiset_len(first);
    vstd::seq_lib::to_multiset_len(second);
    if first.len() == 0 {
        assert(second =~= Seq::<Option<usize>>::empty());
        assert(first =~= Seq::<Option<usize>>::empty());
    } else {
        let last = first.last();
        let at = first.len() - 1;
        vstd::seq_lib::to_multiset_contains(first, last);
        vstd::seq_lib::to_multiset_contains(second, last);
        assert(first[at] == last);
        assert(first.contains(last));
        assert(second.contains(last));
        let index = choose|index: int| 0 <= index < second.len() && second[index] == last;
        vstd::seq_lib::to_multiset_remove(first, at);
        vstd::seq_lib::to_multiset_remove(second, index);
        assert(first.remove(at) =~= first.drop_last());
        lemma_max_fold_order(first.drop_last(), second.remove(index));
        lemma_max_fold_remove(second, index);
    }
}

/// The arithmetic sum of a list of bounds, an unbounded one counting as
/// nothing.
pub open spec fn spec_total(bounds: Seq<Option<usize>>) -> nat
    decreases bounds.len(),
{
    if bounds.len() == 0 {
        0
    } else {
        spec_total(bounds.drop_last()) + match bounds.last() {
            Some(bound) => bound as nat,
            None => 0,
        }
    }
}

/// Where every bound of a list is bounded, the list folds to their
/// arithmetic sum where that fits the machine word, and to unbounded where
/// it does not.
pub proof fn lemma_sum_fold_is_total(bounds: Seq<Option<usize>>)
    requires
        forall|i: int| 0 <= i < bounds.len() ==> (#[trigger] bounds[i]) is Some,
    ensures
        spec_sum_fold(bounds) == if spec_total(bounds) <= usize::MAX {
            Some(spec_total(bounds) as usize)
        } else {
            None
        },
    decreases bounds.len(),
{
    if bounds.len() > 0 {
        lemma_sum_fold_is_total(bounds.drop_last());
    }
}

} // verus!
