//! Position-wise pairing of the current elements with the new data items.
use vstd::prelude::*;
use std::collections::VecDeque;
use itertools::{EitherOrBoth, Itertools};

verus! {

/// What one position holds when two sequences are walked side by side up to
/// the length of the longer one.
pub enum Pair<T, A> {
    /// An element and a data item.
    Both(T, A),
    /// An element, and no data item: the data ran out.
    Left(T),
    /// A data item, and no element: the elements ran out.
    Right(A),
}

/// The larger of two lengths.
pub open spec fn longer(m: nat, n: nat) -> nat {
    if m < n { n } else { m }
}

/// The pair at position `i` of the walk over `elements` and `items`.
pub open spec fn pair_at<T, A>(elements: Seq<T>, items: Seq<A>, i: int) -> Pair<T, A> {
    if i < elements.len() && i < items.len() {
        Pair::Both(elements[i], items[i])
    } else if i < elements.len() {
        Pair::Left(elements[i])
    } else {
        Pair::Right(items[i])
    }
}

/// The whole walk: one pair for each position below the longer length.
pub open spec fn zipped<T, A>(elements: Seq<T>, items: Seq<A>) -> Seq<Pair<T, A>> {
    Seq::new(longer(elements.len(), items.len()), |i: int| pair_at(elements, items, i))
}

/// Relies on `itertools::Itertools::zip_longest`: it yields `Both` while both
/// inputs last, then `Left` for the rest of the first input, or `Right` for
/// the rest of the second, and ends when both are exhausted.
#[verifier::external_body]
pub(crate) fn zip_longest<T, A>(elements: Vec<T>, items: Vec<A>) -> (r: VecDeque<Pair<T, A>>)
    ensures
        r@ == zipped(elements@, items@),
{
    elements.into_iter().zip_longest(items).map(|p| match p {
        EitherOrBoth::Both(t, a) => Pair::Both(t, a),
        EitherOrBoth::Left(t) => Pair::Left(t),
        EitherOrBoth::Right(a) => Pair::Right(a),
    }).collect()
}

} // verus!
