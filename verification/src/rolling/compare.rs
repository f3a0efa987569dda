//! Comparisons that stay total in the presence of NaN.
//!
//! Values that are not NaN compare by their rank. NaN never wins: for a
//! minimum it counts as greater than every number, for a maximum as less than
//! every number, and two NaN are equal. Sorting puts NaN last.

use crate::native::NativeType;
use std::cmp::Ordering;
use vstd::prelude::*;

verus! {

/// The order of two values by rank.
pub open spec fn rank_order(a: int, b: int) -> Ordering {
    if a < b {
        Ordering::Less
    } else if a > b {
        Ordering::Greater
    } else {
        Ordering::Equal
    }
}

/// The order used to pick a minimum: NaN is greater than every number.
pub open spec fn nan_min_order<T: NativeType>(a: T, b: T) -> Ordering {
    if a.is_nan_spec() && b.is_nan_spec() {
        Ordering::Equal
    } else if a.is_nan_spec() {
        Ordering::Greater
    } else if b.is_nan_spec() {
        Ordering::Less
    } else {
        rank_order(a.rank(), b.rank())
    }
}

/// The order used to pick a maximum: NaN is less than every number.
pub open spec fn nan_max_order<T: NativeType>(a: T, b: T) -> Ordering {
    if a.is_nan_spec() && b.is_nan_spec() {
        Ordering::Equal
    } else if a.is_nan_spec() {
        Ordering::Less
    } else if b.is_nan_spec() {
        Ordering::Greater
    } else {
        rank_order(a.rank(), b.rank())
    }
}

/// Whether `a` wins against `b`: `a` is a number, and `b` is NaN or loses by
/// rank (is greater for a minimum, less for a maximum).
pub open spec fn beats<T: NativeType>(a: T, b: T, is_max: bool) -> bool {
    !a.is_nan_spec() && (b.is_nan_spec() || if is_max {
        a.rank() > b.rank()
    } else {
        a.rank() < b.rank()
    })
}

/// Whether `a` comes strictly before `b` in sorted order, where NaN comes
/// last.
pub open spec fn sorts_before<T: NativeType>(a: T, b: T) -> bool {
    beats(a, b, false)
}

/// Compares two values that are not NaN.
fn compare_numbers<T: NativeType>(a: &T, b: &T) -> (order: Ordering)
    requires
        !a.is_nan_spec(),
        !b.is_nan_spec(),
    ensures
        order == rank_order(a.rank(), b.rank()),
{
    if a.less_than(b) {
        Ordering::Less
    } else if b.less_than(a) {
        Ordering::Greater
    } else {
        Ordering::Equal
    }
}

/// Compares for a minimum: NaN is greater than every number, so that it is
/// never the minimum of a window that holds a number.
pub fn compare_fn_nan_min<T: NativeType>(a: &T, b: &T) -> (order: Ordering)
    ensures
        order == nan_min_order(*a, *b),
        order == Ordering::Less <==> beats(*a, *b, false),
{
    if T::is_float() {
        match (a.is_nan(), b.is_nan()) {
            (false, false) => compare_numbers(a, b),
            (true, true) => Ordering::Equal,
            (true, false) => Ordering::Greater,
            (false, true) => Ordering::Less,
        }
    } else {
        proof {
            T::lemma_integers_have_no_nan(*a);
            T::lemma_integers_have_no_nan(*b);
        }
        compare_numbers(a, b)
    }
}

/// Compares for a maximum: NaN is less than every number, so that it is never
/// the maximum of a window that holds a number.
pub fn compare_fn_nan_max<T: NativeType>(a: &T, b: &T) -> (order: Ordering)
    ensures
        order == nan_max_order(*a, *b),
        order == Ordering::Greater <==> beats(*a, *b, true),
{
    if T::is_float() {
        match (a.is_nan(), b.is_nan()) {
            (false, false) => compare_numbers(a, b),
            (true, true) => Ordering::Equal,
            (true, false) => Ordering::Less,
            (false, true) => Ordering::Greater,
        }
    } else {
        proof {
            T::lemma_integers_have_no_nan(*a);
            T::lemma_integers_have_no_nan(*b);
        }
        compare_numbers(a, b)
    }
}

/// Whether `a` wins against `b` for a maximum (`is_max`) or a minimum.
pub fn wins<T: NativeType>(a: &T, b: &T, is_max: bool) -> (won: bool)
    ensures
        won == beats(*a, *b, is_max),
{
    if is_max {
        match compare_fn_nan_max(a, b) {
            Ordering::Greater => true,
            _ => false,
        }
    } else {
        match compare_fn_nan_min(a, b) {
            Ordering::Less => true,
            _ => false,
        }
    }
}

/// Whether no value comes strictly before a value that stands earlier: the
/// values are in sorted order, NaN last.
pub open spec fn is_sorted_values<T: NativeType>(values: Seq<T>) -> bool {
    forall|i: int, j: int|
        0 <= i < j < values.len() ==> !sorts_before(#[trigger] values[j], #[trigger] values[i])
}

/// Whether `perm` names every place below `n` exactly once.
pub open spec fn is_permutation(perm: Seq<int>, n: nat) -> bool {
    &&& perm.len() == n
    &&& forall|k: int| 0 <= k < n ==> 0 <= #[trigger] perm[k] < n
    &&& forall|j: int, k: int| 0 <= j < k < n ==> #[trigger] perm[j] != #[trigger] perm[k]
}

/// Whether `after` holds the items of `before` in another order: place `k`
/// of `after` holds the item of place `perm[k]` of `before`.
pub open spec fn is_rearranged<E>(after: Seq<E>, before: Seq<E>, perm: Seq<int>) -> bool {
    &&& is_permutation(perm, before.len())
    &&& after.len() == before.len()
    &&& forall|k: int| 0 <= k < after.len() ==> #[trigger] after[k] == before[perm[k]]
}

/// The values of the pairs.
pub open spec fn first_parts<T>(pairs: Seq<(T, usize)>) -> Seq<T> {
    Seq::new(pairs.len(), |k: int| pairs[k].0)
}

/// Sorts pairs by their values with `sort_by` of the standard library, under
/// the order in which NaN is greater than every number. The buffer holds the
/// same pairs afterwards, in an order in which their values are sorted.
#[verifier::external_body]
pub(crate) fn sort_pairs<T: NativeType>(buf: &mut Vec<(T, usize)>)
    ensures
        exists|perm: Seq<int>| #[trigger] is_rearranged(final(buf)@, old(buf)@, perm),
        is_sorted_values(first_parts(final(buf)@)),
{
    buf.sort_by(|a, b| compare_fn_nan_min(&a.0, &b.0));
}

/// Sorts the buffer in place, NaN last. The buffer holds the same values
/// afterwards, each as often as before, in sorted order.
pub fn sort_buf<T: NativeType>(buf: &mut Vec<T>)
    ensures
        exists|perm: Seq<int>| #[trigger] is_rearranged(final(buf)@, old(buf)@, perm),
        is_sorted_values(final(buf)@),
{
    let n: usize = buf.len();
    let ghost before = buf@;
    let mut pairs: Vec<(T, usize)> = Vec::with_capacity(n);
    let mut i: usize = 0;
    while i < n
        invariant
            n == buf@.len(),
            0 <= i <= n,
            pairs@.len() == i,
            forall|j: int| 0 <= j < i ==> (#[trigger] pairs@[j]).0 == buf@[j],
        decreases n - i,
    {
        pairs.push((buf[i], i));
        i = i + 1;
    }
    let ghost unsorted = pairs@;
    sort_pairs(&mut pairs);
    let ghost perm = choose|perm: Seq<int>| #[trigger] is_rearranged(pairs@, unsorted, perm);
    let mut out: Vec<T> = Vec::with_capacity(n);
    let mut k: usize = 0;
    while k < n
        invariant
            n == pairs@.len(),
            0 <= k <= n,
            out@.len() == k,
            forall|j: int| 0 <= j < k ==> #[trigger] out@[j] == pairs@[j].0,
        decreases n - k,
    {
        out.push(pairs[k].0);
        k = k + 1;
    }
    *buf = out;
    proof {
        assert(buf@ =~= first_parts(pairs@));
        assert(is_rearranged(buf@, before, perm)) by {
            assert forall|j: int| 0 <= j < buf@.len() implies #[trigger] buf@[j]
                == before[perm[j]] by {
                assert(pairs@[j] == unsorted[perm[j]]);
            }
        }
    }
}

} // verus!
