//! Rolling kernels over a chunk without a validity bitmap.
//!
//! Every row holds a value, so no bit is looked at: a row of the output is
//! null only where its window is shorter than `min_periods`.

use crate::array::{count_present, lemma_count_present_full, PrimitiveArray};
use crate::native::{NativeType, NumericNative};
use crate::rolling::compare::wins;
use crate::rolling::min_max::{extremum, pick, rolling_extremum_row};
use crate::rolling::nulls::{rolling_sum_row, sum_present};
use crate::rolling::window::{
    create_validity,
    lemma_window_bounds,
    window_end,
    window_len,
    window_offsets,
    window_start,
};
use crate::bitmap::MAX_ROWS;
use vstd::prelude::*;

verus! {

/// Sum of the values in rows `start..end` of a buffer without null rows.
pub fn compute_sum<T: NumericNative>(values: &[T], start: usize, end: usize) -> (sum: T)
    requires
        start <= end <= values@.len(),
    ensures
        sum == sum_present(
            Seq::new(values@.len(), |i: int| Some(values@[i])),
            start as int,
            end as int,
        ),
{
    let ghost rows = Seq::new(values@.len(), |i: int| Some(values@[i]));
    let mut sum: T = T::zero();
    let mut i: usize = start;
    while i < end
        invariant
            start <= i <= end <= values@.len(),
            rows == Seq::new(values@.len(), |i: int| Some(values@[i])),
            sum == sum_present(rows, start as int, i as int),
        decreases end - i,
    {
        sum = sum.add_wrapping(values[i]);
        i = i + 1;
    }
    sum
}

/// Maximum (`is_max`) or minimum of the values in rows `start..end` of a
/// buffer without null rows; nothing for an empty range.
pub fn compute_extremum<T: NativeType>(
    values: &[T],
    start: usize,
    end: usize,
    is_max: bool,
) -> (best: Option<T>)
    requires
        start <= end <= values@.len(),
    ensures
        best == extremum(
            Seq::new(values@.len(), |i: int| Some(values@[i])),
            start as int,
            end as int,
            is_max,
        ),
{
    let ghost rows = Seq::new(values@.len(), |i: int| Some(values@[i]));
    let mut best: Option<T> = None;
    let mut i: usize = start;
    while i < end
        invariant
            start <= i <= end <= values@.len(),
            rows == Seq::new(values@.len(), |i: int| Some(values@[i])),
            best == extremum(rows, start as int, i as int, is_max),
        decreases end - i,
    {
        let value: T = values[i];
        best = match best {
            None => Some(value),
            Some(m) => if wins(&value, &m, is_max) {
                Some(value)
            } else {
                Some(m)
            },
        };
        assert(best == pick(extremum(rows, start as int, i as int, is_max), value, is_max));
        i = i + 1;
    }
    best
}

/// Puts the output of a rolling kernel over a chunk without null rows
/// together from the aggregates of the windows, one for every row, that were
/// computed elsewhere. A row of the output is null if and only if its window
/// has fewer than `min_periods` rows; any other row is its aggregate.
pub fn rolling_assemble<K: NativeType>(
    aggregates: Vec<K>,
    window_size: usize,
    min_periods: usize,
    center: bool,
) -> (out: PrimitiveArray<K>)
    requires
        aggregates@.len() <= MAX_ROWS,
        1 <= window_size,
    ensures
        out@.len() == aggregates@.len(),
        forall|i: int|
            0 <= i < out@.len() ==> #[trigger] out@[i] == if window_len(
                center,
                i,
                window_size as int,
                out@.len() as int,
            ) < min_periods {
                None
            } else {
                Some(aggregates@[i])
            },
{
    let len: usize = aggregates.len();
    let ghost values = aggregates@;
    let marks = create_validity(min_periods, len, window_size, center);
    let array = match marks {
        Some(validity) => PrimitiveArray::from_data(
            aggregates,
            Some(arrow2::bitmap::Bitmap::from(validity)),
        ),
        None => PrimitiveArray::from_vec(aggregates),
    };
    assert forall|i: int| 0 <= i < array@.len() implies #[trigger] array@[i] == if window_len(
        center,
        i,
        window_size as int,
        array@.len() as int,
    ) < min_periods {
        None
    } else {
        Some(values[i])
    } by {
        lemma_window_bounds(center, i, window_size as int, len as int);
    }
    array
}

/// Rolling sum over a chunk without null rows.
pub fn rolling_sum<T: NumericNative>(
    arr: &PrimitiveArray<T>,
    window_size: usize,
    min_periods: usize,
    center: bool,
) -> (out: PrimitiveArray<T>)
    requires
        arr.mask().is_none(),
        1 <= window_size,
    ensures
        out@.len() == arr@.len(),
        forall|i: int|
            0 <= i < arr@.len() ==> #[trigger] out@[i] == rolling_sum_row(
                arr@,
                window_size as int,
                min_periods as int,
                center,
                i,
            ),
{
    let values = arr.values();
    let len: usize = arr.len();
    let ghost rows = arr@;
    assert(rows =~= Seq::new(values@.len(), |i: int| Some(values@[i])));
    let marks = create_validity(min_periods, len, window_size, center);
    let mut out: Vec<T> = Vec::with_capacity(len);
    let mut idx: usize = 0;
    while idx < len
        invariant
            len == values@.len(),
            1 <= window_size,
            rows == Seq::new(values@.len(), |i: int| Some(values@[i])),
            0 <= idx <= len,
            out@.len() == idx,
            forall|j: int|
                0 <= j < idx ==> #[trigger] out@[j] == sum_present(
                    rows,
                    window_start(center, j, window_size as int),
                    window_end(center, j, window_size as int, len as int),
                ),
        decreases len - idx,
    {
        let (start, end) = window_offsets(center, idx, window_size, len);
        out.push(compute_sum(values, start, end));
        idx = idx + 1;
    }
    let array = match marks {
        Some(validity) => PrimitiveArray::from_data(out, Some(arrow2::bitmap::Bitmap::from(validity))),
        None => PrimitiveArray::from_vec(out),
    };
    assert forall|i: int| 0 <= i < arr@.len() implies #[trigger] array@[i] == rolling_sum_row(
        arr@,
        window_size as int,
        min_periods as int,
        center,
        i,
    ) by {
        let start = window_start(center, i, window_size as int);
        let end = window_end(center, i, window_size as int, len as int);
        lemma_window_bounds(center, i, window_size as int, len as int);
        lemma_count_present_full(rows, start, end);
    }
    array
}

/// Rolling minimum or maximum over a chunk without null rows.
fn rolling_extremum<T: NativeType>(
    arr: &PrimitiveArray<T>,
    window_size: usize,
    min_periods: usize,
    center: bool,
    is_max: bool,
) -> (out: PrimitiveArray<T>)
    requires
        arr.mask().is_none(),
        1 <= window_size,
    ensures
        out@.len() == arr@.len(),
        forall|i: int|
            0 <= i < arr@.len() ==> #[trigger] out@[i] == rolling_extremum_row(
                arr@,
                window_size as int,
                min_periods as int,
                center,
                is_max,
                i,
            ),
{
    let values = arr.values();
    let len: usize = arr.len();
    let ghost rows = arr@;
    assert(rows =~= Seq::new(values@.len(), |i: int| Some(values@[i])));
    let marks = create_validity(min_periods, len, window_size, center);
    let mut out: Vec<T> = Vec::with_capacity(len);
    let mut idx: usize = 0;
    while idx < len
        invariant
            len == values@.len(),
            1 <= window_size,
            rows == Seq::new(values@.len(), |i: int| Some(values@[i])),
            0 <= idx <= len,
            out@.len() == idx,
            forall|j: int|
                0 <= j < idx ==> Some(#[trigger] out@[j]) == extremum(
                    rows,
                    window_start(center, j, window_size as int),
                    window_end(center, j, window_size as int, len as int),
                    is_max,
                ),
        decreases len - idx,
    {
        let (start, end) = window_offsets(center, idx, window_size, len);
        let best = compute_extremum(values, start, end, is_max);
        proof {
            crate::rolling::min_max::lemma_extremum_exists(rows, start as int, end as int, is_max);
            lemma_count_present_full(rows, start as int, end as int);
        }
        out.push(best.unwrap());
        idx = idx + 1;
    }
    let array = match marks {
        Some(validity) => PrimitiveArray::from_data(out, Some(arrow2::bitmap::Bitmap::from(validity))),
        None => PrimitiveArray::from_vec(out),
    };
    assert forall|i: int| 0 <= i < arr@.len() implies #[trigger] array@[i]
        == rolling_extremum_row(
        arr@,
        window_size as int,
        min_periods as int,
        center,
        is_max,
        i,
    ) by {
        let start = window_start(center, i, window_size as int);
        let end = window_end(center, i, window_size as int, len as int);
        lemma_window_bounds(center, i, window_size as int, len as int);
        lemma_count_present_full(rows, start, end);
    }
    array
}

/// Rolling minimum over a chunk without null rows.
pub fn rolling_min<T: NativeType>(
    arr: &PrimitiveArray<T>,
    window_size: usize,
    min_periods: usize,
    center: bool,
) -> (out: PrimitiveArray<T>)
    requires
        arr.mask().is_none(),
        1 <= window_size,
    ensures
        out@.len() == arr@.len(),
        forall|i: int|
            0 <= i < arr@.len() ==> #[trigger] out@[i] == rolling_extremum_row(
                arr@,
                window_size as int,
                min_periods as int,
                center,
                false,
                i,
            ),
{
    rolling_extremum(arr, window_size, min_periods, center, false)
}

/// Rolling maximum over a chunk without null rows.
pub fn rolling_max<T: NativeType>(
    arr: &PrimitiveArray<T>,
    window_size: usize,
    min_periods: usize,
    center: bool,
) -> (out: PrimitiveArray<T>)
    requires
        arr.mask().is_none(),
        1 <= window_size,
    ensures
        out@.len() == arr@.len(),
        forall|i: int|
            0 <= i < arr@.len() ==> #[trigger] out@[i] == rolling_extremum_row(
                arr@,
                window_size as int,
                min_periods as int,
                center,
                true,
                i,
            ),
{
    rolling_extremum(arr, window_size, min_periods, center, true)
}

} // verus!
