//! Rolling window aggregation over nullable buffers.
//!
//! The kernels of this module take a chunk with or without a validity bitmap
//! and hand it to the kernels for the one or the other.

pub mod compare;
pub mod min_max;
pub mod no_nulls;
pub mod nulls;
pub mod window;

use crate::array::{count_present, PrimitiveArray};
use crate::native::{NativeType, NumericNative};
use crate::rolling::min_max::{lemma_rolling_extremum_null, rolling_extremum_row};
use crate::rolling::nulls::rolling_sum_row;
use crate::rolling::window::{window_end, window_start};
use vstd::prelude::*;

verus! {

/// Rolling sum. Row `i` of the output is null if and only if the window of
/// row `i` holds fewer than `min_periods` values; otherwise it is the sum of
/// the values of that window, wrapped into the range of the type.
pub fn rolling_sum<T: NumericNative>(
    arr: &PrimitiveArray<T>,
    window_size: usize,
    min_periods: usize,
    center: bool,
) -> (out: PrimitiveArray<T>)
    requires
        1 <= window_size,
    ensures
        out@.len() == arr@.len(),
        forall|i: int|
            0 <= i < arr@.len() ==> #[trigger] out@[i] == rolling_sum_row(
                arr@,
                window_size as int,
                min_periods as int,
                center,
                i,
            ),
        forall|i: int|
            0 <= i < arr@.len() ==> ((#[trigger] out@[i]).is_none() <==> count_present(
                arr@,
                window_start(center, i, window_size as int),
                window_end(center, i, window_size as int, arr@.len() as int),
            ) < min_periods),
{
    if arr.has_validity() {
        nulls::rolling_sum(arr, window_size, min_periods, center)
    } else {
        no_nulls::rolling_sum(arr, window_size, min_periods, center)
    }
}

/// Rolling minimum. Row `i` of the output is null where the window of row
/// `i` holds fewer than `min_periods` values or no value at all; otherwise it
/// is the minimum of the values of that window, where NaN counts as greater
/// than every number. With `min_periods >= 1` the row is null if and only if
/// the window holds fewer than `min_periods` values.
pub fn rolling_min<T: NativeType>(
    arr: &PrimitiveArray<T>,
    window_size: usize,
    min_periods: usize,
    center: bool,
) -> (out: PrimitiveArray<T>)
    requires
        1 <= window_size,
    ensures
        out@.len() == arr@.len(),
        forall|i: int|
            0 <= i < arr@.len() ==> #[trigger] out@[i] == rolling_extremum_row(
                arr@,
                window_size as int,
                min_periods as int,
                center,
                false,
                i,
            ),
        min_periods >= 1 ==> forall|i: int|
            0 <= i < arr@.len() ==> ((#[trigger] out@[i]).is_none() <==> count_present(
                arr@,
                window_start(center, i, window_size as int),
                window_end(center, i, window_size as int, arr@.len() as int),
            ) < min_periods),
{
    let out = if arr.has_validity() {
        min_max::rolling_min(arr, window_size, min_periods, center)
    } else {
        no_nulls::rolling_min(arr, window_size, min_periods, center)
    };
    proof {
        if min_periods >= 1 {
            assert forall|i: int| 0 <= i < arr@.len() implies ((#[trigger] out@[i]).is_none()
                <==> count_present(
                arr@,
                window_start(center, i, window_size as int),
                window_end(center, i, window_size as int, arr@.len() as int),
            ) < min_periods) by {
                lemma_rolling_extremum_null(
                    arr@,
                    window_size as int,
                    min_periods as int,
                    center,
                    false,
                    i,
                );
            }
        }
    }
    out
}

/// Rolling maximum. Row `i` of the output is null where the window of row
/// `i` holds fewer than `min_periods` values or no value at all; otherwise it
/// is the maximum of the values of that window, where NaN counts as less
/// than every number. With `min_periods >= 1` the row is null if and only if
/// the window holds fewer than `min_periods` values.
pub fn rolling_max<T: NativeType>(
    arr: &PrimitiveArray<T>,
    window_size: usize,
    min_periods: usize,
    center: bool,
) -> (out: PrimitiveArray<T>)
    requires
        1 <= window_size,
    ensures
        out@.len() == arr@.len(),
        forall|i: int|
            0 <= i < arr@.len() ==> #[trigger] out@[i] == rolling_extremum_row(
                arr@,
                window_size as int,
                min_periods as int,
                center,
                true,
                i,
            ),
        min_periods >= 1 ==> forall|i: int|
            0 <= i < arr@.len() ==> ((#[trigger] out@[i]).is_none() <==> count_present(
                arr@,
                window_start(center, i, window_size as int),
                window_end(center, i, window_size as int, arr@.len() as int),
            ) < min_periods),
{
    let out = if arr.has_validity() {
        min_max::rolling_max(arr, window_size, min_periods, center)
    } else {
        no_nulls::rolling_max(arr, window_size, min_periods, center)
    };
    proof {
        if min_periods >= 1 {
            assert forall|i: int| 0 <= i < arr@.len() implies ((#[trigger] out@[i]).is_none()
                <==> count_present(
                arr@,
                window_start(center, i, window_size as int),
                window_end(center, i, window_size as int, arr@.len() as int),
            ) < min_periods) by {
                lemma_rolling_extremum_null(
                    arr@,
                    window_size as int,
                    min_periods as int,
                    center,
                    true,
                    i,
                );
            }
        }
    }
    out
}

} // verus!
