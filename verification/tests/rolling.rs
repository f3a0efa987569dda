use polars::array::PrimitiveArray;
use arrow2::bitmap::Bitmap;
use polars::bitmap::to_bools;
use polars::native::{Float64, NativeType};
use polars::rolling::compare::{compare_fn_nan_max, compare_fn_nan_min, wins};
use polars::rolling::min_max::{rolling_max, rolling_min};
use polars::rolling::nulls::{compute_sum, rolling_sum};
use polars::rolling::window::{create_validity, det_offsets, det_offsets_center, window_offsets};
use std::cmp::Ordering;

fn float(x: f64) -> Float64 {
    Float64::from_bits(x.to_bits())
}

fn as_floats(rows: Vec<Option<Float64>>) -> Vec<Option<f64>> {
    rows.into_iter()
        .map(|row| row.map(|v| f64::from_bits(v.to_bits())))
        .collect()
}

fn column() -> PrimitiveArray<i64> {
    PrimitiveArray::from_data(
        vec![1, 2, 3, 4],
        Some(Bitmap::from(&[true, false, true, true])),
    )
}

#[test]
fn test_rolling_sum_nulls() {
    let arr = &column();

    let out = rolling_sum(arr, 2, 2, false).to_options();
    assert_eq!(out, &[None, None, None, Some(7)]);

    let out = rolling_sum(arr, 2, 1, false).to_options();
    assert_eq!(out, &[Some(1), Some(1), Some(3), Some(7)]);

    let out = rolling_sum(arr, 4, 1, false).to_options();
    assert_eq!(out, &[Some(1), Some(1), Some(4), Some(8)]);

    let out = rolling_sum(arr, 4, 1, true).to_options();
    assert_eq!(out, &[Some(1), Some(4), Some(8), Some(7)]);

    let out = rolling_sum(arr, 4, 4, true).to_options();
    assert_eq!(out, &[None, None, None, None]);
}

#[test]
fn test_rolling_max_no_nulls() {
    let values = vec![float(1.0), float(2.0), float(3.0), float(4.0)];
    let arr = &PrimitiveArray::from_data(values, Some(Bitmap::from(&[true, true, true, true])));

    let out = as_floats(rolling_max(arr, 4, 1, false).to_options());
    assert_eq!(out, &[Some(1.0), Some(2.0), Some(3.0), Some(4.0)]);

    let out = as_floats(rolling_max(arr, 2, 2, false).to_options());
    assert_eq!(out, &[None, Some(2.0), Some(3.0), Some(4.0)]);

    let out = as_floats(rolling_max(arr, 4, 4, false).to_options());
    assert_eq!(out, &[None, None, None, Some(4.0)]);
}

#[test]
fn rolling_sum_window_two_min_periods_two() {
    let out = rolling_sum(&column(), 2, 2, false).to_options();
    assert_eq!(out, vec![None, None, None, Some(7)]);
}

#[test]
fn rolling_sum_window_two_min_periods_one() {
    let out = rolling_sum(&column(), 2, 1, false).to_options();
    assert_eq!(out, vec![Some(1), Some(1), Some(3), Some(7)]);
}

#[test]
fn rolling_sum_centered_window_four() {
    let out = rolling_sum(&column(), 4, 1, true).to_options();
    assert_eq!(out, vec![Some(1), Some(4), Some(8), Some(7)]);
}

#[test]
fn rolling_sum_centered_window_four_min_periods_four() {
    let out = rolling_sum(&column(), 4, 4, true).to_options();
    assert_eq!(out, vec![None, None, None, None]);
}

#[test]
fn rolling_max_window_two_min_periods_two() {
    let arr = PrimitiveArray::from_data(
        vec![1i64, 2, 3, 4],
        Some(Bitmap::from(&[true, true, true, true])),
    );
    let out = rolling_max(&arr, 2, 2, false).to_options();
    assert_eq!(out, vec![None, Some(2), Some(3), Some(4)]);
}

#[test]
fn rolling_output_is_null_exactly_where_too_few_values() {
    let rows = [Some(5i32), None, None, Some(2), Some(9), None, Some(1)];
    let arr = PrimitiveArray::from_options(&rows);
    for center in [false, true] {
        for window in 1..=5usize {
            for min_periods in 0..=5usize {
                let sum = rolling_sum(&arr, window, min_periods, center).to_options();
                let max = rolling_max(&arr, window, min_periods, center).to_options();
                for i in 0..rows.len() {
                    let (start, end) = window_offsets(center, i, window, rows.len());
                    let valid = rows[start..end].iter().filter(|r| r.is_some()).count();
                    assert_eq!(sum[i].is_none(), valid < min_periods);
                    if min_periods >= 1 {
                        assert_eq!(max[i].is_none(), valid < min_periods);
                    }
                    if valid >= min_periods {
                        let expected: i32 = rows[start..end].iter().flatten().sum();
                        assert_eq!(sum[i], Some(expected));
                        assert_eq!(max[i], rows[start..end].iter().flatten().copied().max());
                    }
                }
            }
        }
    }
}

#[test]
fn rolling_min_moves_over_shrinking_and_growing_windows() {
    let arr = PrimitiveArray::from_options(&[Some(4i64), Some(1), None, Some(3), Some(1), Some(7)]);
    let out = rolling_min(&arr, 3, 1, true).to_options();
    assert_eq!(out, vec![Some(1), Some(1), Some(1), Some(1), Some(1), Some(1)]);
    let out = rolling_min(&arr, 2, 2, false).to_options();
    assert_eq!(out, vec![None, Some(1), None, None, Some(1), Some(1)]);
    let out = rolling_max(&arr, 2, 1, false).to_options();
    assert_eq!(out, vec![Some(4), Some(4), Some(1), Some(3), Some(3), Some(7)]);
}

#[test]
fn rolling_min_without_values_has_no_minimum() {
    let arr = PrimitiveArray::<i32>::from_options(&[None, None, Some(3)]);
    let out = rolling_min(&arr, 2, 0, false).to_options();
    assert_eq!(out, vec![None, None, Some(3)]);
    let out = rolling_sum(&arr, 2, 0, false).to_options();
    assert_eq!(out, vec![Some(0), Some(0), Some(3)]);
}

#[test]
fn rolling_sum_wraps() {
    let arr = PrimitiveArray::from_options(&[Some(i64::MAX), Some(1)]);
    let out = rolling_sum(&arr, 2, 1, false).to_options();
    assert_eq!(out, vec![Some(i64::MAX), Some(i64::MIN)]);
}

#[test]
fn rolling_on_an_empty_column() {
    let arr = PrimitiveArray::<i64>::from_options(&[]);
    assert_eq!(rolling_sum(&arr, 3, 1, false).to_options(), vec![]);
    assert_eq!(rolling_max(&arr, 3, 1, true).to_options(), vec![]);
}

#[test]
fn nan_never_wins_a_minimum_or_a_maximum() {
    let nan = float(f64::NAN);
    let rows = [Some(float(2.0)), Some(nan), Some(float(-1.0)), Some(nan)];
    let arr = PrimitiveArray::from_options(&rows);
    let min = as_floats(rolling_min(&arr, 2, 1, false).to_options());
    assert_eq!(min[0], Some(2.0));
    assert_eq!(min[1], Some(2.0));
    assert_eq!(min[2], Some(-1.0));
    assert_eq!(min[3], Some(-1.0));
    let max = as_floats(rolling_max(&arr, 2, 1, false).to_options());
    assert_eq!(max[1], Some(2.0));
    assert_eq!(max[2], Some(-1.0));
    let only_nan = PrimitiveArray::from_options(&[Some(nan)]);
    let out = rolling_max(&only_nan, 1, 1, false).to_options();
    assert!(out[0].unwrap().is_nan());
}

#[test]
fn trailing_offsets() {
    assert_eq!(det_offsets(0, 3, 10), (0, 1));
    assert_eq!(det_offsets(1, 3, 10), (0, 2));
    assert_eq!(det_offsets(2, 3, 10), (0, 3));
    assert_eq!(det_offsets(9, 3, 10), (7, 10));
    assert_eq!(det_offsets(5, 1, 10), (5, 6));
    assert_eq!(det_offsets(4, usize::MAX, 5), (0, 5));
}

#[test]
fn centered_offsets() {
    assert_eq!(det_offsets_center(0, 4, 4), (0, 2));
    assert_eq!(det_offsets_center(1, 4, 4), (0, 3));
    assert_eq!(det_offsets_center(2, 4, 4), (0, 4));
    assert_eq!(det_offsets_center(3, 4, 4), (1, 4));
    assert_eq!(det_offsets_center(5, 3, 10), (4, 7));
    assert_eq!(det_offsets_center(5, 1, 10), (5, 6));
    assert_eq!(det_offsets_center(0, usize::MAX, 3), (0, 3));
    assert_eq!(det_offsets_center(2, usize::MAX, 3), (0, 3));
}

#[test]
fn windows_are_never_longer_than_asked_for() {
    for len in 1..8usize {
        for window in 1..10usize {
            for i in 0..len {
                for center in [false, true] {
                    let (start, end) = window_offsets(center, i, window, len);
                    assert!(start <= i && i < end && end <= len);
                    assert!(end - start <= window);
                }
            }
        }
    }
}

#[test]
fn create_validity_marks_short_windows() {
    assert!(create_validity(1, 5, 3, false).is_none());
    assert!(create_validity(0, 5, 3, true).is_none());
    let marks = to_bools(&Bitmap::from(create_validity(3, 5, 3, false).unwrap()));
    assert_eq!(marks, vec![false, false, true, true, true]);
    let marks = to_bools(&Bitmap::from(create_validity(3, 5, 3, true).unwrap()));
    assert_eq!(marks, vec![false, true, true, true, false]);
    let marks = to_bools(&Bitmap::from(create_validity(4, 4, 4, true).unwrap()));
    assert_eq!(marks, vec![false, false, true, false]);
    let marks = to_bools(&Bitmap::from(create_validity(5, 4, 3, false).unwrap()));
    assert_eq!(marks, vec![false, false, false, false]);
}

#[test]
fn compute_sum_reads_the_bits_from_the_offset() {
    let bitmap = Bitmap::from(&[false, true, false, true, true, false, true, true, true, false]);
    let (bytes, offset, len) = bitmap.as_slice();
    assert_eq!(len, 10);
    let values: Vec<i32> = vec![10, 20, 30, 40];
    assert_eq!(compute_sum(&values, bytes, offset + 1, 1), Some(80));
    assert_eq!(compute_sum(&values, bytes, offset + 1, 3), Some(80));
    assert_eq!(compute_sum(&values, bytes, offset + 1, 4), None);
    assert_eq!(compute_sum(&values[..3], bytes, offset + 6, 9), Some(60));
    assert_eq!(compute_sum(&values[..2], bytes, offset + 8, 2), None);
    assert_eq!(compute_sum(&values[..2], bytes, offset + 8, 1), Some(10));
}

#[test]
fn comparisons_put_nan_on_the_losing_side() {
    let nan = float(f64::NAN);
    let one = float(1.0);
    let two = float(2.0);
    assert_eq!(compare_fn_nan_min(&one, &two), Ordering::Less);
    assert_eq!(compare_fn_nan_min(&two, &one), Ordering::Greater);
    assert_eq!(compare_fn_nan_min(&one, &one), Ordering::Equal);
    assert_eq!(compare_fn_nan_min(&nan, &one), Ordering::Greater);
    assert_eq!(compare_fn_nan_min(&one, &nan), Ordering::Less);
    assert_eq!(compare_fn_nan_min(&nan, &nan), Ordering::Equal);
    assert_eq!(compare_fn_nan_max(&one, &two), Ordering::Less);
    assert_eq!(compare_fn_nan_max(&nan, &one), Ordering::Less);
    assert_eq!(compare_fn_nan_max(&one, &nan), Ordering::Greater);
    assert_eq!(compare_fn_nan_max(&nan, &nan), Ordering::Equal);
    assert_eq!(compare_fn_nan_min(&3i32, &-4i32), Ordering::Greater);
    assert_eq!(compare_fn_nan_max(&3u8, &4u8), Ordering::Less);
    assert!(wins(&one, &nan, true));
    assert!(wins(&one, &nan, false));
    assert!(!wins(&nan, &one, true));
    assert!(!wins(&nan, &nan, false));
}

#[test]
fn float_bit_patterns_order_like_the_numbers() {
    let numbers = [
        f64::NEG_INFINITY,
        -1.5e300,
        -2.0,
        -1.0,
        -f64::MIN_POSITIVE,
        -0.0,
        0.0,
        f64::MIN_POSITIVE,
        0.5,
        1.0,
        7.25,
        f64::MAX,
        f64::INFINITY,
        f64::NAN,
    ];
    for a in numbers {
        for b in numbers {
            assert_eq!(float(a).less_than(&float(b)), a < b, "{} < {}", a, b);
        }
        assert_eq!(float(a).is_nan(), a.is_nan());
    }
}

#[test]
fn rolling_kernels_take_chunks_without_a_bitmap() {
    let dense = PrimitiveArray::from_vec(vec![1i64, 2, 3, 4]);
    let out = polars::rolling::rolling_sum(&dense, 2, 2, false).to_options();
    assert_eq!(out, vec![None, Some(3), Some(5), Some(7)]);
    let out = polars::rolling::rolling_sum(&dense, 3, 1, true).to_options();
    assert_eq!(out, vec![Some(3), Some(6), Some(9), Some(7)]);
    let out = polars::rolling::rolling_max(&dense, 2, 2, false).to_options();
    assert_eq!(out, vec![None, Some(2), Some(3), Some(4)]);
    let out = polars::rolling::rolling_min(&dense, 4, 1, true).to_options();
    assert_eq!(out, vec![Some(1), Some(1), Some(1), Some(2)]);
    let sparse = column();
    let out = polars::rolling::rolling_sum(&sparse, 2, 1, false).to_options();
    assert_eq!(out, vec![Some(1), Some(1), Some(3), Some(7)]);
    let out = polars::rolling::rolling_min(&sparse, 2, 2, false).to_options();
    assert_eq!(out, vec![None, None, None, Some(3)]);
}

#[test]
fn kernels_with_and_without_bitmap_agree_on_full_columns() {
    let values: Vec<i32> = vec![5, -3, 8, 8, 0, -7, 2];
    let dense = PrimitiveArray::from_vec(values.clone());
    let masked = PrimitiveArray::from_data(values, Some(Bitmap::from(&[true; 7])));
    for center in [false, true] {
        for window in 1..=4usize {
            for min_periods in 0..=4usize {
                assert_eq!(
                    polars::rolling::no_nulls::rolling_sum(&dense, window, min_periods, center).to_options(),
                    rolling_sum(&masked, window, min_periods, center).to_options()
                );
                assert_eq!(
                    polars::rolling::no_nulls::rolling_min(&dense, window, min_periods, center).to_options(),
                    rolling_min(&masked, window, min_periods, center).to_options()
                );
                assert_eq!(
                    polars::rolling::no_nulls::rolling_max(&dense, window, min_periods, center).to_options(),
                    rolling_max(&masked, window, min_periods, center).to_options()
                );
            }
        }
    }
    assert_eq!(polars::rolling::no_nulls::compute_sum(&[1u8, 2, 3, 250], 1, 4), 255);
    assert_eq!(polars::rolling::no_nulls::compute_sum(&[1u8, 2, 3, 250], 0, 4), 0);
    assert_eq!(polars::rolling::no_nulls::compute_extremum(&[4, 9, 2], 0, 3, true), Some(9));
    assert_eq!(polars::rolling::no_nulls::compute_extremum(&[4, 9, 2], 0, 3, false), Some(2));
    assert_eq!(polars::rolling::no_nulls::compute_extremum(&[4, 9, 2], 1, 1, false), None);
}

#[test]
fn assembling_counts_the_valid_rows_of_every_window() {
    let validity = Bitmap::from(&[true, false, true, true]);
    let aggregates = vec![10i64, 20, 30, 40];
    let out = polars::rolling::nulls::rolling_assemble_valid(aggregates.clone(), &validity, 2, 2, false);
    assert_eq!(out.to_options(), vec![None, None, None, Some(40)]);
    let out = polars::rolling::nulls::rolling_assemble_valid(aggregates.clone(), &validity, 2, 1, false);
    assert_eq!(out.to_options(), vec![Some(10), Some(20), Some(30), Some(40)]);
    let out = polars::rolling::nulls::rolling_assemble_valid(aggregates.clone(), &validity, 4, 3, true);
    assert_eq!(out.to_options(), vec![None, None, Some(30), None]);
    let out = polars::rolling::nulls::rolling_assemble_valid(aggregates.clone(), &validity, 1, 1, true);
    assert_eq!(out.to_options(), vec![Some(10), None, Some(30), Some(40)]);
    let sliced = Bitmap::from(&[false, false, true, false, true, true, false]).sliced(2, 4);
    let out = polars::rolling::nulls::rolling_assemble_valid(aggregates, &sliced, 2, 2, false);
    assert_eq!(out.to_options(), vec![None, None, None, Some(40)]);
}

#[test]
fn assembling_over_a_column_without_nulls() {
    let aggregates = vec![10i64, 20, 30, 40];
    let out = polars::rolling::no_nulls::rolling_assemble(aggregates.clone(), 2, 2, false);
    assert_eq!(out.to_options(), vec![None, Some(20), Some(30), Some(40)]);
    let out = polars::rolling::no_nulls::rolling_assemble(aggregates.clone(), 2, 0, false);
    assert_eq!(out.to_options(), vec![Some(10), Some(20), Some(30), Some(40)]);
    let out = polars::rolling::no_nulls::rolling_assemble(aggregates, 4, 4, true);
    assert_eq!(out.to_options(), vec![None, None, Some(30), None]);
}

fn float_rolling_sum(
    values: &[f64],
    valid: &[bool],
    window_size: usize,
    min_periods: usize,
    center: bool,
) -> Vec<Option<f64>> {
    let len = values.len();
    let aggregates: Vec<Float64> = (0..len)
        .map(|i| {
            let (start, end) = window_offsets(center, i, window_size, len);
            float((start..end).filter(|&j| valid[j]).map(|j| values[j]).sum())
        })
        .collect();
    as_floats(
        polars::rolling::nulls::rolling_assemble_valid(
            aggregates,
            &Bitmap::from(valid),
            window_size,
            min_periods,
            center,
        )
        .to_options(),
    )
}

#[test]
fn rolling_sum_of_floats_is_null_where_the_library_says() {
    let values = [1.0, 2.0, 3.0, 4.0];
    let valid = [true, false, true, true];
    assert_eq!(
        float_rolling_sum(&values, &valid, 2, 2, false),
        vec![None, None, None, Some(7.0)]
    );
    assert_eq!(
        float_rolling_sum(&values, &valid, 2, 1, false),
        vec![Some(1.0), Some(1.0), Some(3.0), Some(7.0)]
    );
    assert_eq!(
        float_rolling_sum(&values, &valid, 4, 1, false),
        vec![Some(1.0), Some(1.0), Some(4.0), Some(8.0)]
    );
    assert_eq!(
        float_rolling_sum(&values, &valid, 4, 1, true),
        vec![Some(1.0), Some(4.0), Some(8.0), Some(7.0)]
    );
    assert_eq!(
        float_rolling_sum(&values, &valid, 4, 4, true),
        vec![None, None, None, None]
    );
}

#[test]
fn valid_values_of_a_window() {
    let validity = Bitmap::from(&[true, false, true, true, false]);
    let values = [1.5f64, 2.5, 3.5, 4.5, 5.5];
    assert_eq!(polars::rolling::nulls::valid_values(&values, &validity, 0, 5), vec![1.5, 3.5, 4.5]);
    assert_eq!(polars::rolling::nulls::valid_values(&values, &validity, 1, 3), vec![3.5]);
    assert_eq!(polars::rolling::nulls::valid_values(&values, &validity, 4, 5), Vec::<f64>::new());
    assert_eq!(polars::rolling::nulls::valid_values(&values, &validity, 2, 2), Vec::<f64>::new());
}
