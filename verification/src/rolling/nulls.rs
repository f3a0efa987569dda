//! Rolling kernels over a chunk with a validity bitmap.
//!
//! The output has one row per input row. A row is null where its window holds
//! fewer than `min_periods` valid values, and is otherwise the aggregate of
//! the valid values of the window.

use crate::array::{
    count_present,
    lemma_count_false_rows,
    lemma_count_present_bounds,
    lemma_count_present_full,
    rows_of,
    PrimitiveArray,
};
use crate::bitmap::{
    bitmap_rows,
    bits_of,
    count_zeros,
    filled,
    get_bit_at,
    mutable_rows,
    MAX_ROWS,
};
use arrow2::bitmap::Bitmap;
use crate::native::{NativeType, NumericNative};
use crate::rolling::window::{
    create_validity,
    lemma_window_bounds,
    window_end,
    window_len,
    window_offsets,
    window_start,
};
use vstd::prelude::*;
use vstd::slice::slice_subrange;

verus! {

/// Sum of the values in rows `start..end`, added from left to right with
/// wrapping addition; null rows add nothing.
pub open spec fn sum_present<T: NumericNative>(rows: Seq<Option<T>>, start: int, end: int) -> T
    decreases end - start,
{
    if end <= start {
        T::zero_spec()
    } else {
        match rows[end - 1] {
            Some(value) => sum_present(rows, start, end - 1).wrapping_sum(value),
            None => sum_present(rows, start, end - 1),
        }
    }
}

/// The sum of the values in rows `start..end` as a number, without wrapping.
pub open spec fn exact_sum<T: NumericNative>(rows: Seq<Option<T>>, start: int, end: int) -> int
    decreases end - start,
{
    if end <= start {
        0
    } else {
        match rows[end - 1] {
            Some(value) => exact_sum(rows, start, end - 1) + value.rank(),
            None => exact_sum(rows, start, end - 1),
        }
    }
}

/// Where the sum of the values from the first row of a window up to any of
/// its rows is a value of the type, the wrapping sum of the window is the sum
/// of its values.
pub proof fn lemma_sum_present_exact<T: NumericNative>(rows: Seq<Option<T>>, start: int, end: int)
    requires
        forall|m: int|
            start <= m <= end ==> T::min_rank() <= #[trigger] exact_sum(rows, start, m)
                <= T::max_rank(),
    ensures
        sum_present(rows, start, end).rank() == exact_sum(rows, start, end),
    decreases end - start,
{
    if end <= start {
        T::lemma_zero_rank();
    } else {
        assert forall|m: int| start <= m <= end - 1 implies T::min_rank() <= #[trigger] exact_sum(
            rows,
            start,
            m,
        ) <= T::max_rank() by {}
        lemma_sum_present_exact(rows, start, end - 1);
        assert(T::min_rank() <= exact_sum(rows, start, end) <= T::max_rank());
        match rows[end - 1] {
            Some(value) => {
                T::lemma_sum_in_range(sum_present(rows, start, end - 1), value);
            },
            None => {},
        }
    }
}

/// Counting and summing a window cut out of the rows is counting and summing
/// the same range in place.
pub proof fn lemma_window_in_place<T: NumericNative>(
    rows: Seq<Option<T>>,
    start: int,
    end: int,
    n: int,
)
    requires
        0 <= start <= end <= rows.len(),
        0 <= n <= end - start,
    ensures
        count_present(rows.subrange(start, end), 0, n) == count_present(rows, start, start + n),
        sum_present(rows.subrange(start, end), 0, n) == sum_present(rows, start, start + n),
    decreases n,
{
    if n > 0 {
        lemma_window_in_place(rows, start, end, n - 1);
    }
}

/// An aggregate over one window, computed from the values of the window and
/// the bytes of the validity bitmap.
pub trait WindowAggregator<T, K> {
    /// What the aggregate is on a window with these rows.
    spec fn aggregate_spec(rows: Seq<Option<T>>, min_periods: int) -> Option<K>;

    /// Aggregates the window `values`, whose validity is the `values.len()`
    /// bits of `validity_bytes` from bit `offset` on.
    fn aggregate(values: &[T], validity_bytes: &[u8], offset: usize, min_periods: usize) -> (out:
        Option<K>)
        requires
            offset + values@.len() <= validity_bytes@.len() * 8,
            offset + values@.len() + 7 <= usize::MAX,
        ensures
            out == Self::aggregate_spec(
                rows_of(values@, bits_of(validity_bytes@, offset as int, values@.len() as int)),
                min_periods as int,
            ),
    ;
}

/// Row `i` of the output of a rolling kernel with aggregate `A` over `rows`.
pub open spec fn rolling_row<T, K, A: WindowAggregator<T, K>>(
    rows: Seq<Option<T>>,
    window_size: int,
    min_periods: int,
    center: bool,
    i: int,
) -> Option<K> {
    let start = window_start(center, i, window_size);
    let end = window_end(center, i, window_size, rows.len() as int);
    if min_periods > 1 && end - start < min_periods {
        None
    } else {
        A::aggregate_spec(rows.subrange(start, end), min_periods)
    }
}

/// Applies the aggregate `A` to the window of every row. Rows whose window is
/// shorter than `min_periods` are null whatever the aggregate says; the other
/// rows are what the aggregate returns, null where it returns nothing.
pub fn rolling_apply<T, K: NativeType, A: WindowAggregator<T, K>>(
    values: &[T],
    bitmap: &Bitmap,
    window_size: usize,
    min_periods: usize,
    center: bool,
) -> (out: PrimitiveArray<K>)
    requires
        values@.len() == bitmap_rows(*bitmap).len(),
        values@.len() <= MAX_ROWS,
        1 <= window_size,
    ensures
        out@.len() == values@.len(),
        forall|i: int|
            0 <= i < values@.len() ==> #[trigger] out@[i] == rolling_row::<T, K, A>(
                rows_of(values@, bitmap_rows(*bitmap)),
                window_size as int,
                min_periods as int,
                center,
                i,
            ),
{
    let len: usize = values.len();
    let (validity_bytes, offset, _) = bitmap.as_slice();
    let ghost rows = rows_of(values@, bitmap_rows(*bitmap));
    let marks = create_validity(min_periods, len, window_size, center);
    let mut validity = match marks {
        Some(v) => v,
        None => {
            filled(len, true)
        },
    };
    let mut out: Vec<K> = Vec::with_capacity(len);
    let mut idx: usize = 0;
    while idx < len
        invariant
            len == values@.len(),
            len == bitmap_rows(*bitmap).len(),
            1 <= window_size,
            rows == rows_of(values@, bitmap_rows(*bitmap)),
            offset + len <= validity_bytes@.len() * 8,
            offset + len + 7 <= usize::MAX,
            bits_of(validity_bytes@, offset as int, len as int) == bitmap_rows(*bitmap),
            0 <= idx <= len,
            out@.len() == idx,
            mutable_rows(validity).len() == len,
            forall|j: int|
                idx <= j < len ==> mutable_rows(validity)[j] == !(min_periods > 1 && window_len(
                    center,
                    j,
                    window_size as int,
                    len as int,
                ) < min_periods),
            forall|j: int|
                0 <= j < idx ==> (if mutable_rows(validity)[j] {
                    Some(out@[j])
                } else {
                    None
                }) == rolling_row::<T, K, A>(
                    rows,
                    window_size as int,
                    min_periods as int,
                    center,
                    j,
                ),
        decreases len - idx,
    {
        let (start, end) = window_offsets(center, idx, window_size, len);
        let vals = slice_subrange(values, start, end);
        proof {
            let window_bits = bits_of(validity_bytes@, offset + start, (end - start) as int);
            assert(window_bits =~= bits_of(validity_bytes@, offset as int, len as int).subrange(
                start as int,
                end as int,
            ));
            assert(rows_of(vals@, window_bits) =~= rows.subrange(start as int, end as int));
        }
        match A::aggregate(vals, validity_bytes, offset + start, min_periods) {
            Some(val) => {
                out.push(val);
            },
            None => {
                validity.set(idx, false);
                out.push(K::default_value());
            },
        }
        idx = idx + 1;
    }
    let array = PrimitiveArray::from_data(out, Some(Bitmap::from(validity)));
    assert forall|i: int| 0 <= i < values@.len() implies #[trigger] array@[i] == rolling_row::<
        T,
        K,
        A,
    >(rows, window_size as int, min_periods as int, center, i) by {
    }
    array
}

/// The values of the rows `start..end` that hold one, in the order of the
/// rows.
pub open spec fn window_values<T>(rows: Seq<Option<T>>, start: int, end: int) -> Seq<T>
    decreases end - start,
{
    if end <= start {
        Seq::empty()
    } else {
        match rows[end - 1] {
            Some(value) => window_values(rows, start, end - 1).push(value),
            None => window_values(rows, start, end - 1),
        }
    }
}

/// The valid values of the window `start..end`, in the order of the rows:
/// what an aggregate over the window is computed from.
pub fn valid_values<T: Copy>(values: &[T], validity: &Bitmap, start: usize, end: usize) -> (out:
    Vec<T>)
    requires
        values@.len() == bitmap_rows(*validity).len(),
        start <= end <= values@.len(),
    ensures
        out@ == window_values(rows_of(values@, bitmap_rows(*validity)), start as int, end as int),
        out@.len() == count_present(
            rows_of(values@, bitmap_rows(*validity)),
            start as int,
            end as int,
        ),
{
    let ghost rows = rows_of(values@, bitmap_rows(*validity));
    let mut out: Vec<T> = Vec::new();
    let mut i: usize = start;
    while i < end
        invariant
            values@.len() == bitmap_rows(*validity).len(),
            rows == rows_of(values@, bitmap_rows(*validity)),
            start <= i <= end <= values@.len(),
            out@ == window_values(rows, start as int, i as int),
            out@.len() == count_present(rows, start as int, i as int),
        decreases end - i,
    {
        if validity.get_bit(i) {
            out.push(values[i]);
        }
        i = i + 1;
    }
    out
}

/// Puts the output of a rolling kernel together from the aggregates of the
/// windows, one for every row, that were computed elsewhere over the valid
/// values of each window, and from the validity of the rows that the windows
/// lie over. A row of the output is null if and only if its window holds
/// fewer than `min_periods` valid rows; any other row is its aggregate.
pub fn rolling_assemble_valid<K: NativeType>(
    aggregates: Vec<K>,
    validity: &Bitmap,
    window_size: usize,
    min_periods: usize,
    center: bool,
) -> (out: PrimitiveArray<K>)
    requires
        aggregates@.len() == bitmap_rows(*validity).len(),
        aggregates@.len() <= MAX_ROWS,
        1 <= window_size,
    ensures
        out@.len() == aggregates@.len(),
        forall|i: int|
            0 <= i < out@.len() ==> #[trigger] out@[i] == if count_present(
                rows_of(aggregates@, bitmap_rows(*validity)),
                window_start(center, i, window_size as int),
                window_end(center, i, window_size as int, out@.len() as int),
            ) < min_periods {
                None
            } else {
                Some(aggregates@[i])
            },
{
    let len: usize = aggregates.len();
    let (bytes, offset, _) = validity.as_slice();
    let ghost values = aggregates@;
    let ghost bits = bitmap_rows(*validity);
    let ghost rows = rows_of(values, bits);
    let mut marks = filled(len, true);
    let mut idx: usize = 0;
    while idx < len
        invariant
            len == values.len(),
            len == bits.len(),
            len <= MAX_ROWS,
            1 <= window_size,
            rows == rows_of(values, bits),
            offset < 8,
            offset + len <= bytes@.len() * 8,
            bits_of(bytes@, offset as int, len as int) == bits,
            0 <= idx <= len,
            mutable_rows(marks).len() == len,
            forall|j: int| idx <= j < len ==> mutable_rows(marks)[j],
            forall|j: int|
                0 <= j < idx ==> mutable_rows(marks)[j] == !(count_present(
                    rows,
                    window_start(center, j, window_size as int),
                    window_end(center, j, window_size as int, len as int),
                ) < min_periods),
        decreases len - idx,
    {
        let (start, end) = window_offsets(center, idx, window_size, len);
        let zeros: usize = count_zeros(bytes, offset + start, end - start);
        proof {
            let n = end - start;
            let window_bits = bits_of(bytes@, offset + start, n as int);
            assert(window_bits =~= bits.subrange(start as int, end as int));
            let window_values = values.subrange(start as int, end as int);
            lemma_count_false_rows(window_values, window_bits, n as int);
            assert(rows_of(window_values, window_bits) =~= rows.subrange(
                start as int,
                end as int,
            ));
            crate::array::lemma_count_in_place(rows, start as int, end as int, n as int);
            lemma_count_present_bounds(rows, start as int, end as int);
        }
        if end - start - zeros < min_periods {
            marks.set(idx, false);
        }
        idx = idx + 1;
    }
    let array = PrimitiveArray::from_data(aggregates, Some(Bitmap::from(marks)));
    assert forall|i: int| 0 <= i < array@.len() implies #[trigger] array@[i] == if count_present(
        rows,
        window_start(center, i, window_size as int),
        window_end(center, i, window_size as int, array@.len() as int),
    ) < min_periods {
        None
    } else {
        Some(values[i])
    } by {}
    array
}

/// An aggregate that keeps state between windows: it is made for the window of
/// the first row and then moved from window to window, so that it can reuse
/// what it knows of the rows that two windows share.
pub trait RollingAggWindow<'a, T: NativeType>: Sized {
    /// The rows that the window moves over.
    spec fn rows(&self) -> Seq<Option<T>>;

    /// The number of valid values below which a window has no aggregate.
    spec fn min_periods(&self) -> int;

    /// The state agrees with the rows of the window it was last moved to.
    spec fn wf(&self) -> bool;

    /// The aggregate of the valid values in rows `start..end`; `None` where
    /// there is none to aggregate.
    spec fn window_value(rows: Seq<Option<T>>, start: int, end: int) -> Option<T>;

    /// The state for the window `start..end` of the given buffers.
    fn new(
        slice: &'a [T],
        validity: &'a Bitmap,
        start: usize,
        end: usize,
        min_periods: usize,
    ) -> (window: Self)
        requires
            slice@.len() == bitmap_rows(*validity).len(),
            start <= end <= slice@.len(),
        ensures
            window.wf(),
            window.rows() == rows_of(slice@, bitmap_rows(*validity)),
            window.min_periods() == min_periods,
    ;

    /// Moves to the window `start..end`, which may be longer or shorter than
    /// the last one, and returns its aggregate: nothing where fewer than
    /// `min_periods` of its rows are valid.
    fn update(&mut self, start: usize, end: usize) -> (out: Option<T>)
        requires
            old(self).wf(),
            start <= end <= old(self).rows().len(),
        ensures
            final(self).wf(),
            final(self).rows() == old(self).rows(),
            final(self).min_periods() == old(self).min_periods(),
            out == if count_present(old(self).rows(), start as int, end as int) < old(
                self,
            ).min_periods() {
                None
            } else {
                Self::window_value(old(self).rows(), start as int, end as int)
            },
    ;
}

/// Row `i` of the output of a rolling kernel with the stateful aggregate
/// `Agg` over `rows`.
pub open spec fn rolling_agg_row<'a, T: NativeType, Agg: RollingAggWindow<'a, T>>(
    rows: Seq<Option<T>>,
    window_size: int,
    min_periods: int,
    center: bool,
    i: int,
) -> Option<T> {
    let start = window_start(center, i, window_size);
    let end = window_end(center, i, window_size, rows.len() as int);
    if count_present(rows, start, end) < min_periods {
        None
    } else {
        Agg::window_value(rows, start, end)
    }
}

/// Moves one stateful aggregate over the windows of all rows, in row order.
pub fn rolling_apply_agg_window<'a, Agg: RollingAggWindow<'a, T>, T: NativeType>(
    values: &'a [T],
    validity: &'a Bitmap,
    window_size: usize,
    min_periods: usize,
    center: bool,
) -> (out: PrimitiveArray<T>)
    requires
        values@.len() == bitmap_rows(*validity).len(),
        values@.len() <= MAX_ROWS,
        1 <= window_size,
    ensures
        out@.len() == values@.len(),
        forall|i: int|
            0 <= i < values@.len() ==> #[trigger] out@[i] == rolling_agg_row::<T, Agg>(
                rows_of(values@, bitmap_rows(*validity)),
                window_size as int,
                min_periods as int,
                center,
                i,
            ),
{
    let len: usize = validity.len();
    let ghost rows = rows_of(values@, bitmap_rows(*validity));
    if len == 0 {
        let out = PrimitiveArray::from_vec(Vec::new());
        return out;
    }
    let (start, end) = window_offsets(center, 0, window_size, len);
    let mut agg_window = Agg::new(values, validity, start, end, min_periods);
    let marks = create_validity(min_periods, len, window_size, center);
    let mut out_validity = match marks {
        Some(v) => v,
        None => {
            filled(len, true)
        },
    };
    let mut out: Vec<T> = Vec::with_capacity(len);
    let mut idx: usize = 0;
    while idx < len
        invariant
            len == values@.len(),
            1 <= window_size,
            rows.len() == len,
            agg_window.wf(),
            agg_window.rows() == rows,
            agg_window.min_periods() == min_periods,
            0 <= idx <= len,
            out@.len() == idx,
            mutable_rows(out_validity).len() == len,
            forall|j: int|
                idx <= j < len ==> mutable_rows(out_validity)[j] == !(min_periods > 1 && window_len(
                    center,
                    j,
                    window_size as int,
                    len as int,
                ) < min_periods),
            forall|j: int|
                0 <= j < idx ==> (if mutable_rows(out_validity)[j] {
                    Some(out@[j])
                } else {
                    None
                }) == rolling_agg_row::<T, Agg>(
                    rows,
                    window_size as int,
                    min_periods as int,
                    center,
                    j,
                ),
        decreases len - idx,
    {
        let (start, end) = window_offsets(center, idx, window_size, len);
        proof {
            lemma_count_present_bounds(rows, start as int, end as int);
        }
        match agg_window.update(start, end) {
            Some(val) => {
                out.push(val);
            },
            None => {
                out_validity.set(idx, false);
                out.push(T::default_value());
            },
        }
        idx = idx + 1;
    }
    let array = PrimitiveArray::from_data(out, Some(Bitmap::from(out_validity)));
    assert forall|i: int| 0 <= i < values@.len() implies #[trigger] array@[i] == rolling_agg_row::<
        T,
        Agg,
    >(rows, window_size as int, min_periods as int, center, i) by {
    }
    array
}

/// Sum of the valid values of one window. A window without a null row is
/// summed whatever `min_periods` is; a window with null rows gives nothing
/// when fewer than `min_periods` of its rows are valid.
pub fn compute_sum<T: NumericNative>(
    values: &[T],
    validity_bytes: &[u8],
    offset: usize,
    min_periods: usize,
) -> (out: Option<T>)
    requires
        offset + values@.len() <= validity_bytes@.len() * 8,
        offset + values@.len() + 7 <= usize::MAX,
    ensures
        out == sum_window(
            rows_of(values@, bits_of(validity_bytes@, offset as int, values@.len() as int)),
            min_periods as int,
        ),
{
    let n: usize = values.len();
    let ghost valid = bits_of(validity_bytes@, offset as int, n as int);
    let ghost rows = rows_of(values@, valid);
    let null_count: usize = count_zeros(validity_bytes, offset, n);
    proof {
        lemma_count_false_rows(values@, valid, n as int);
        lemma_count_present_bounds(rows, 0, n as int);
    }
    if null_count == 0 {
        let mut out: T = T::zero();
        let mut i: usize = 0;
        proof {
            lemma_count_present_full(rows, 0, n as int);
        }
        while i < n
            invariant
                n == values@.len(),
                rows == rows_of(values@, valid),
                valid.len() == n,
                0 <= i <= n,
                forall|j: int| 0 <= j < n ==> rows[j].is_some(),
                out == sum_present(rows, 0, i as int),
            decreases n - i,
        {
            out = out.add_wrapping(values[i]);
            i = i + 1;
        }
        Some(out)
    } else if n - null_count < min_periods {
        None
    } else {
        let mut out: T = T::zero();
        let mut i: usize = 0;
        while i < n
            invariant
                n == values@.len(),
                rows == rows_of(values@, valid),
                valid == bits_of(validity_bytes@, offset as int, n as int),
                offset + n <= validity_bytes@.len() * 8,
                offset + n + 7 <= usize::MAX,
                0 <= i <= n,
                out == sum_present(rows, 0, i as int),
            decreases n - i,
        {
            if get_bit_at(validity_bytes, offset + i) {
                out = out.add_wrapping(values[i]);
            }
            i = i + 1;
        }
        Some(out)
    }
}

/// The sum of a window as the rolling sum reports it.
pub open spec fn sum_window<T: NumericNative>(rows: Seq<Option<T>>, min_periods: int) -> Option<
    T,
> {
    let n = rows.len() as int;
    let present = count_present(rows, 0, n);
    if present < n && present < min_periods {
        None
    } else {
        Some(sum_present(rows, 0, n))
    }
}

/// The aggregate of the rolling sum.
pub struct SumAggregator;

impl<T: NumericNative> WindowAggregator<T, T> for SumAggregator {
    open spec fn aggregate_spec(rows: Seq<Option<T>>, min_periods: int) -> Option<T> {
        sum_window(rows, min_periods)
    }

    fn aggregate(values: &[T], validity_bytes: &[u8], offset: usize, min_periods: usize) -> (out:
        Option<T>) {
        compute_sum(values, validity_bytes, offset, min_periods)
    }
}

/// Row `i` of the rolling sum over `rows`: null if and only if the window of
/// row `i` holds fewer than `min_periods` values, and otherwise the wrapping
/// sum of the values of that window.
pub open spec fn rolling_sum_row<T: NumericNative>(
    rows: Seq<Option<T>>,
    window_size: int,
    min_periods: int,
    center: bool,
    i: int,
) -> Option<T> {
    let start = window_start(center, i, window_size);
    let end = window_end(center, i, window_size, rows.len() as int);
    if count_present(rows, start, end) < min_periods {
        None
    } else {
        Some(sum_present(rows, start, end))
    }
}

/// Rolling sum over a chunk with a validity bitmap. Row `i` of the output is
/// null if and only if the window of row `i` holds fewer than `min_periods`
/// valid values; otherwise it is the wrapping sum of the valid values of
/// that window.
pub fn rolling_sum<T: NumericNative>(
    arr: &PrimitiveArray<T>,
    window_size: usize,
    min_periods: usize,
    center: bool,
) -> (out: PrimitiveArray<T>)
    requires
        arr.mask().is_some(),
        1 <= window_size,
    ensures
        out@.len() == arr@.len(),
        forall|i: int|
            0 <= i < arr@.len() ==> #[trigger] out@[i] == rolling_sum_row(
                arr@,
                window_size as int,
                min_periods as int,
                center,
                i,
            ),
{
    let bitmap = arr.validity().unwrap();
    let out = rolling_apply::<T, T, SumAggregator>(
        arr.values(),
        bitmap,
        window_size,
        min_periods,
        center,
    );
    proof {
        let rows = rows_of(arr.buffer(), bitmap_rows(*bitmap));
        assert(rows =~= arr@);
        assert forall|i: int| 0 <= i < arr@.len() implies #[trigger] out@[i] == rolling_sum_row(
            arr@,
            window_size as int,
            min_periods as int,
            center,
            i,
        ) by {
            let start = window_start(center, i, window_size as int);
            let end = window_end(center, i, window_size as int, arr@.len() as int);
            lemma_window_bounds(center, i, window_size as int, arr@.len() as int);
            lemma_window_in_place(rows, start, end, end - start);
            lemma_count_present_bounds(rows, start, end);
            assert(rows.subrange(start, end).len() == end - start);
        }
    }
    out
}

} // verus!
