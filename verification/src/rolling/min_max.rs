//! Rolling minimum and maximum over a chunk with a validity bitmap.
//!
//! The extremum of a window is kept between windows. Moving to the next
//! window looks only at the rows that leave and the rows that enter; the
//! window is scanned again only when a row that leaves ties with the
//! extremum, or when the new window does not continue the last one.

use crate::array::{
    count_present,
    lemma_count_present_bounds,
    lemma_count_present_split,
    rows_of,
    PrimitiveArray,
};
use crate::bitmap::bitmap_rows;
use arrow2::bitmap::Bitmap;
use crate::native::NativeType;
use crate::rolling::compare::{beats, wins};
use crate::rolling::nulls::{rolling_agg_row, rolling_apply_agg_window, RollingAggWindow};
use crate::rolling::window::{window_end, window_start};
use vstd::prelude::*;

verus! {

/// The better of the extremum so far and one more value: the value replaces
/// the extremum only where it wins against it.
pub open spec fn pick<T: NativeType>(best: Option<T>, value: T, is_max: bool) -> Option<T> {
    match best {
        None => Some(value),
        Some(m) => if beats(value, m, is_max) {
            Some(value)
        } else {
            Some(m)
        },
    }
}

/// The maximum (`is_max`) or minimum of the values in rows `start..end`: the
/// first value of the window against which no value of the window wins, or
/// `None` where the window holds no value.
pub open spec fn extremum<T: NativeType>(
    rows: Seq<Option<T>>,
    start: int,
    end: int,
    is_max: bool,
) -> Option<T>
    decreases end - start,
{
    if end <= start {
        None
    } else {
        match rows[end - 1] {
            Some(value) => pick(extremum(rows, start, end - 1, is_max), value, is_max),
            None => extremum(rows, start, end - 1, is_max),
        }
    }
}

/// A window has an extremum exactly where it holds a value.
pub proof fn lemma_extremum_exists<T: NativeType>(
    rows: Seq<Option<T>>,
    start: int,
    end: int,
    is_max: bool,
)
    requires
        start <= end,
    ensures
        extremum(rows, start, end, is_max).is_none() <==> count_present(rows, start, end) == 0,
    decreases end - start,
{
    if start < end {
        lemma_extremum_exists(rows, start, end - 1, is_max);
        lemma_count_present_bounds(rows, start, end - 1);
    }
}

/// The extremum is a value of the window, and no value of the window wins
/// against it. The row that is returned holds it.
pub proof fn lemma_extremum_is_best<T: NativeType>(
    rows: Seq<Option<T>>,
    start: int,
    end: int,
    is_max: bool,
) -> (at: int)
    requires
        extremum(rows, start, end, is_max).is_some(),
    ensures
        start <= at < end,
        rows[at] == extremum(rows, start, end, is_max),
        forall|i: int|
            start <= i < end && rows[i].is_some() ==> !beats(
                #[trigger] rows[i].unwrap(),
                extremum(rows, start, end, is_max).unwrap(),
                is_max,
            ),
    decreases end - start,
{
    let prev = extremum(rows, start, end - 1, is_max);
    if prev.is_some() {
        let at = lemma_extremum_is_best(rows, start, end - 1, is_max);
        if rows[end - 1].is_some() && beats(rows[end - 1].unwrap(), prev.unwrap(), is_max) {
            end - 1
        } else {
            at
        }
    } else {
        lemma_extremum_exists(rows, start, end - 1, is_max);
        assert forall|i: int| start <= i < end - 1 implies rows[i].is_none() by {
            lemma_no_value(rows, start, end - 1, i);
        }
        end - 1
    }
}

/// A window that holds no value holds none in any of its rows.
proof fn lemma_no_value<T>(rows: Seq<Option<T>>, start: int, end: int, i: int)
    requires
        start <= i < end,
        count_present(rows, start, end) == 0,
    ensures
        rows[i].is_none(),
    decreases end - start,
{
    lemma_count_present_bounds(rows, start, end - 1);
    if i < end - 1 {
        lemma_no_value(rows, start, end - 1, i);
    }
}

/// Rows at the head of a window that all lose against its extremum can leave
/// the window without changing the extremum.
pub proof fn lemma_extremum_drop_head<T: NativeType>(
    rows: Seq<Option<T>>,
    start: int,
    mid: int,
    end: int,
    is_max: bool,
)
    requires
        start <= mid <= end,
        extremum(rows, start, end, is_max).is_some(),
        forall|i: int|
            start <= i < mid && rows[i].is_some() ==> beats(
                extremum(rows, start, end, is_max).unwrap(),
                #[trigger] rows[i].unwrap(),
                is_max,
            ),
    ensures
        extremum(rows, mid, end, is_max) == extremum(rows, start, end, is_max),
    decreases end - start,
{
    let m = extremum(rows, start, end, is_max).unwrap();
    let at = lemma_extremum_is_best(rows, start, end, is_max);
    assert(mid <= at) by {
        if at < mid {
            assert(beats(m, rows[at].unwrap(), is_max));
        }
    }
    let prev = extremum(rows, start, end - 1, is_max);
    match rows[end - 1] {
        None => {
            lemma_extremum_drop_head(rows, start, mid, end - 1, is_max);
        },
        Some(value) => {
            if prev.is_none() {
                lemma_extremum_exists(rows, start, end - 1, is_max);
                lemma_extremum_exists(rows, mid, end - 1, is_max);
                lemma_count_present_none_inside(rows, start, mid, end - 1);
            } else if beats(value, prev.unwrap(), is_max) {
                let inner = extremum(rows, mid, end - 1, is_max);
                if inner.is_some() {
                    let inner_at = lemma_extremum_is_best(rows, mid, end - 1, is_max);
                    let prev_at = lemma_extremum_is_best(rows, start, end - 1, is_max);
                    assert(!beats(rows[inner_at].unwrap(), prev.unwrap(), is_max));
                }
            } else {
                assert(mid <= end - 1);
                lemma_extremum_drop_head(rows, start, mid, end - 1, is_max);
            }
        },
    }
}

/// A window without a value has no value in its tail either.
proof fn lemma_count_present_none_inside<T>(rows: Seq<Option<T>>, start: int, mid: int, end: int)
    requires
        start <= mid <= end,
        count_present(rows, start, end) == 0,
    ensures
        count_present(rows, mid, end) == 0,
    decreases end - mid,
{
    if mid < end {
        lemma_count_present_bounds(rows, start, end - 1);
        lemma_count_present_none_inside(rows, start, mid, end - 1);
    }
}

/// The extremum of a window and the number of its null rows, kept while the
/// window moves over a chunk.
pub struct MinMaxWindow<'a, T: NativeType> {
    slice: &'a [T],
    validity: &'a Bitmap,
    is_max: bool,
    extremum: Option<T>,
    last_start: usize,
    last_end: usize,
    null_count: usize,
    min_periods: usize,
}

impl<'a, T: NativeType> MinMaxWindow<'a, T> {
    /// The rows that the window moves over.
    pub closed spec fn rows(&self) -> Seq<Option<T>> {
        rows_of(self.slice@, bitmap_rows(*self.validity))
    }

    /// The number of valid values below which a window has no extremum.
    pub closed spec fn min_periods(&self) -> int {
        self.min_periods as int
    }

    /// Whether the window keeps a maximum rather than a minimum.
    pub closed spec fn is_max(&self) -> bool {
        self.is_max
    }

    /// The state agrees with the rows of the window it was last moved to.
    pub closed spec fn wf(&self) -> bool {
        &&& self.slice@.len() == bitmap_rows(*self.validity).len()
        &&& self.last_start <= self.last_end <= self.slice@.len()
        &&& self.extremum == extremum(
            self.rows(),
            self.last_start as int,
            self.last_end as int,
            self.is_max,
        )
        &&& self.null_count + count_present(
            self.rows(),
            self.last_start as int,
            self.last_end as int,
        ) == self.last_end - self.last_start
    }

    /// Scans rows `start..end` for their extremum and their null rows.
    fn scan(slice: &[T], validity: &Bitmap, start: usize, end: usize, is_max: bool) -> (found: (
        Option<T>,
        usize,
    ))
        requires
            slice@.len() == bitmap_rows(*validity).len(),
            start <= end <= slice@.len(),
        ensures
            found.0 == extremum(rows_of(slice@, bitmap_rows(*validity)), start as int, end as int, is_max),
            found.1 + count_present(rows_of(slice@, bitmap_rows(*validity)), start as int, end as int) == end
                - start,
    {
        let ghost rows = rows_of(slice@, bitmap_rows(*validity));
        let mut best: Option<T> = None;
        let mut nulls: usize = 0;
        let mut idx: usize = start;
        while idx < end
            invariant
                slice@.len() == bitmap_rows(*validity).len(),
                rows == rows_of(slice@, bitmap_rows(*validity)),
                start <= idx <= end <= slice@.len(),
                best == extremum(rows, start as int, idx as int, is_max),
                nulls + count_present(rows, start as int, idx as int) == idx - start,
            decreases end - idx,
        {
            proof {
                lemma_count_present_bounds(rows, start as int, idx as int);
            }
            if validity.get_bit(idx) {
                best = Self::take(best, slice[idx], is_max);
            } else {
                nulls = nulls + 1;
            }
            idx = idx + 1;
        }
        (best, nulls)
    }

    /// The better of the extremum so far and one more value.
    fn take(best: Option<T>, value: T, is_max: bool) -> (out: Option<T>)
        ensures
            out == pick(best, value, is_max),
    {
        match best {
            None => Some(value),
            Some(m) => if wins(&value, &m, is_max) {
                Some(value)
            } else {
                Some(m)
            },
        }
    }

    /// The state for the window `start..end`.
    pub fn new(
        slice: &'a [T],
        validity: &'a Bitmap,
        start: usize,
        end: usize,
        min_periods: usize,
        is_max: bool,
    ) -> (window: Self)
        requires
            slice@.len() == bitmap_rows(*validity).len(),
            start <= end <= slice@.len(),
        ensures
            window.wf(),
            window.rows() == rows_of(slice@, bitmap_rows(*validity)),
            window.min_periods() == min_periods,
            window.is_max() == is_max,
    {
        let (best, nulls) = Self::scan(slice, validity, start, end, is_max);
        MinMaxWindow {
            slice,
            validity,
            is_max,
            extremum: best,
            last_start: start,
            last_end: end,
            null_count: nulls,
            min_periods,
        }
    }

    /// Moves to the window `start..end` and returns its extremum, or nothing
    /// where fewer than `min_periods` of its rows are valid.
    pub fn update(&mut self, start: usize, end: usize) -> (out: Option<T>)
        requires
            old(self).wf(),
            start <= end <= old(self).rows().len(),
        ensures
            final(self).wf(),
            final(self).rows() == old(self).rows(),
            final(self).min_periods() == old(self).min_periods(),
            final(self).is_max() == old(self).is_max(),
            out == if count_present(old(self).rows(), start as int, end as int) < old(
                self,
            ).min_periods() {
                None
            } else {
                extremum(old(self).rows(), start as int, end as int, old(self).is_max())
            },
    {
        let ghost rows = self.rows();
        let is_max: bool = self.is_max;
        let slice = self.slice;
        let validity = self.validity;
        if start >= self.last_end || start < self.last_start || end < self.last_end {
            let (best, nulls) = Self::scan(slice, validity, start, end, is_max);
            self.extremum = best;
            self.null_count = nulls;
        } else {
            let last_start: usize = self.last_start;
            let last_end: usize = self.last_end;
            let current: Option<T> = self.extremum;
            let mut nulls: usize = self.null_count;
            let mut rescan: bool = false;
            let mut idx: usize = last_start;
            proof {
                lemma_count_present_bounds(rows, last_start as int, last_end as int);
            }
            while idx < start
                invariant
                    slice@.len() == bitmap_rows(*validity).len(),
                    rows == rows_of(slice@, bitmap_rows(*validity)),
                    last_start <= idx <= start < last_end <= slice@.len(),
                    nulls + count_present(rows, idx as int, last_end as int) == last_end - idx,
                    current == extremum(rows, last_start as int, last_end as int, is_max),
                    !rescan ==> forall|i: int|
                        last_start <= i < idx && (#[trigger] rows[i]).is_some() ==> current.is_some()
                            && beats(current.unwrap(), rows[i].unwrap(), is_max),
                decreases start - idx,
            {
                proof {
                    lemma_count_present_split(rows, idx as int, idx + 1, last_end as int);
                    lemma_count_present_bounds(rows, idx + 1, last_end as int);
                    assert(rows[idx as int] == if bitmap_rows(*validity)[idx as int] {
                        Some(slice@[idx as int])
                    } else {
                        None
                    });
                    assert(count_present(rows, idx as int, idx as int) == 0);
                    assert(count_present(rows, idx as int, idx + 1) == if rows[idx as int].is_some() {
                        1int
                    } else {
                        0int
                    });
                }
                if validity.get_bit(idx) {
                    match current {
                        Some(m) => {
                            if !wins(&m, &slice[idx], is_max) {
                                rescan = true;
                            }
                        },
                        None => {
                            rescan = true;
                        },
                    }
                } else {
                    nulls = nulls - 1;
                }
                idx = idx + 1;
            }
            let mut best: Option<T> = current;
            proof {
                if !rescan {
                    lemma_extremum_exists(rows, last_start as int, last_end as int, is_max);
                    lemma_extremum_exists(rows, start as int, last_end as int, is_max);
                    if best.is_some() {
                        lemma_extremum_drop_head(
                            rows,
                            last_start as int,
                            start as int,
                            last_end as int,
                            is_max,
                        );
                    } else {
                        lemma_count_present_none_inside(
                            rows,
                            last_start as int,
                            start as int,
                            last_end as int,
                        );
                    }
                }
            }
            let mut idx: usize = last_end;
            while idx < end
                invariant
                    slice@.len() == bitmap_rows(*validity).len(),
                    rows == rows_of(slice@, bitmap_rows(*validity)),
                    start < last_end <= idx <= end <= slice@.len(),
                    nulls + count_present(rows, start as int, idx as int) == idx - start,
                    !rescan ==> best == extremum(rows, start as int, idx as int, is_max),
                decreases end - idx,
            {
                proof {
                    lemma_count_present_bounds(rows, start as int, idx as int);
                }
                if validity.get_bit(idx) {
                    best = Self::take(best, slice[idx], is_max);
                } else {
                    nulls = nulls + 1;
                }
                idx = idx + 1;
            }
            if rescan {
                let (found, _) = Self::scan(slice, validity, start, end, is_max);
                best = found;
            }
            self.extremum = best;
            self.null_count = nulls;
        }
        self.last_start = start;
        self.last_end = end;
        proof {
            lemma_count_present_bounds(rows, start as int, end as int);
        }
        if end - start - self.null_count < self.min_periods {
            None
        } else {
            self.extremum
        }
    }
}

/// One row of a rolling minimum or maximum over `rows`.
pub open spec fn rolling_extremum_row<T: NativeType>(
    rows: Seq<Option<T>>,
    window_size: int,
    min_periods: int,
    center: bool,
    is_max: bool,
    i: int,
) -> Option<T> {
    let start = window_start(center, i, window_size);
    let end = window_end(center, i, window_size, rows.len() as int);
    if count_present(rows, start, end) < min_periods {
        None
    } else {
        extremum(rows, start, end, is_max)
    }
}

/// With at least one value asked for, a row of a rolling minimum or maximum
/// is null if and only if its window holds fewer than `min_periods` values.
pub proof fn lemma_rolling_extremum_null<T: NativeType>(
    rows: Seq<Option<T>>,
    window_size: int,
    min_periods: int,
    center: bool,
    is_max: bool,
    i: int,
)
    requires
        0 <= i < rows.len(),
        1 <= window_size,
        1 <= min_periods,
    ensures
        rolling_extremum_row(rows, window_size, min_periods, center, is_max, i).is_none()
            <==> count_present(
            rows,
            window_start(center, i, window_size),
            window_end(center, i, window_size, rows.len() as int),
        ) < min_periods,
{
    let start = window_start(center, i, window_size);
    let end = window_end(center, i, window_size, rows.len() as int);
    lemma_extremum_exists(rows, start, end, is_max);
}

/// The minimum of a moving window.
pub struct MinWindow<'a, T: NativeType> {
    inner: MinMaxWindow<'a, T>,
}

/// The maximum of a moving window.
pub struct MaxWindow<'a, T: NativeType> {
    inner: MinMaxWindow<'a, T>,
}

impl<'a, T: NativeType> RollingAggWindow<'a, T> for MinWindow<'a, T> {
    closed spec fn rows(&self) -> Seq<Option<T>> {
        self.inner.rows()
    }

    closed spec fn min_periods(&self) -> int {
        self.inner.min_periods()
    }

    closed spec fn wf(&self) -> bool {
        self.inner.wf() && !self.inner.is_max()
    }

    open spec fn window_value(rows: Seq<Option<T>>, start: int, end: int) -> Option<T> {
        extremum(rows, start, end, false)
    }

    fn new(
        slice: &'a [T],
        validity: &'a Bitmap,
        start: usize,
        end: usize,
        min_periods: usize,
    ) -> (window: Self) {
        MinWindow { inner: MinMaxWindow::new(slice, validity, start, end, min_periods, false) }
    }

    fn update(&mut self, start: usize, end: usize) -> (out: Option<T>) {
        self.inner.update(start, end)
    }
}

impl<'a, T: NativeType> RollingAggWindow<'a, T> for MaxWindow<'a, T> {
    closed spec fn rows(&self) -> Seq<Option<T>> {
        self.inner.rows()
    }

    closed spec fn min_periods(&self) -> int {
        self.inner.min_periods()
    }

    closed spec fn wf(&self) -> bool {
        self.inner.wf() && self.inner.is_max()
    }

    open spec fn window_value(rows: Seq<Option<T>>, start: int, end: int) -> Option<T> {
        extremum(rows, start, end, true)
    }

    fn new(
        slice: &'a [T],
        validity: &'a Bitmap,
        start: usize,
        end: usize,
        min_periods: usize,
    ) -> (window: Self) {
        MaxWindow { inner: MinMaxWindow::new(slice, validity, start, end, min_periods, true) }
    }

    fn update(&mut self, start: usize, end: usize) -> (out: Option<T>) {
        self.inner.update(start, end)
    }
}

/// Rolling minimum over a chunk with a validity bitmap. Row `i` of the output
/// is null where the window of row `i` holds fewer than `min_periods` valid
/// values, and is otherwise the minimum of the valid values of that window,
/// where NaN counts as greater than every number.
pub fn rolling_min<T: NativeType>(
    arr: &PrimitiveArray<T>,
    window_size: usize,
    min_periods: usize,
    center: bool,
) -> (out: PrimitiveArray<T>)
    requires
        arr.mask().is_some(),
        1 <= window_size,
    ensures
        out@.len() == arr@.len(),
        forall|i: int|
            0 <= i < arr@.len() ==> #[trigger] out@[i] == rolling_extremum_row(
                arr@,
                window_size as int,
                min_periods as int,
                center,
                false,
                i,
            ),
{
    let validity = arr.validity().unwrap();
    let out = rolling_apply_agg_window::<MinWindow<'_, T>, T>(
        arr.values(),
        validity,
        window_size,
        min_periods,
        center,
    );
    proof {
        assert(rows_of(arr.buffer(), bitmap_rows(*validity)) =~= arr@);
        assert forall|i: int| 0 <= i < arr@.len() implies #[trigger] out@[i]
            == rolling_extremum_row(
            arr@,
            window_size as int,
            min_periods as int,
            center,
            false,
            i,
        ) by {
            assert(out@[i] == rolling_agg_row::<T, MinWindow<'_, T>>(
                arr@,
                window_size as int,
                min_periods as int,
                center,
                i,
            ));
        }
    }
    out
}

/// Rolling maximum over a chunk with a validity bitmap. Row `i` of the output
/// is null where the window of row `i` holds fewer than `min_periods` valid
/// values, and is otherwise the maximum of the valid values of that window,
/// where NaN counts as less than every number.
pub fn rolling_max<T: NativeType>(
    arr: &PrimitiveArray<T>,
    window_size: usize,
    min_periods: usize,
    center: bool,
) -> (out: PrimitiveArray<T>)
    requires
        arr.mask().is_some(),
        1 <= window_size,
    ensures
        out@.len() == arr@.len(),
        forall|i: int|
            0 <= i < arr@.len() ==> #[trigger] out@[i] == rolling_extremum_row(
                arr@,
                window_size as int,
                min_periods as int,
                center,
                true,
                i,
            ),
{
    let validity = arr.validity().unwrap();
    let out = rolling_apply_agg_window::<MaxWindow<'_, T>, T>(
        arr.values(),
        validity,
        window_size,
        min_periods,
        center,
    );
    proof {
        assert(rows_of(arr.buffer(), bitmap_rows(*validity)) =~= arr@);
        assert forall|i: int| 0 <= i < arr@.len() implies #[trigger] out@[i]
            == rolling_extremum_row(
            arr@,
            window_size as int,
            min_periods as int,
            center,
            true,
            i,
        ) by {
            assert(out@[i] == rolling_agg_row::<T, MaxWindow<'_, T>>(
                arr@,
                window_size as int,
                min_periods as int,
                center,
                i,
            ));
        }
    }
    out
}

} // verus!
