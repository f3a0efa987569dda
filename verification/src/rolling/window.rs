//! Window offset policy: which rows contribute to the output at a row.
//!
//! Both policies map a row index to the half-open range `[start, end)` of
//! contributing rows. Near the boundaries of the column a window is truncated,
//! never padded.

use crate::bitmap::{filled, mutable_rows, MAX_ROWS};
use arrow2::bitmap::MutableBitmap;
use vstd::prelude::*;

verus! {

/// Number of rows at and to the right of the current row that a centered
/// window of `window_size` rows takes in: half of the window, rounded up.
pub open spec fn right_window(window_size: int) -> int {
    (window_size + 1) / 2
}

/// First row of the window at row `i`.
pub open spec fn window_start(center: bool, i: int, window_size: int) -> int {
    let back = if center {
        window_size - right_window(window_size)
    } else {
        window_size - 1
    };
    if i - back > 0 {
        i - back
    } else {
        0
    }
}

/// One past the last row of the window at row `i` in a column of `len` rows.
pub open spec fn window_end(center: bool, i: int, window_size: int, len: int) -> int {
    if center {
        if i + right_window(window_size) < len {
            i + right_window(window_size)
        } else {
            len
        }
    } else {
        i + 1
    }
}

/// Number of rows in the window at row `i`.
pub open spec fn window_len(center: bool, i: int, window_size: int, len: int) -> int {
    window_end(center, i, window_size, len) - window_start(center, i, window_size)
}

/// Every window lies inside the column, holds at least the current row and at
/// most `window_size` rows.
pub proof fn lemma_window_bounds(center: bool, i: int, window_size: int, len: int)
    requires
        0 <= i < len,
        1 <= window_size,
    ensures
        0 <= window_start(center, i, window_size) <= i,
        i < window_end(center, i, window_size, len) <= len,
        1 <= window_len(center, i, window_size, len) <= window_size,
{
}

/// The window length is a concave function of the row: a row between two rows
/// has a window at least as long as the shorter of theirs. Short windows
/// therefore occur only in a run at the head and a run at the tail.
pub proof fn lemma_window_len_concave(
    center: bool,
    i: int,
    j: int,
    k: int,
    window_size: int,
    len: int,
)
    requires
        0 <= i <= j <= k < len,
        1 <= window_size,
    ensures
        window_len(center, j, window_size, len) >= window_len(center, i, window_size, len)
            || window_len(center, j, window_size, len) >= window_len(
            center,
            k,
            window_size,
            len,
        ),
{
}

/// Trailing window: the `window_size` rows that end at row `i`.
pub fn det_offsets(i: usize, window_size: usize, len: usize) -> (bounds: (usize, usize))
    requires
        i < len,
        1 <= window_size,
    ensures
        bounds.0 == window_start(false, i as int, window_size as int),
        bounds.1 == window_end(false, i as int, window_size as int, len as int),
{
    let back: usize = window_size - 1;
    let start: usize = if i >= back {
        i - back
    } else {
        0
    };
    (start, i + 1)
}

/// Centered window: row `i` and the rows around it, half of `window_size`
/// (rounded up) from row `i` on and the rest before it, cut at both ends of
/// the column.
pub fn det_offsets_center(i: usize, window_size: usize, len: usize) -> (bounds: (usize, usize))
    requires
        i < len,
        1 <= window_size,
    ensures
        bounds.0 == window_start(true, i as int, window_size as int),
        bounds.1 == window_end(true, i as int, window_size as int, len as int),
{
    let right: usize = window_size / 2 + window_size % 2;
    let back: usize = window_size - right;
    let start: usize = if i >= back {
        i - back
    } else {
        0
    };
    let end: usize = if right < len - i {
        i + right
    } else {
        len
    };
    (start, end)
}

/// Whether the window at row `i` has fewer than `min_periods` rows.
pub open spec fn is_short(
    center: bool,
    i: int,
    window_size: int,
    len: int,
    min_periods: int,
) -> bool {
    window_len(center, i, window_size, len) < min_periods
}

/// The window at row `i` under the chosen alignment.
pub fn window_offsets(center: bool, i: usize, window_size: usize, len: usize) -> (bounds: (
    usize,
    usize,
))
    requires
        i < len,
        1 <= window_size,
    ensures
        bounds.0 == window_start(center, i as int, window_size as int),
        bounds.1 == window_end(center, i as int, window_size as int, len as int),
        bounds.0 <= i < bounds.1 <= len,
{
    if center {
        det_offsets_center(i, window_size, len)
    } else {
        det_offsets(i, window_size, len)
    }
}

/// The rows whose window is too short to hold `min_periods` values, found by
/// one scan from the head and one from the tail that stop at the first window
/// that is long enough. With `min_periods <= 1` no window is too short and
/// there is nothing to mark.
pub fn create_validity(min_periods: usize, len: usize, window_size: usize, center: bool) -> (marks:
    Option<MutableBitmap>)
    requires
        1 <= window_size,
        len <= MAX_ROWS,
    ensures
        min_periods <= 1 ==> marks.is_none(),
        min_periods > 1 ==> marks.is_some(),
        marks matches Some(validity) ==> {
            &&& mutable_rows(validity).len() == len
            &&& forall|i: int|
                0 <= i < len ==> mutable_rows(validity)[i] == (window_len(
                    center,
                    i,
                    window_size as int,
                    len as int,
                ) >= min_periods)
        },
{
    if min_periods <= 1 {
        return None;
    }
    let mut validity: MutableBitmap = filled(len, true);
    let mut head: usize = 0;
    while head < len
        invariant
            1 <= window_size,
            0 <= head <= len,
            mutable_rows(validity).len() == len,
            forall|j: int|
                0 <= j < head ==> !mutable_rows(validity)[j] && is_short(
                    center,
                    j,
                    window_size as int,
                    len as int,
                    min_periods as int,
                ),
            forall|j: int| head <= j < len ==> mutable_rows(validity)[j],
        ensures
            0 <= head <= len,
            mutable_rows(validity).len() == len,
            forall|j: int|
                0 <= j < head ==> !mutable_rows(validity)[j] && is_short(
                    center,
                    j,
                    window_size as int,
                    len as int,
                    min_periods as int,
                ),
            forall|j: int| head <= j < len ==> mutable_rows(validity)[j],
            head < len ==> window_len(center, head as int, window_size as int, len as int)
                >= min_periods,
        decreases len - head,
    {
        let (start, end) = window_offsets(center, head, window_size, len);
        if end - start < min_periods {
            validity.set(head, false);
            head = head + 1;
        } else {
            assert(forall|j: int|
                0 <= j < head ==> !mutable_rows(validity)[j] && is_short(
                    center,
                    j,
                    window_size as int,
                    len as int,
                    min_periods as int,
                ));
            break ;
        }
    }
    let mut tail: usize = len;
    while tail > 0
        invariant
            1 <= window_size,
            0 <= tail <= len,
            0 <= head <= len,
            mutable_rows(validity).len() == len,
            head < len ==> head < tail,
            head < len ==> window_len(center, head as int, window_size as int, len as int)
                >= min_periods,
            forall|j: int|
                0 <= j < head ==> !mutable_rows(validity)[j] && is_short(
                    center,
                    j,
                    window_size as int,
                    len as int,
                    min_periods as int,
                ),
            forall|j: int|
                tail <= j < len ==> !mutable_rows(validity)[j] && is_short(
                    center,
                    j,
                    window_size as int,
                    len as int,
                    min_periods as int,
                ),
            forall|j: int| head <= j < tail ==> mutable_rows(validity)[j],
        ensures
            0 <= tail <= len,
            0 <= head <= len,
            mutable_rows(validity).len() == len,
            head < len ==> head < tail,
            head < len ==> window_len(center, head as int, window_size as int, len as int)
                >= min_periods,
            head < len ==> window_len(center, tail - 1, window_size as int, len as int)
                >= min_periods,
            forall|j: int|
                0 <= j < head ==> !mutable_rows(validity)[j] && is_short(
                    center,
                    j,
                    window_size as int,
                    len as int,
                    min_periods as int,
                ),
            forall|j: int|
                tail <= j < len ==> !mutable_rows(validity)[j] && is_short(
                    center,
                    j,
                    window_size as int,
                    len as int,
                    min_periods as int,
                ),
            forall|j: int| head <= j < tail ==> mutable_rows(validity)[j],
        decreases tail,
    {
        let (start, end) = window_offsets(center, tail - 1, window_size, len);
        if end - start < min_periods {
            validity.set(tail - 1, false);
            tail = tail - 1;
        } else {
            assert(forall|j: int|
                0 <= j < head ==> !mutable_rows(validity)[j] && is_short(
                    center,
                    j,
                    window_size as int,
                    len as int,
                    min_periods as int,
                ));
            assert(forall|j: int|
                tail <= j < len ==> !mutable_rows(validity)[j] && is_short(
                    center,
                    j,
                    window_size as int,
                    len as int,
                    min_periods as int,
                ));
            break ;
        }
    }
    proof {
        assert forall|i: int| 0 <= i < len implies mutable_rows(validity)[i] == (window_len(
            center,
            i,
            window_size as int,
            len as int,
        ) >= min_periods) by {
            if head <= i < tail {
                lemma_window_len_concave(
                    center,
                    head as int,
                    i,
                    tail - 1,
                    window_size as int,
                    len as int,
                );
            }
        }
    }
    Some(validity)
}

} // verus!
