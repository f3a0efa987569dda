//! One chunk of a column: a values buffer and an optional validity bitmap.

use crate::bitmap::{bitmap_rows, count_false, count_nulls, filled, mutable_rows, MAX_ROWS};
use crate::native::Value;
use arrow2::bitmap::Bitmap;
use vstd::prelude::*;

verus! {

/// The rows that a values buffer and the rows of a bitmap stand for.
pub open spec fn rows_of<T>(values: Seq<T>, valid: Seq<bool>) -> Seq<Option<T>> {
    Seq::new(
        values.len(),
        |i: int|
            if valid[i] {
                Some(values[i])
            } else {
                None
            },
    )
}

/// Number of rows in `start..end` that hold a value.
pub open spec fn count_present<T>(rows: Seq<Option<T>>, start: int, end: int) -> int
    decreases end - start,
{
    if end <= start {
        0
    } else {
        count_present(rows, start, end - 1) + if rows[end - 1].is_some() {
            1int
        } else {
            0int
        }
    }
}

/// A window holds no more values than it has rows.
pub proof fn lemma_count_present_bounds<T>(rows: Seq<Option<T>>, start: int, end: int)
    requires
        start <= end,
    ensures
        0 <= count_present(rows, start, end) <= end - start,
    decreases end - start,
{
    if start < end {
        lemma_count_present_bounds(rows, start, end - 1);
    }
}

/// Rows that all hold a value are counted in full, and conversely.
pub proof fn lemma_count_present_full<T>(rows: Seq<Option<T>>, start: int, end: int)
    requires
        start <= end,
    ensures
        count_present(rows, start, end) == end - start <==> forall|i: int|
            start <= i < end ==> rows[i].is_some(),
    decreases end - start,
{
    if start < end {
        lemma_count_present_full(rows, start, end - 1);
        lemma_count_present_bounds(rows, start, end - 1);
        if count_present(rows, start, end) == end - start {
            assert forall|i: int| start <= i < end implies rows[i].is_some() by {
                if i < end - 1 {
                }
            }
        }
    }
}

/// The rows that are counted as null through the bitmap are those that the
/// rows do not hold.
pub proof fn lemma_count_false_rows<T>(values: Seq<T>, valid: Seq<bool>, n: int)
    requires
        0 <= n <= values.len(),
        valid.len() == values.len(),
    ensures
        count_false(valid, n) + count_present(rows_of(values, valid), 0, n) == n,
    decreases n,
{
    if n > 0 {
        lemma_count_false_rows(values, valid, n - 1);
    }
}

/// Counting a window is counting its head and its tail.
pub proof fn lemma_count_present_split<T>(rows: Seq<Option<T>>, start: int, mid: int, end: int)
    requires
        start <= mid <= end,
    ensures
        count_present(rows, start, end) == count_present(rows, start, mid) + count_present(
            rows,
            mid,
            end,
        ),
    decreases end - mid,
{
    if mid < end {
        lemma_count_present_split(rows, start, mid, end - 1);
    }
}

/// Counting a window cut out of the rows is counting the same range in
/// place.
pub proof fn lemma_count_in_place<T>(rows: Seq<Option<T>>, start: int, end: int, n: int)
    requires
        0 <= start <= end <= rows.len(),
        0 <= n <= end - start,
    ensures
        count_present(rows.subrange(start, end), 0, n) == count_present(rows, start, start + n),
    decreases n,
{
    if n > 0 {
        lemma_count_in_place(rows, start, end, n - 1);
    }
}

/// A window without a value has none in any of its rows.
pub proof fn lemma_count_present_none<T>(rows: Seq<Option<T>>, start: int, end: int)
    requires
        start <= end,
    ensures
        count_present(rows, start, end) == 0 <==> forall|i: int|
            start <= i < end ==> rows[i].is_none(),
    decreases end - start,
{
    if start < end {
        lemma_count_present_none(rows, start, end - 1);
        lemma_count_present_bounds(rows, start, end - 1);
        if count_present(rows, start, end) == 0 {
            assert forall|i: int| start <= i < end implies rows[i].is_none() by {
                if i < end - 1 {
                }
            }
        }
    }
}

/// A chunk: `len` values of one primitive type and, where some rows are null,
/// a validity bitmap of the same length. A chunk without a bitmap has no null
/// row.
pub struct PrimitiveArray<T> {
    values: Vec<T>,
    validity: Option<Bitmap>,
}

impl<T> PrimitiveArray<T> {
    #[verifier::type_invariant]
    spec fn inv(self) -> bool {
        &&& self.values@.len() <= MAX_ROWS
        &&& match self.validity {
            Some(bitmap) => bitmap_rows(bitmap).len() == self.values@.len(),
            None => true,
        }
    }

    /// The values buffer: one value per row, arbitrary in a null row.
    pub closed spec fn buffer(&self) -> Seq<T> {
        self.values@
    }

    /// The rows of the validity bitmap, if the chunk has one.
    pub closed spec fn mask(&self) -> Option<Seq<bool>> {
        match self.validity {
            Some(bitmap) => Some(bitmap_rows(bitmap)),
            None => None,
        }
    }

    /// Whether row `i` holds a value.
    pub open spec fn is_valid_at(&self, i: int) -> bool {
        match self.mask() {
            Some(mask) => mask[i],
            None => true,
        }
    }

    /// The rows of the chunk: `None` for a null row.
    pub open spec fn view(&self) -> Seq<Option<T>> {
        Seq::new(
            self.buffer().len(),
            |i: int|
                if self.is_valid_at(i) {
                    Some(self.buffer()[i])
                } else {
                    None
                },
        )
    }

    /// A chunk from its two buffers.
    pub fn from_data(values: Vec<T>, validity: Option<Bitmap>) -> (array: Self)
        requires
            values@.len() <= MAX_ROWS,
            validity matches Some(bitmap) ==> bitmap_rows(bitmap).len() == values@.len(),
        ensures
            array.buffer() == values@,
            array.mask() == match validity {
                Some(bitmap) => Some(bitmap_rows(bitmap)),
                None => None,
            },
    {
        PrimitiveArray { values, validity }
    }

    /// A chunk without null rows.
    pub fn from_vec(values: Vec<T>) -> (array: Self)
        requires
            values@.len() <= MAX_ROWS,
        ensures
            array.buffer() == values@,
            array.mask().is_none(),
    {
        PrimitiveArray { values, validity: None }
    }

    /// Number of rows.
    pub fn len(&self) -> (n: usize)
        ensures
            n == self.buffer().len(),
            n == self@.len(),
            n <= MAX_ROWS,
    {
        proof {
            use_type_invariant(self);
        }
        self.values.len()
    }

    /// Whether the chunk has no rows.
    pub fn is_empty(&self) -> (empty: bool)
        ensures
            empty == (self@.len() == 0),
    {
        self.values.len() == 0
    }

    /// The values buffer.
    pub fn values(&self) -> (values: &[T])
        ensures
            values@ == self.buffer(),
    {
        self.values.as_slice()
    }

    /// The validity bitmap, if the chunk has one.
    pub fn validity(&self) -> (validity: Option<&Bitmap>)
        ensures
            match validity {
                Some(bitmap) => self.mask() == Some(bitmap_rows(*bitmap)) && bitmap_rows(
                    *bitmap,
                ).len() == self.buffer().len(),
                None => self.mask().is_none(),
            },
            self.buffer().len() <= MAX_ROWS,
    {
        proof {
            use_type_invariant(self);
        }
        self.validity.as_ref()
    }

    /// Whether the chunk has a validity bitmap.
    pub fn has_validity(&self) -> (has: bool)
        ensures
            has == self.mask().is_some(),
    {
        self.validity.is_some()
    }

    /// Whether row `i` holds a value.
    pub fn is_valid(&self, i: usize) -> (valid: bool)
        requires
            i < self@.len(),
        ensures
            valid == self.is_valid_at(i as int),
            valid == self@[i as int].is_some(),
    {
        match self.validity() {
            Some(bitmap) => bitmap.get_bit(i),
            None => true,
        }
    }

    /// Number of null rows.
    pub fn null_count(&self) -> (nulls: usize)
        ensures
            nulls == match self.mask() {
                Some(mask) => count_false(mask, mask.len() as int),
                None => 0,
            },
            nulls + count_present(self@, 0, self@.len() as int) == self@.len(),
    {
        match self.validity() {
            Some(bitmap) => {
                proof {
                    lemma_count_false_rows(
                        self.buffer(),
                        bitmap_rows(*bitmap),
                        self.buffer().len() as int,
                    );
                    assert(rows_of(self.buffer(), bitmap_rows(*bitmap)) =~= self@);
                }
                count_nulls(bitmap)
            },
            None => {
                proof {
                    lemma_count_present_full(self@, 0, self@.len() as int);
                }
                0
            },
        }
    }
}

impl<T: Value> PrimitiveArray<T> {
    /// Row `i`: its value, or `None` where the row is null.
    pub fn get(&self, i: usize) -> (item: Option<T>)
        requires
            i < self@.len(),
        ensures
            item == self@[i as int],
    {
        if self.is_valid(i) {
            Some(self.values[i].duplicate())
        } else {
            None
        }
    }

    /// The rows of the chunk as a vector.
    pub fn to_options(&self) -> (items: Vec<Option<T>>)
        ensures
            items@ == self@,
    {
        let n: usize = self.len();
        let mut items: Vec<Option<T>> = Vec::with_capacity(n);
        let mut i: usize = 0;
        while i < n
            invariant
                n == self@.len(),
                0 <= i <= n,
                items@.len() == i,
                forall|j: int| 0 <= j < i ==> items@[j] == self@[j],
            decreases n - i,
        {
            items.push(self.get(i));
            i = i + 1;
        }
        assert(items@ =~= self@);
        items
    }
}

impl<T: Value> PrimitiveArray<T> {
    /// The chunk whose rows are `items`; a null row holds some value of the
    /// type in the values buffer.
    pub fn from_options(items: &[Option<T>]) -> (array: Self)
        requires
            items@.len() <= MAX_ROWS,
        ensures
            array@ == items@,
            array.mask().is_some(),
    {
        let n: usize = items.len();
        let mut values: Vec<T> = Vec::with_capacity(n);
        let mut validity = filled(n, true);
        let mut i: usize = 0;
        while i < n
            invariant
                n == items@.len(),
                0 <= i <= n,
                values@.len() == i,
                mutable_rows(validity).len() == n,
                forall|j: int| 0 <= j < i ==> mutable_rows(validity)[j] == items@[j].is_some(),
                forall|j: int| i <= j < n ==> mutable_rows(validity)[j],
                forall|j: int| 0 <= j < i && items@[j].is_some() ==> Some(values@[j]) == items@[j],
            decreases n - i,
        {
            match &items[i] {
                Some(value) => {
                    values.push(value.duplicate());
                },
                None => {
                    values.push(T::filler());
                    validity.set(i, false);
                },
            }
            i = i + 1;
        }
        let array = PrimitiveArray { values, validity: Some(Bitmap::from(validity)) };
        assert(array@ =~= items@);
        array
    }
}

} // verus!
