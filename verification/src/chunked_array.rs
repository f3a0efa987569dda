//! A column: a name, a sortedness flag and the chunks that hold its rows.

use crate::array::PrimitiveArray;
use crate::error::{PolarsError, PolarsResult};
use crate::native::{NativeType, NumericNative, Value};
use crate::rolling::compare::{
    first_parts,
    is_permutation,
    is_rearranged,
    is_sorted_values,
    sort_buf,
    sort_pairs,
    sorts_before,
};
use crate::bitmap::MAX_ROWS;
use vstd::prelude::*;

verus! {

/// What is known of the order of the rows of a column.
#[derive(Clone, Copy, PartialEq, Eq, Structural, Debug)]
pub enum IsSorted {
    Ascending,
    Descending,
    Not,
}

impl IsSorted {
    /// The flag of the column in reverse order.
    pub fn reverse(self) -> (flag: IsSorted)
        ensures
            flag == match self {
                IsSorted::Ascending => IsSorted::Descending,
                IsSorted::Descending => IsSorted::Ascending,
                IsSorted::Not => IsSorted::Not,
            },
    {
        match self {
            IsSorted::Ascending => IsSorted::Descending,
            IsSorted::Descending => IsSorted::Ascending,
            IsSorted::Not => IsSorted::Not,
        }
    }
}

/// The rows of the first `upto` chunks, one chunk after the other.
pub open spec fn concat_rows<T>(chunks: Seq<PrimitiveArray<T>>, upto: int) -> Seq<Option<T>>
    decreases upto,
{
    if upto <= 0 {
        Seq::empty()
    } else {
        concat_rows(chunks, upto - 1) + chunks[upto - 1]@
    }
}

/// More chunks hold at least as many rows.
pub proof fn lemma_concat_rows_grows<T>(chunks: Seq<PrimitiveArray<T>>, a: int, b: int)
    requires
        0 <= a <= b,
    ensures
        concat_rows(chunks, a).len() <= concat_rows(chunks, b).len(),
        concat_rows(chunks, a) == concat_rows(chunks, b).subrange(
            0,
            concat_rows(chunks, a).len() as int,
        ),
    decreases b - a,
{
    if a < b {
        lemma_concat_rows_grows(chunks, a, b - 1);
        assert(concat_rows(chunks, a) =~= concat_rows(chunks, b).subrange(
            0,
            concat_rows(chunks, a).len() as int,
        ));
    } else {
        assert(concat_rows(chunks, a) =~= concat_rows(chunks, b).subrange(
            0,
            concat_rows(chunks, a).len() as int,
        ));
    }
}

/// The rows of a column depend only on the rows of its chunks.
pub proof fn lemma_concat_rows_same<T>(
    a: Seq<PrimitiveArray<T>>,
    b: Seq<PrimitiveArray<T>>,
    upto: int,
)
    requires
        0 <= upto <= a.len(),
        upto <= b.len(),
        forall|c: int| 0 <= c < upto ==> a[c]@ == b[c]@,
    ensures
        concat_rows(a, upto) == concat_rows(b, upto),
    decreases upto,
{
    if upto > 0 {
        lemma_concat_rows_same(a, b, upto - 1);
    }
}

/// A column of values of one type, in one or more chunks.
pub struct ChunkedArray<T> {
    name: String,
    chunks: Vec<PrimitiveArray<T>>,
    sorted: IsSorted,
}

impl<T> ChunkedArray<T> {
    #[verifier::type_invariant]
    spec fn inv(self) -> bool {
        concat_rows(self.chunks@, self.chunks@.len() as int).len() <= MAX_ROWS
    }

    /// The rows of the column: `None` for a null row.
    pub closed spec fn view(&self) -> Seq<Option<T>> {
        concat_rows(self.chunks@, self.chunks@.len() as int)
    }

    /// The name of the column.
    pub closed spec fn name_view(&self) -> Seq<char> {
        self.name@
    }

    /// The sortedness flag of the column.
    pub closed spec fn sorted_flag(&self) -> IsSorted {
        self.sorted
    }

    /// The rows of each chunk.
    pub closed spec fn chunk_views(&self) -> Seq<Seq<Option<T>>> {
        Seq::new(self.chunks@.len(), |c: int| self.chunks@[c]@)
    }

    /// Whether some chunk has a validity bitmap.
    pub closed spec fn has_mask(&self) -> bool {
        exists|c: int| 0 <= c < self.chunks@.len() && (#[trigger] self.chunks@[c]).mask().is_some()
    }

    /// A column from its chunks.
    pub fn from_chunks(name: &str, chunks: Vec<PrimitiveArray<T>>) -> (ca: Self)
        requires
            concat_rows(chunks@, chunks@.len() as int).len() <= MAX_ROWS,
        ensures
            ca@ == concat_rows(chunks@, chunks@.len() as int),
            ca.name_view() == name@,
            ca.sorted_flag() == IsSorted::Not,
            ca.chunk_views() == Seq::new(chunks@.len(), |c: int| chunks@[c]@),
    {
        ChunkedArray { name: name.to_owned(), chunks, sorted: IsSorted::Not }
    }

    /// A column of one chunk.
    pub fn from_chunk(name: &str, chunk: PrimitiveArray<T>) -> (ca: Self)
        requires
            chunk@.len() <= MAX_ROWS,
        ensures
            ca@ == chunk@,
            ca.name_view() == name@,
            ca.sorted_flag() == IsSorted::Not,
            ca.chunk_views() == Seq::<Seq<Option<T>>>::empty().push(chunk@),
            ca.has_mask() == chunk.mask().is_some(),
    {
        let mut chunks: Vec<PrimitiveArray<T>> = Vec::new();
        let ghost rows = chunk@;
        let ghost masked = chunk.mask().is_some();
        chunks.push(chunk);
        proof {
            assert(concat_rows(chunks@, 0) =~= Seq::<Option<T>>::empty());
            assert(concat_rows(chunks@, 1) =~= rows);
        }
        let ca = ChunkedArray { name: name.to_owned(), chunks, sorted: IsSorted::Not };
        proof {
            assert(ca.chunk_views() =~= Seq::<Seq<Option<T>>>::empty().push(rows));
            if masked {
                assert(ca.chunks@[0].mask().is_some());
            }
        }
        ca
    }

    /// Name of the column.
    pub fn name(&self) -> (name: &str)
        ensures
            name@ == self.name_view(),
    {
        self.name.as_str()
    }

    /// Renames the column; its rows and its flag stay.
    pub fn rename(&mut self, name: &str)
        ensures
            final(self).name_view() == name@,
            final(self)@ == old(self)@,
            final(self).sorted_flag() == old(self).sorted_flag(),
            final(self).chunk_views() == old(self).chunk_views(),
    {
        proof {
            use_type_invariant(&*self);
        }
        self.name = name.to_owned();
    }

    /// Number of chunks.
    pub fn n_chunks(&self) -> (n: usize)
        ensures
            n == self.chunk_views().len(),
    {
        self.chunks.len()
    }

    /// Number of rows.
    pub fn len(&self) -> (n: usize)
        ensures
            n == self@.len(),
            n <= MAX_ROWS,
    {
        proof {
            use_type_invariant(self);
        }
        let mut n: usize = 0;
        let mut c: usize = 0;
        while c < self.chunks.len()
            invariant
                0 <= c <= self.chunks@.len(),
                n == concat_rows(self.chunks@, c as int).len(),
                concat_rows(self.chunks@, self.chunks@.len() as int).len() <= MAX_ROWS,
            decreases self.chunks@.len() - c,
        {
            proof {
                lemma_concat_rows_grows(self.chunks@, c + 1, self.chunks@.len() as int);
            }
            n = n + self.chunks[c].len();
            c = c + 1;
        }
        n
    }

    /// Whether the column has no rows.
    pub fn is_empty(&self) -> (empty: bool)
        ensures
            empty == (self@.len() == 0),
    {
        self.len() == 0
    }

    /// The chunk at position `c`.
    pub fn chunk(&self, c: usize) -> (chunk: &PrimitiveArray<T>)
        requires
            c < self.chunk_views().len(),
        ensures
            chunk@ == self.chunk_views()[c as int],
            self.chunk_views().len() == 1 ==> chunk@ == self@,
            chunk@.len() <= MAX_ROWS,
            chunk.mask().is_some() ==> self.has_mask(),
            self.chunk_views().len() == 1 ==> chunk.mask().is_some() == self.has_mask(),
    {
        proof {
            use_type_invariant(self);
            lemma_concat_rows_grows(self.chunks@, c + 1, self.chunks@.len() as int);
            if self.chunks@.len() == 1 {
                assert(concat_rows(self.chunks@, 0) =~= Seq::<Option<T>>::empty());
                assert(concat_rows(self.chunks@, 1) =~= self.chunks@[0]@);
            }
        }
        &self.chunks[c]
    }

    /// Whether some chunk has a validity bitmap, so that rows may be null.
    pub fn has_validity(&self) -> (has: bool)
        ensures
            has == self.has_mask(),
    {
        let mut c: usize = 0;
        while c < self.chunks.len()
            invariant
                0 <= c <= self.chunks@.len(),
                forall|d: int| 0 <= d < c ==> (#[trigger] self.chunks@[d]).mask().is_none(),
            decreases self.chunks@.len() - c,
        {
            if self.chunks[c].has_validity() {
                return true;
            }
            c = c + 1;
        }
        false
    }

    /// The sortedness flag.
    pub fn is_sorted_flag(&self) -> (flag: IsSorted)
        ensures
            flag == self.sorted_flag(),
    {
        self.sorted
    }

    /// Whether the flag says that the rows are in increasing order.
    pub fn is_sorted_ascending_flag(&self) -> (ascending: bool)
        ensures
            ascending == (self.sorted_flag() == IsSorted::Ascending),
    {
        match self.sorted {
            IsSorted::Ascending => true,
            _ => false,
        }
    }

    /// Whether the flag says that the rows are in decreasing order.
    pub fn is_sorted_descending_flag(&self) -> (descending: bool)
        ensures
            descending == (self.sorted_flag() == IsSorted::Descending),
    {
        match self.sorted {
            IsSorted::Descending => true,
            _ => false,
        }
    }

    /// Sets the sortedness flag. The caller answers for it: a flag other than
    /// `Not` has to say how the rows are in fact ordered.
    pub fn set_sorted_flag(&mut self, sorted: IsSorted)
        ensures
            final(self).sorted_flag() == sorted,
            final(self)@ == old(self)@,
            final(self).name_view() == old(self).name_view(),
            final(self).chunk_views() == old(self).chunk_views(),
            final(self).has_mask() == old(self).has_mask(),
    {
        proof {
            use_type_invariant(&*self);
        }
        self.sorted = sorted;
    }
}

impl<T> ChunkedArray<T> {
    /// Row `i` by reference: its value, or `None` where the row is null.
    pub fn get_ref(&self, i: usize) -> (item: Option<&T>)
        requires
            i < self@.len(),
        ensures
            match item {
                Some(value) => self@[i as int] == Some(*value),
                None => self@[i as int].is_none(),
            },
    {
        let n_chunks: usize = self.chunks.len();
        let mut c: usize = 0;
        let mut skipped: usize = 0;
        proof {
            if n_chunks == 0 {
                assert(self@.len() == 0);
            }
        }
        loop
            invariant
                n_chunks == self.chunks@.len(),
                0 <= c < self.chunks@.len(),
                skipped == concat_rows(self.chunks@, c as int).len(),
                skipped <= i < self@.len(),
            decreases self.chunks@.len() - c,
        {
            proof {
                lemma_concat_rows_grows(self.chunks@, c + 1, self.chunks@.len() as int);
            }
            let chunk = &self.chunks[c];
            let n: usize = chunk.len();
            if i - skipped < n {
                let at: usize = i - skipped;
                proof {
                    assert(concat_rows(self.chunks@, c + 1)[i as int] == chunk@[at as int]);
                }
                if chunk.is_valid(at) {
                    return Some(&chunk.values()[at]);
                } else {
                    return None;
                }
            }
            skipped = skipped + n;
            c = c + 1;
            proof {
                if c == self.chunks@.len() {
                    assert(false);
                }
            }
        }
    }
}

impl<T: Value> ChunkedArray<T> {
    /// Row `i`: its value, or `None` where the row is null.
    pub fn get(&self, i: usize) -> (item: Option<T>)
        requires
            i < self@.len(),
        ensures
            item == self@[i as int],
    {
        let n_chunks: usize = self.chunks.len();
        let mut c: usize = 0;
        let mut skipped: usize = 0;
        proof {
            if n_chunks == 0 {
                assert(self@.len() == 0);
            }
        }
        loop
            invariant
                n_chunks == self.chunks@.len(),
                0 <= c < self.chunks@.len(),
                skipped == concat_rows(self.chunks@, c as int).len(),
                skipped <= i < self@.len(),
            decreases self.chunks@.len() - c,
        {
            proof {
                lemma_concat_rows_grows(self.chunks@, c + 1, self.chunks@.len() as int);
            }
            let chunk = &self.chunks[c];
            let n: usize = chunk.len();
            if i - skipped < n {
                let at: usize = i - skipped;
                let item = if chunk.is_valid(at) {
                    Some(chunk.values()[at].duplicate())
                } else {
                    None
                };
                proof {
                    assert(concat_rows(self.chunks@, c + 1)[i as int] == chunk@[at as int]);
                }
                return item;
            }
            skipped = skipped + n;
            c = c + 1;
            proof {
                if c == self.chunks@.len() {
                    assert(false);
                }
            }
        }
    }

    /// The rows of the column as a vector.
    pub fn to_options(&self) -> (items: Vec<Option<T>>)
        ensures
            items@ == self@,
    {
        let mut items: Vec<Option<T>> = Vec::new();
        let mut c: usize = 0;
        while c < self.chunks.len()
            invariant
                0 <= c <= self.chunks@.len(),
                items@ == concat_rows(self.chunks@, c as int),
            decreases self.chunks@.len() - c,
        {
            let chunk = &self.chunks[c];
            let ghost start = items@;
            let mut j: usize = 0;
            while j < chunk.len()
                invariant
                    0 <= j <= chunk@.len(),
                    items@ == start + chunk@.subrange(0, j as int),
                decreases chunk@.len() - j,
            {
                let item = if chunk.is_valid(j) {
                    Some(chunk.values()[j].duplicate())
                } else {
                    None
                };
                items.push(item);
                assert(items@ =~= start + chunk@.subrange(0, j + 1));
                j = j + 1;
            }
            assert(chunk@.subrange(0, chunk@.len() as int) =~= chunk@);
            c = c + 1;
        }
        items
    }
}

/// The first `n` rows that the mask keeps: those where it is `true`, not
/// where it is `false` or null.
pub open spec fn filter_rows<T>(rows: Seq<Option<T>>, mask: Seq<Option<bool>>, n: int) -> Seq<
    Option<T>,
>
    decreases n,
{
    if n <= 0 {
        Seq::empty()
    } else if mask[n - 1] == Some(true) {
        filter_rows(rows, mask, n - 1).push(rows[n - 1])
    } else {
        filter_rows(rows, mask, n - 1)
    }
}

/// A mask keeps no more rows than there are.
pub proof fn lemma_filter_rows_len<T>(rows: Seq<Option<T>>, mask: Seq<Option<bool>>, n: int)
    requires
        0 <= n,
    ensures
        filter_rows(rows, mask, n).len() <= n,
    decreases n,
{
    if n > 0 {
        lemma_filter_rows_len(rows, mask, n - 1);
    }
}

impl<T: Value> ChunkedArray<T> {
    /// A column of one chunk whose rows are `items`.
    pub fn from_options(name: &str, items: &[Option<T>]) -> (ca: Self)
        requires
            items@.len() <= MAX_ROWS,
        ensures
            ca@ == items@,
            ca.name_view() == name@,
            ca.sorted_flag() == IsSorted::Not,
            ca.chunk_views().len() == 1,
            ca.has_mask(),
    {
        let chunk = PrimitiveArray::from_options(items);
        ChunkedArray::from_chunk(name, chunk)
    }

    /// A column of one chunk without null rows, whose values are `values`.
    pub fn new(name: &str, values: &[T]) -> (ca: Self)
        requires
            values@.len() <= MAX_ROWS,
        ensures
            ca@ == Seq::new(values@.len(), |i: int| Some(values@[i])),
            ca.name_view() == name@,
            ca.sorted_flag() == IsSorted::Not,
            ca.chunk_views().len() == 1,
            !ca.has_mask(),
    {
        let mut copy: Vec<T> = Vec::with_capacity(values.len());
        let mut i: usize = 0;
        while i < values.len()
            invariant
                0 <= i <= values@.len(),
                copy@ == values@.subrange(0, i as int),
            decreases values@.len() - i,
        {
            copy.push(values[i].duplicate());
            assert(copy@ =~= values@.subrange(0, i + 1));
            i = i + 1;
        }
        assert(copy@ =~= values@);
        let chunk = PrimitiveArray::from_vec(copy);
        assert(chunk@ =~= Seq::new(values@.len(), |i: int| Some(values@[i])));
        ChunkedArray::from_chunk(name, chunk)
    }

    /// A column of `len` null rows.
    pub fn full_null(name: &str, len: usize) -> (ca: Self)
        requires
            len <= MAX_ROWS,
        ensures
            ca@ == Seq::new(len as nat, |i: int| None::<T>),
            ca.name_view() == name@,
            ca.sorted_flag() == IsSorted::Not,
            ca.chunk_views().len() == 1,
    {
        let mut items: Vec<Option<T>> = Vec::with_capacity(len);
        let mut i: usize = 0;
        while i < len
            invariant
                0 <= i <= len,
                items@.len() == i,
                forall|j: int| 0 <= j < i ==> items@[j].is_none(),
            decreases len - i,
        {
            items.push(None);
            i = i + 1;
        }
        assert(items@ =~= Seq::new(len as nat, |i: int| None::<T>));
        ChunkedArray::from_options(name, items.as_slice())
    }

    /// Adds the rows of `other` after the rows of the column, as one more
    /// chunk. Nothing is known of the order of the rows afterwards.
    pub fn append(&mut self, other: &Self)
        requires
            old(self)@.len() + other@.len() <= MAX_ROWS,
        ensures
            final(self)@ == old(self)@ + other@,
            final(self).name_view() == old(self).name_view(),
            final(self).sorted_flag() == IsSorted::Not,
            final(self).chunk_views().len() == old(self).chunk_views().len() + 1,
    {
        proof {
            use_type_invariant(&*self);
        }
        let items = other.to_options();
        let chunk = PrimitiveArray::from_options(items.as_slice());
        let ghost before = self.chunks@;
        let mut chunks: Vec<PrimitiveArray<T>> = Vec::new();
        core::mem::swap(&mut chunks, &mut self.chunks);
        chunks.push(chunk);
        proof {
            lemma_concat_rows_same(before, chunks@, before.len() as int);
        }
        self.chunks = chunks;
        self.sorted = IsSorted::Not;
    }

    /// Puts all rows into one chunk. The rows, the name and the flag stay.
    pub fn rechunk(&mut self)
        ensures
            final(self)@ == old(self)@,
            final(self).name_view() == old(self).name_view(),
            final(self).sorted_flag() == old(self).sorted_flag(),
            final(self).chunk_views().len() == 1,
    {
        proof {
            use_type_invariant(&*self);
        }
        if self.chunks.len() == 1 {
            return ;
        }
        let items = self.to_options();
        let chunk = PrimitiveArray::from_options(items.as_slice());
        let mut chunks: Vec<PrimitiveArray<T>> = Vec::new();
        chunks.push(chunk);
        proof {
            assert(concat_rows(chunks@, 0) =~= Seq::<Option<T>>::empty());
            assert(concat_rows(chunks@, 1) =~= items@);
        }
        self.chunks = chunks;
    }

    /// The first `num_elements` rows, or all rows where the column has fewer.
    pub fn limit(&self, num_elements: usize) -> (out: PolarsResult<Self>)
        ensures
            out matches Ok(ca) && ca@ == self@.subrange(
                0,
                if num_elements <= self@.len() {
                    num_elements as int
                } else {
                    self@.len() as int
                },
            ) && ca.name_view() == self.name_view() && ca.sorted_flag() == IsSorted::Not,
    {
        let len: usize = self.len();
        let n: usize = if num_elements <= len {
            num_elements
        } else {
            len
        };
        let mut items: Vec<Option<T>> = Vec::with_capacity(n);
        let mut i: usize = 0;
        while i < n
            invariant
                0 <= i <= n <= self@.len(),
                items@ == self@.subrange(0, i as int),
            decreases n - i,
        {
            items.push(self.get(i));
            assert(items@ =~= self@.subrange(0, i + 1));
            i = i + 1;
        }
        Ok(ChunkedArray::from_options(self.name(), items.as_slice()))
    }

    /// The rows that the mask keeps. A mask of another length than the
    /// column is refused.
    pub fn filter(&self, mask: &ChunkedArray<bool>) -> (out: PolarsResult<Self>)
        ensures
            mask@.len() != self@.len() ==> out matches Err(PolarsError::ShapeMisMatch),
            mask@.len() == self@.len() ==> (out matches Ok(ca) && ca@ == filter_rows(
                self@,
                mask@,
                self@.len() as int,
            ) && ca.name_view() == self.name_view() && ca.sorted_flag() == IsSorted::Not),
    {
        let len: usize = self.len();
        if mask.len() != len {
            return Err(PolarsError::ShapeMisMatch);
        }
        let mut items: Vec<Option<T>> = Vec::new();
        let mut i: usize = 0;
        while i < len
            invariant
                len == self@.len(),
                len == mask@.len(),
                0 <= i <= len,
                items@ == filter_rows(self@, mask@, i as int),
            decreases len - i,
        {
            let keep = match mask.get(i) {
                Some(flag) => flag,
                None => false,
            };
            if keep {
                items.push(self.get(i));
            }
            i = i + 1;
        }
        proof {
            lemma_filter_rows_len(self@, mask@, len as int);
        }
        Ok(ChunkedArray::from_options(self.name(), items.as_slice()))
    }
}

/// Whether every index among the first `n` rows of `indices` names a row of
/// a column of `len` rows; a null row names none.
pub open spec fn indices_in_bounds(indices: Seq<Option<u32>>, len: int, n: int) -> bool {
    forall|i: int| 0 <= i < n && (#[trigger] indices[i]).is_some() ==> indices[i].unwrap() < len
}

/// The rows that the indices take from `rows`: for every index the row that
/// it names, and a null row for a null index.
pub open spec fn take_rows<T>(rows: Seq<Option<T>>, indices: Seq<Option<u32>>) -> Seq<Option<T>> {
    Seq::new(
        indices.len(),
        |i: int|
            match indices[i] {
                Some(index) => rows[index as int],
                None => None,
            },
    )
}

impl<T: Value> ChunkedArray<T> {
    /// Take by index: the rows that the indices name, in the order of the
    /// indices. An index beyond the last row is refused.
    pub fn take(&self, indices: &ChunkedArray<u32>) -> (out: PolarsResult<Self>)
        ensures
            !indices_in_bounds(indices@, self@.len() as int, indices@.len() as int) ==> out matches Err(
                PolarsError::OutOfBounds,
            ),
            indices_in_bounds(indices@, self@.len() as int, indices@.len() as int) ==> (out matches Ok(
                ca,
            ) && ca@ == take_rows(self@, indices@) && ca.name_view() == self.name_view()
                && ca.sorted_flag() == IsSorted::Not),
    {
        let len: usize = self.len();
        let n: usize = indices.len();
        let mut items: Vec<Option<T>> = Vec::with_capacity(n);
        let mut i: usize = 0;
        while i < n
            invariant
                len == self@.len(),
                n == indices@.len(),
                0 <= i <= n,
                items@.len() == i,
                indices_in_bounds(indices@, len as int, i as int),
                forall|j: int| 0 <= j < i ==> #[trigger] items@[j] == take_rows(self@, indices@)[j],
            decreases n - i,
        {
            match indices.get(i) {
                Some(index) => {
                    if (index as usize) < len {
                        items.push(self.get(index as usize));
                    } else {
                        return Err(PolarsError::OutOfBounds);
                    }
                },
                None => {
                    items.push(None);
                },
            }
            i = i + 1;
        }
        assert(items@ =~= take_rows(self@, indices@));
        Ok(ChunkedArray::from_options(self.name(), items.as_slice()))
    }
}

/// The values of the first `n` rows that hold one, in the order of the rows.
pub open spec fn present_values<T>(rows: Seq<Option<T>>, n: int) -> Seq<T>
    decreases n,
{
    if n <= 0 {
        Seq::empty()
    } else {
        match rows[n - 1] {
            Some(value) => present_values(rows, n - 1).push(value),
            None => present_values(rows, n - 1),
        }
    }
}

/// There are no more values than rows.
pub proof fn lemma_present_values_len<T>(rows: Seq<Option<T>>, n: int)
    requires
        0 <= n,
    ensures
        present_values(rows, n).len() <= n,
    decreases n,
{
    if n > 0 {
        lemma_present_values_len(rows, n - 1);
    }
}

/// `nulls` null rows followed by the values.
pub open spec fn nulls_then<T>(nulls: int, values: Seq<T>) -> Seq<Option<T>> {
    Seq::new(
        (nulls + values.len()) as nat,
        |i: int|
            if i < nulls {
                None
            } else {
                Some(values[i - nulls])
            },
    )
}

/// Whether `after` holds the rows of `before` in sorted order: the null rows
/// first, then the values of `before`, each as often as in `before`, in
/// increasing order, NaN last.
pub open spec fn is_sorted_of<T: NativeType>(
    after: Seq<Option<T>>,
    before: Seq<Option<T>>,
) -> bool {
    exists|sorted: Seq<T>, perm: Seq<int>| #[trigger]
        is_rearranged(sorted, present_values(before, before.len() as int), perm)
            && is_sorted_values(sorted) && after == nulls_then(before.len() - sorted.len(), sorted)
}

/// The rows below `n` that are null, in increasing order.
pub open spec fn null_rows<T>(rows: Seq<Option<T>>, n: int) -> Seq<int>
    decreases n,
{
    if n <= 0 {
        Seq::empty()
    } else if rows[n - 1].is_none() {
        null_rows(rows, n - 1).push(n - 1)
    } else {
        null_rows(rows, n - 1)
    }
}

/// The rows below `n` that hold a value, in increasing order.
pub open spec fn present_rows<T>(rows: Seq<Option<T>>, n: int) -> Seq<int>
    decreases n,
{
    if n <= 0 {
        Seq::empty()
    } else if rows[n - 1].is_some() {
        present_rows(rows, n - 1).push(n - 1)
    } else {
        present_rows(rows, n - 1)
    }
}

/// The null rows and the rows with a value are the rows below `n`, each in
/// increasing order.
pub proof fn lemma_null_and_present_rows<T>(rows: Seq<Option<T>>, n: int)
    requires
        0 <= n <= rows.len(),
    ensures
        null_rows(rows, n).len() + present_rows(rows, n).len() == n,
        forall|k: int|
            0 <= k < null_rows(rows, n).len() ==> 0 <= #[trigger] null_rows(rows, n)[k] < n
                && rows[null_rows(rows, n)[k]].is_none(),
        forall|k: int|
            0 <= k < present_rows(rows, n).len() ==> 0 <= #[trigger] present_rows(rows, n)[k] < n
                && rows[present_rows(rows, n)[k]].is_some(),
        forall|j: int, k: int|
            0 <= j < k < null_rows(rows, n).len() ==> null_rows(rows, n)[j] < null_rows(
                rows,
                n,
            )[k],
        forall|j: int, k: int|
            0 <= j < k < present_rows(rows, n).len() ==> present_rows(rows, n)[j] < present_rows(
                rows,
                n,
            )[k],
    decreases n,
{
    if n > 0 {
        lemma_null_and_present_rows(rows, n - 1);
    }
}

/// Whether `order` is an order in which the rows are sorted: it names every
/// row once, the null rows first, then the rows with a value in an order in
/// which the values do not decrease, NaN last.
pub open spec fn is_argsort_of<T: NativeType>(
    order: Seq<Option<u32>>,
    rows: Seq<Option<T>>,
) -> bool {
    &&& order.len() == rows.len()
    &&& forall|k: int| 0 <= k < order.len() ==> (#[trigger] order[k]).is_some()
    &&& is_permutation(Seq::new(order.len(), |k: int| order[k].unwrap() as int), rows.len())
    &&& forall|j: int, k: int|
        0 <= j < k < order.len() ==> is_in_order(
            rows[(#[trigger] order[j]).unwrap() as int],
            rows[(#[trigger] order[k]).unwrap() as int],
        )
}

/// Whether a row with the first value may stand before a row with the
/// second: a null row may stand before any row, and a value before a value
/// that does not come strictly before it.
pub open spec fn is_in_order<T: NativeType>(first: Option<T>, second: Option<T>) -> bool {
    match (first, second) {
        (None, _) => true,
        (Some(_), None) => false,
        (Some(a), Some(b)) => !sorts_before(b, a),
    }
}

impl<T: NativeType> ChunkedArray<T> {
    /// Sorts the rows: the null rows first, then the values in increasing
    /// order, NaN last. The column is one chunk afterwards and holds the same
    /// values as before, each as often as before. The flag is reset.
    pub fn sort_in_place(&mut self)
        ensures
            final(self).name_view() == old(self).name_view(),
            final(self).chunk_views().len() == 1,
            final(self).sorted_flag() == IsSorted::Not,
            is_sorted_of(final(self)@, old(self)@),
    {
        proof {
            use_type_invariant(&*self);
        }
        let n: usize = self.len();
        let ghost rows = self@;
        let mut values: Vec<T> = Vec::new();
        let mut i: usize = 0;
        while i < n
            invariant
                n == rows.len(),
                rows == self@,
                0 <= i <= n,
                values@ == present_values(rows, i as int),
            decreases n - i,
        {
            match self.get(i) {
                Some(value) => {
                    values.push(value);
                },
                None => {},
            }
            i = i + 1;
        }
        proof {
            lemma_present_values_len(rows, n as int);
        }
        let ghost unsorted = values@;
        sort_buf(&mut values);
        let ghost perm = choose|perm: Seq<int>| #[trigger] is_rearranged(values@, unsorted, perm);
        let nulls: usize = n - values.len();
        let mut items: Vec<Option<T>> = Vec::with_capacity(n);
        let mut j: usize = 0;
        while j < n
            invariant
                n == nulls + values@.len(),
                0 <= j <= n,
                items@.len() == j,
                forall|k: int| 0 <= k < j ==> #[trigger] items@[k] == nulls_then(
                    nulls as int,
                    values@,
                )[k],
            decreases n - j,
        {
            if j < nulls {
                items.push(None);
            } else {
                items.push(Some(values[j - nulls]));
            }
            j = j + 1;
        }
        assert(items@ =~= nulls_then(nulls as int, values@));
        let chunk = PrimitiveArray::from_options(items.as_slice());
        let mut chunks: Vec<PrimitiveArray<T>> = Vec::new();
        chunks.push(chunk);
        proof {
            assert(concat_rows(chunks@, 0) =~= Seq::<Option<T>>::empty());
            assert(concat_rows(chunks@, 1) =~= items@);
        }
        self.chunks = chunks;
        self.sorted = IsSorted::Not;
        proof {
            assert(is_rearranged(values@, present_values(rows, rows.len() as int), perm)
                && is_sorted_values(values@) && self@ == nulls_then(
                rows.len() - values@.len(),
                values@,
            ));
        }
    }

    /// An order in which the rows are sorted: the numbers of the null rows
    /// first, then the numbers of the rows with a value in an order in which
    /// the values do not decrease, NaN last.
    pub fn argsort(&self) -> (order: ChunkedArray<u32>)
        requires
            self@.len() <= u32::MAX,
        ensures
            is_argsort_of(order@, self@),
            order.name_view() == self.name_view(),
            order.sorted_flag() == IsSorted::Not,
    {
        let n: usize = self.len();
        let ghost rows = self@;
        let mut nulls: Vec<usize> = Vec::new();
        let mut pairs: Vec<(T, usize)> = Vec::new();
        let mut i: usize = 0;
        while i < n
            invariant
                n == rows.len(),
                rows == self@,
                0 <= i <= n,
                nulls@.len() == null_rows(rows, i as int).len(),
                forall|k: int| 0 <= k < nulls@.len() ==> #[trigger] nulls@[k] == null_rows(
                    rows,
                    i as int,
                )[k],
                pairs@.len() == present_rows(rows, i as int).len(),
                forall|k: int|
                    0 <= k < pairs@.len() ==> (#[trigger] pairs@[k]).1 == present_rows(
                        rows,
                        i as int,
                    )[k] && rows[pairs@[k].1 as int] == Some(pairs@[k].0),
            decreases n - i,
        {
            match self.get(i) {
                Some(value) => {
                    pairs.push((value, i));
                },
                None => {
                    nulls.push(i);
                },
            }
            i = i + 1;
        }
        let ghost unsorted = pairs@;
        sort_pairs(&mut pairs);
        let ghost perm = choose|perm: Seq<int>| #[trigger] is_rearranged(pairs@, unsorted, perm);
        proof {
            lemma_null_and_present_rows(rows, n as int);
        }
        let n_nulls: usize = nulls.len();
        let mut items: Vec<Option<u32>> = Vec::with_capacity(n);
        let mut k: usize = 0;
        while k < n
            invariant
                n == rows.len(),
                n <= u32::MAX,
                n_nulls == nulls@.len(),
                n == n_nulls + pairs@.len(),
                0 <= k <= n,
                items@.len() == k,
                forall|j: int| 0 <= j < nulls@.len() ==> 0 <= #[trigger] nulls@[j] < n,
                forall|j: int| 0 <= j < pairs@.len() ==> 0 <= (#[trigger] pairs@[j]).1 < n,
                forall|j: int|
                    0 <= j < k ==> #[trigger] items@[j] == Some(
                        (if j < n_nulls {
                            nulls@[j]
                        } else {
                            pairs@[j - n_nulls].1
                        }) as u32,
                    ),
            decreases n - k,
        {
            if k < n_nulls {
                items.push(Some(nulls[k] as u32));
            } else {
                items.push(Some(pairs[k - n_nulls].1 as u32));
            }
            k = k + 1;
        }
        let order = ChunkedArray::from_options(self.name(), items.as_slice());
        proof {
            let places = Seq::new(order@.len(), |k: int| order@[k].unwrap() as int);
            let absent = null_rows(rows, n as int);
            let present = present_rows(rows, n as int);
            assert forall|j: int| 0 <= j < n implies #[trigger] places[j] == (if j < n_nulls {
                absent[j]
            } else {
                present[perm[j - n_nulls]]
            }) by {
                if j >= n_nulls {
                    assert(pairs@[j - n_nulls] == unsorted[perm[j - n_nulls]]);
                }
            }
            assert forall|j: int, k: int| 0 <= j < k < n implies #[trigger] places[j]
                != #[trigger] places[k] by {
                if k < n_nulls {
                } else if j < n_nulls {
                    assert(rows[absent[j]].is_none());
                    assert(rows[present[perm[k - n_nulls]]].is_some());
                } else {
                    let a = perm[j - n_nulls];
                    let b = perm[k - n_nulls];
                    assert(a != b);
                    if a < b {
                        assert(present[a] < present[b]);
                    } else {
                        assert(present[b] < present[a]);
                    }
                }
            }
            assert forall|j: int, k: int| 0 <= j < k < order@.len() implies is_in_order(
                rows[(#[trigger] order@[j]).unwrap() as int],
                rows[(#[trigger] order@[k]).unwrap() as int],
            ) by {
                assert(places[j] == order@[j].unwrap() as int);
                assert(places[k] == order@[k].unwrap() as int);
                if j < n_nulls {
                    assert(rows[absent[j]].is_none());
                } else {
                    let first = pairs@[j - n_nulls];
                    let second = pairs@[k - n_nulls];
                    assert(first == unsorted[perm[j - n_nulls]]);
                    assert(second == unsorted[perm[k - n_nulls]]);
                    assert(first_parts(pairs@)[j - n_nulls] == first.0);
                    assert(first_parts(pairs@)[k - n_nulls] == second.0);
                }
            }
        }
        order
    }
}

/// Whether `to` is the row `from` cast to the integer type `T`: the same
/// number where `T` has it, and null where it has not or where `from` is
/// null.
pub open spec fn is_cast_of<S: NumericNative, T: NumericNative>(
    to: Option<T>,
    from: Option<S>,
) -> bool {
    match from {
        Some(value) => if T::min_rank() <= value.rank() <= T::max_rank() {
            to.is_some() && to.unwrap().rank() == value.rank()
        } else {
            to.is_none()
        },
        None => to.is_none(),
    }
}

impl<S: NumericNative> ChunkedArray<S> {
    /// Casts the rows to another integer type. A number that the other type
    /// does not have becomes a null row.
    pub fn cast_rows<T: NumericNative>(&self) -> (out: ChunkedArray<T>)
        ensures
            out@.len() == self@.len(),
            forall|i: int| 0 <= i < self@.len() ==> is_cast_of(#[trigger] out@[i], self@[i]),
            out.name_view() == self.name_view(),
            out.sorted_flag() == IsSorted::Not,
    {
        let n: usize = self.len();
        let mut items: Vec<Option<T>> = Vec::with_capacity(n);
        let mut i: usize = 0;
        while i < n
            invariant
                n == self@.len(),
                0 <= i <= n,
                items@.len() == i,
                forall|j: int| 0 <= j < i ==> is_cast_of(#[trigger] items@[j], self@[j]),
            decreases n - i,
        {
            let item: Option<T> = match self.get(i) {
                Some(value) => T::from_i128(value.to_i128()),
                None => None,
            };
            proof {
                if item.is_some() {
                    T::lemma_sum_in_range(item.unwrap(), item.unwrap());
                }
            }
            items.push(item);
            i = i + 1;
        }
        ChunkedArray::from_options(self.name(), items.as_slice())
    }
}

} // verus!
