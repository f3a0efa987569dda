//! A column of any of the supported types.

use crate::chunked_array::{
    filter_rows,
    indices_in_bounds,
    is_cast_of,
    is_argsort_of,
    is_sorted_of,
    take_rows,
    ChunkedArray,
};
use crate::datatypes::{
    AnyType,
    Field,
    BooleanChunked,
    DataType,
    Date32Chunked,
    Date64Chunked,
    DurationNsChunked,
    Float32Chunked,
    Float64Chunked,
    Int32Chunked,
    Int64Chunked,
    Time64NsChunked,
    UInt32Chunked,
    Utf8Chunked,
};
use crate::error::{PolarsError, PolarsResult};
use crate::native::{Float32, Float64};
use crate::bitmap::MAX_ROWS;
use vstd::prelude::*;

verus! {

/// A column: one of the typed columns, told apart by its data type.
pub enum Series {
    UInt32(ChunkedArray<u32>),
    Int32(ChunkedArray<i32>),
    Int64(ChunkedArray<i64>),
    Float32(ChunkedArray<Float32>),
    Float64(ChunkedArray<Float64>),
    Utf8(ChunkedArray<String>),
    Bool(ChunkedArray<bool>),
    Date32(ChunkedArray<i32>),
    Date64(ChunkedArray<i64>),
    Time64Ns(ChunkedArray<i64>),
    DurationNs(ChunkedArray<i64>),
}

/// The rows of a typed column as values of any type: a null row is `Null`.
pub open spec fn any_rows_uint32(rows: Seq<Option<u32>>) -> Seq<AnyType> {
    Seq::new(
        rows.len(),
        |i: int|
            match rows[i] {
                Some(value) => AnyType::UInt32(value),
                None => AnyType::Null,
            },
    )
}

/// The rows of a `Int32` column as values of any type.
pub open spec fn any_rows_int32(rows: Seq<Option<i32>>) -> Seq<AnyType> {
    Seq::new(
        rows.len(),
        |i: int|
            match rows[i] {
                Some(value) => AnyType::Int32(value),
                None => AnyType::Null,
            },
    )
}

/// The rows of a `Int64` column as values of any type.
pub open spec fn any_rows_int64(rows: Seq<Option<i64>>) -> Seq<AnyType> {
    Seq::new(
        rows.len(),
        |i: int|
            match rows[i] {
                Some(value) => AnyType::Int64(value),
                None => AnyType::Null,
            },
    )
}

/// The rows of a `Float32` column as values of any type.
pub open spec fn any_rows_float32(rows: Seq<Option<Float32>>) -> Seq<AnyType> {
    Seq::new(
        rows.len(),
        |i: int|
            match rows[i] {
                Some(value) => AnyType::Float32(value),
                None => AnyType::Null,
            },
    )
}

/// The rows of a `Float64` column as values of any type.
pub open spec fn any_rows_float64(rows: Seq<Option<Float64>>) -> Seq<AnyType> {
    Seq::new(
        rows.len(),
        |i: int|
            match rows[i] {
                Some(value) => AnyType::Float64(value),
                None => AnyType::Null,
            },
    )
}

/// The rows of a `Utf8` column as values of any type.
pub open spec fn any_rows_utf8(rows: Seq<Option<String>>) -> Seq<AnyType> {
    Seq::new(
        rows.len(),
        |i: int|
            match rows[i] {
                Some(value) => AnyType::Utf8(value),
                None => AnyType::Null,
            },
    )
}

/// The rows of a `Bool` column as values of any type.
pub open spec fn any_rows_bool(rows: Seq<Option<bool>>) -> Seq<AnyType> {
    Seq::new(
        rows.len(),
        |i: int|
            match rows[i] {
                Some(value) => AnyType::Bool(value),
                None => AnyType::Null,
            },
    )
}

/// The rows of a `Date32` column as values of any type.
pub open spec fn any_rows_date32(rows: Seq<Option<i32>>) -> Seq<AnyType> {
    Seq::new(
        rows.len(),
        |i: int|
            match rows[i] {
                Some(value) => AnyType::Date32(value),
                None => AnyType::Null,
            },
    )
}

/// The rows of a `Date64` column as values of any type.
pub open spec fn any_rows_date64(rows: Seq<Option<i64>>) -> Seq<AnyType> {
    Seq::new(
        rows.len(),
        |i: int|
            match rows[i] {
                Some(value) => AnyType::Date64(value),
                None => AnyType::Null,
            },
    )
}

/// The rows of a `Time64Ns` column as values of any type.
pub open spec fn any_rows_time64ns(rows: Seq<Option<i64>>) -> Seq<AnyType> {
    Seq::new(
        rows.len(),
        |i: int|
            match rows[i] {
                Some(value) => AnyType::Time64Ns(value),
                None => AnyType::Null,
            },
    )
}

/// The rows of a `DurationNs` column as values of any type.
pub open spec fn any_rows_durationns(rows: Seq<Option<i64>>) -> Seq<AnyType> {
    Seq::new(
        rows.len(),
        |i: int|
            match rows[i] {
                Some(value) => AnyType::DurationNs(value),
                None => AnyType::Null,
            },
    )
}

/// The number that an integer, a date or a time is; nothing for a value of
/// another type and for a null.
pub open spec fn any_int(value: AnyType) -> Option<int> {
    match value {
        AnyType::UInt32(number) => Some(number as int),
        AnyType::Int32(number) => Some(number as int),
        AnyType::Int64(number) => Some(number as int),
        AnyType::Date32(number) => Some(number as int),
        AnyType::Date64(number) => Some(number as int),
        AnyType::Time64Ns(number) => Some(number as int),
        AnyType::DurationNs(number) => Some(number as int),
        _ => None,
    }
}

/// Whether a value of the type can hold the number.
pub open spec fn fits(dtype: DataType, number: int) -> bool {
    match dtype {
        DataType::UInt32 => 0 <= number <= u32::MAX,
        DataType::Int32 | DataType::Date32 => i32::MIN <= number <= i32::MAX,
        DataType::Int64 | DataType::Date64 | DataType::Time64Ns | DataType::DurationNs => i64::MIN
            <= number <= i64::MAX,
        _ => false,
    }
}

/// The value of the type that holds the number.
pub open spec fn any_of(dtype: DataType, number: int) -> AnyType {
    match dtype {
        DataType::UInt32 => AnyType::UInt32(number as u32),
        DataType::Int32 => AnyType::Int32(number as i32),
        DataType::Int64 => AnyType::Int64(number as i64),
        DataType::Date32 => AnyType::Date32(number as i32),
        DataType::Date64 => AnyType::Date64(number as i64),
        DataType::Time64Ns => AnyType::Time64Ns(number as i64),
        DataType::DurationNs => AnyType::DurationNs(number as i64),
        _ => AnyType::Null,
    }
}

/// A value cast to an integer-like type: the same number where the type can
/// hold it, and null where it cannot or where the value is null.
pub open spec fn cast_any(value: AnyType, dtype: DataType) -> AnyType {
    match any_int(value) {
        Some(number) => if fits(dtype, number) {
            any_of(dtype, number)
        } else {
            AnyType::Null
        },
        None => AnyType::Null,
    }
}

/// The data type of a value; none for a null.
pub open spec fn any_dtype(value: AnyType) -> Option<DataType> {
    match value {
        AnyType::Null => None,
        AnyType::Bool(_) => Some(DataType::Boolean),
        AnyType::Utf8(_) => Some(DataType::Utf8),
        AnyType::UInt32(_) => Some(DataType::UInt32),
        AnyType::Int32(_) => Some(DataType::Int32),
        AnyType::Int64(_) => Some(DataType::Int64),
        AnyType::Float32(_) => Some(DataType::Float32),
        AnyType::Float64(_) => Some(DataType::Float64),
        AnyType::Date32(_) => Some(DataType::Date32),
        AnyType::Date64(_) => Some(DataType::Date64),
        AnyType::Time64Ns(_) => Some(DataType::Time64Ns),
        AnyType::DurationNs(_) => Some(DataType::DurationNs),
    }
}

/// The value that a conversion gave, where it is of the type that was asked
/// for, and null where it is not.
pub open spec fn kept(given: AnyType, dtype: DataType) -> AnyType {
    if any_dtype(given) == Some(dtype) {
        given
    } else {
        AnyType::Null
    }
}

/// Whether `to` is the row `from` cast to `dtype` by the conversion
/// `floats`: null where `from` is null, and otherwise what the conversion
/// gave for `from`, as far as that is a value of `dtype`.
pub open spec fn is_float_cast<F: Fn(AnyType, DataType) -> AnyType>(
    floats: F,
    from: AnyType,
    dtype: DataType,
    to: AnyType,
) -> bool {
    if from == AnyType::Null {
        to == AnyType::Null
    } else {
        exists|given: AnyType| #[trigger]
            call_ensures(floats, (from, dtype), given) && to == kept(given, dtype)
    }
}

/// The rows that the indices take from rows of values of any type.
pub open spec fn take_any(rows: Seq<AnyType>, indices: Seq<Option<u32>>) -> Seq<AnyType> {
    Seq::new(
        indices.len(),
        |i: int|
            match indices[i] {
                Some(index) => rows[index as int],
                None => AnyType::Null,
            },
    )
}

/// The rows of a column of values of any type that a mask keeps.
pub open spec fn filter_any(rows: Seq<AnyType>, mask: Seq<Option<bool>>, n: int) -> Seq<AnyType>
    decreases n,
{
    if n <= 0 {
        Seq::empty()
    } else if mask[n - 1] == Some(true) {
        filter_any(rows, mask, n - 1).push(rows[n - 1])
    } else {
        filter_any(rows, mask, n - 1)
    }
}

/// Filtering the rows of a typed column and reading them as values of any
/// type can be done in either order.
proof fn lemma_filter_any_uint32(rows: Seq<Option<u32>>, mask: Seq<Option<bool>>, n: int)
    requires
        0 <= n <= rows.len(),
    ensures
        any_rows_uint32(filter_rows(rows, mask, n)) == filter_any(any_rows_uint32(rows), mask, n),
    decreases n,
{
    if n > 0 {
        lemma_filter_any_uint32(rows, mask, n - 1);
    }
    assert(any_rows_uint32(filter_rows(rows, mask, n)) =~= filter_any(
        any_rows_uint32(rows),
        mask,
        n,
    ));
}

/// Filtering the rows of a typed column and reading them as values of any
/// type can be done in either order.
proof fn lemma_filter_any_int32(rows: Seq<Option<i32>>, mask: Seq<Option<bool>>, n: int)
    requires
        0 <= n <= rows.len(),
    ensures
        any_rows_int32(filter_rows(rows, mask, n)) == filter_any(any_rows_int32(rows), mask, n),
    decreases n,
{
    if n > 0 {
        lemma_filter_any_int32(rows, mask, n - 1);
    }
    assert(any_rows_int32(filter_rows(rows, mask, n)) =~= filter_any(
        any_rows_int32(rows),
        mask,
        n,
    ));
}

/// Filtering the rows of a typed column and reading them as values of any
/// type can be done in either order.
proof fn lemma_filter_any_int64(rows: Seq<Option<i64>>, mask: Seq<Option<bool>>, n: int)
    requires
        0 <= n <= rows.len(),
    ensures
        any_rows_int64(filter_rows(rows, mask, n)) == filter_any(any_rows_int64(rows), mask, n),
    decreases n,
{
    if n > 0 {
        lemma_filter_any_int64(rows, mask, n - 1);
    }
    assert(any_rows_int64(filter_rows(rows, mask, n)) =~= filter_any(
        any_rows_int64(rows),
        mask,
        n,
    ));
}

/// Filtering the rows of a typed column and reading them as values of any
/// type can be done in either order.
proof fn lemma_filter_any_float32(rows: Seq<Option<Float32>>, mask: Seq<Option<bool>>, n: int)
    requires
        0 <= n <= rows.len(),
    ensures
        any_rows_float32(filter_rows(rows, mask, n)) == filter_any(any_rows_float32(rows), mask, n),
    decreases n,
{
    if n > 0 {
        lemma_filter_any_float32(rows, mask, n - 1);
    }
    assert(any_rows_float32(filter_rows(rows, mask, n)) =~= filter_any(
        any_rows_float32(rows),
        mask,
        n,
    ));
}

/// Filtering the rows of a typed column and reading them as values of any
/// type can be done in either order.
proof fn lemma_filter_any_float64(rows: Seq<Option<Float64>>, mask: Seq<Option<bool>>, n: int)
    requires
        0 <= n <= rows.len(),
    ensures
        any_rows_float64(filter_rows(rows, mask, n)) == filter_any(any_rows_float64(rows), mask, n),
    decreases n,
{
    if n > 0 {
        lemma_filter_any_float64(rows, mask, n - 1);
    }
    assert(any_rows_float64(filter_rows(rows, mask, n)) =~= filter_any(
        any_rows_float64(rows),
        mask,
        n,
    ));
}

/// Filtering the rows of a typed column and reading them as values of any
/// type can be done in either order.
proof fn lemma_filter_any_utf8(rows: Seq<Option<String>>, mask: Seq<Option<bool>>, n: int)
    requires
        0 <= n <= rows.len(),
    ensures
        any_rows_utf8(filter_rows(rows, mask, n)) == filter_any(any_rows_utf8(rows), mask, n),
    decreases n,
{
    if n > 0 {
        lemma_filter_any_utf8(rows, mask, n - 1);
    }
    assert(any_rows_utf8(filter_rows(rows, mask, n)) =~= filter_any(
        any_rows_utf8(rows),
        mask,
        n,
    ));
}

/// Filtering the rows of a typed column and reading them as values of any
/// type can be done in either order.
proof fn lemma_filter_any_bool(rows: Seq<Option<bool>>, mask: Seq<Option<bool>>, n: int)
    requires
        0 <= n <= rows.len(),
    ensures
        any_rows_bool(filter_rows(rows, mask, n)) == filter_any(any_rows_bool(rows), mask, n),
    decreases n,
{
    if n > 0 {
        lemma_filter_any_bool(rows, mask, n - 1);
    }
    assert(any_rows_bool(filter_rows(rows, mask, n)) =~= filter_any(
        any_rows_bool(rows),
        mask,
        n,
    ));
}

/// Filtering the rows of a typed column and reading them as values of any
/// type can be done in either order.
proof fn lemma_filter_any_date32(rows: Seq<Option<i32>>, mask: Seq<Option<bool>>, n: int)
    requires
        0 <= n <= rows.len(),
    ensures
        any_rows_date32(filter_rows(rows, mask, n)) == filter_any(any_rows_date32(rows), mask, n),
    decreases n,
{
    if n > 0 {
        lemma_filter_any_date32(rows, mask, n - 1);
    }
    assert(any_rows_date32(filter_rows(rows, mask, n)) =~= filter_any(
        any_rows_date32(rows),
        mask,
        n,
    ));
}

/// Filtering the rows of a typed column and reading them as values of any
/// type can be done in either order.
proof fn lemma_filter_any_date64(rows: Seq<Option<i64>>, mask: Seq<Option<bool>>, n: int)
    requires
        0 <= n <= rows.len(),
    ensures
        any_rows_date64(filter_rows(rows, mask, n)) == filter_any(any_rows_date64(rows), mask, n),
    decreases n,
{
    if n > 0 {
        lemma_filter_any_date64(rows, mask, n - 1);
    }
    assert(any_rows_date64(filter_rows(rows, mask, n)) =~= filter_any(
        any_rows_date64(rows),
        mask,
        n,
    ));
}

/// Filtering the rows of a typed column and reading them as values of any
/// type can be done in either order.
proof fn lemma_filter_any_time64ns(rows: Seq<Option<i64>>, mask: Seq<Option<bool>>, n: int)
    requires
        0 <= n <= rows.len(),
    ensures
        any_rows_time64ns(filter_rows(rows, mask, n)) == filter_any(
            any_rows_time64ns(rows),
            mask,
            n,
        ),
    decreases n,
{
    if n > 0 {
        lemma_filter_any_time64ns(rows, mask, n - 1);
    }
    assert(any_rows_time64ns(filter_rows(rows, mask, n)) =~= filter_any(
        any_rows_time64ns(rows),
        mask,
        n,
    ));
}

/// Filtering the rows of a typed column and reading them as values of any
/// type can be done in either order.
proof fn lemma_filter_any_durationns(rows: Seq<Option<i64>>, mask: Seq<Option<bool>>, n: int)
    requires
        0 <= n <= rows.len(),
    ensures
        any_rows_durationns(filter_rows(rows, mask, n)) == filter_any(
            any_rows_durationns(rows),
            mask,
            n,
        ),
    decreases n,
{
    if n > 0 {
        lemma_filter_any_durationns(rows, mask, n - 1);
    }
    assert(any_rows_durationns(filter_rows(rows, mask, n)) =~= filter_any(
        any_rows_durationns(rows),
        mask,
        n,
    ));
}

impl Series {
    /// The name of the column.
    pub open spec fn name_view(&self) -> Seq<char> {
        match self {
            Series::UInt32(a) => a.name_view(),
            Series::Int32(a) => a.name_view(),
            Series::Int64(a) => a.name_view(),
            Series::Float32(a) => a.name_view(),
            Series::Float64(a) => a.name_view(),
            Series::Utf8(a) => a.name_view(),
            Series::Bool(a) => a.name_view(),
            Series::Date32(a) => a.name_view(),
            Series::Date64(a) => a.name_view(),
            Series::Time64Ns(a) => a.name_view(),
            Series::DurationNs(a) => a.name_view(),
        }
    }

    /// The data type of the column.
    pub open spec fn dtype_spec(&self) -> DataType {
        match self {
            Series::UInt32(_) => DataType::UInt32,
            Series::Int32(_) => DataType::Int32,
            Series::Int64(_) => DataType::Int64,
            Series::Float32(_) => DataType::Float32,
            Series::Float64(_) => DataType::Float64,
            Series::Utf8(_) => DataType::Utf8,
            Series::Bool(_) => DataType::Boolean,
            Series::Date32(_) => DataType::Date32,
            Series::Date64(_) => DataType::Date64,
            Series::Time64Ns(_) => DataType::Time64Ns,
            Series::DurationNs(_) => DataType::DurationNs,
        }
    }

    /// The rows of the column.
    pub open spec fn view(&self) -> Seq<AnyType> {
        match self {
            Series::UInt32(a) => any_rows_uint32(a@),
            Series::Int32(a) => any_rows_int32(a@),
            Series::Int64(a) => any_rows_int64(a@),
            Series::Float32(a) => any_rows_float32(a@),
            Series::Float64(a) => any_rows_float64(a@),
            Series::Utf8(a) => any_rows_utf8(a@),
            Series::Bool(a) => any_rows_bool(a@),
            Series::Date32(a) => any_rows_date32(a@),
            Series::Date64(a) => any_rows_date64(a@),
            Series::Time64Ns(a) => any_rows_time64ns(a@),
            Series::DurationNs(a) => any_rows_durationns(a@),
        }
    }

    /// Number of chunks of the column.
    pub open spec fn n_chunks_spec(&self) -> nat {
        match self {
            Series::UInt32(a) => a.chunk_views().len(),
            Series::Int32(a) => a.chunk_views().len(),
            Series::Int64(a) => a.chunk_views().len(),
            Series::Float32(a) => a.chunk_views().len(),
            Series::Float64(a) => a.chunk_views().len(),
            Series::Utf8(a) => a.chunk_views().len(),
            Series::Bool(a) => a.chunk_views().len(),
            Series::Date32(a) => a.chunk_views().len(),
            Series::Date64(a) => a.chunk_views().len(),
            Series::Time64Ns(a) => a.chunk_views().len(),
            Series::DurationNs(a) => a.chunk_views().len(),
        }
    }

    /// Name of series.
    pub fn name(&self) -> (name: &str)
        ensures
            name@ == self.name_view(),
    {
        match self {
            Series::UInt32(a) => a.name(),
            Series::Int32(a) => a.name(),
            Series::Int64(a) => a.name(),
            Series::Float32(a) => a.name(),
            Series::Float64(a) => a.name(),
            Series::Utf8(a) => a.name(),
            Series::Bool(a) => a.name(),
            Series::Date32(a) => a.name(),
            Series::Date64(a) => a.name(),
            Series::Time64Ns(a) => a.name(),
            Series::DurationNs(a) => a.name(),
        }
    }

    /// Rename series. The rows and the data type stay.
    pub fn rename(&mut self, name: &str)
        ensures
            final(self).name_view() == name@,
            final(self)@ == old(self)@,
            final(self).dtype_spec() == old(self).dtype_spec(),
    {
        match self {
            Series::UInt32(a) => a.rename(name),
            Series::Int32(a) => a.rename(name),
            Series::Int64(a) => a.rename(name),
            Series::Float32(a) => a.rename(name),
            Series::Float64(a) => a.rename(name),
            Series::Utf8(a) => a.rename(name),
            Series::Bool(a) => a.rename(name),
            Series::Date32(a) => a.rename(name),
            Series::Date64(a) => a.rename(name),
            Series::Time64Ns(a) => a.rename(name),
            Series::DurationNs(a) => a.rename(name),
        }
    }

    /// The data type of the column.
    pub fn dtype(&self) -> (dtype: DataType)
        ensures
            dtype == self.dtype_spec(),
    {
        match self {
            Series::UInt32(_) => DataType::UInt32,
            Series::Int32(_) => DataType::Int32,
            Series::Int64(_) => DataType::Int64,
            Series::Float32(_) => DataType::Float32,
            Series::Float64(_) => DataType::Float64,
            Series::Utf8(_) => DataType::Utf8,
            Series::Bool(_) => DataType::Boolean,
            Series::Date32(_) => DataType::Date32,
            Series::Date64(_) => DataType::Date64,
            Series::Time64Ns(_) => DataType::Time64Ns,
            Series::DurationNs(_) => DataType::DurationNs,
        }
    }

    /// Unpack to ChunkedArray: the typed column, where the data type is
    /// `Int32`.
    pub fn i32(&self) -> (out: PolarsResult<&Int32Chunked>)
        ensures
            match out {
                Ok(ca) => *self == Series::Int32(*ca),
                Err(e) => !(self is Int32) && e is DataTypeMisMatch,
            },
    {
        match self {
            Series::Int32(ca) => Ok(ca),
            _ => Err(PolarsError::DataTypeMisMatch),
        }
    }

    /// Unpack to ChunkedArray: the typed column, where the data type is
    /// `Int64`.
    pub fn i64(&self) -> (out: PolarsResult<&Int64Chunked>)
        ensures
            match out {
                Ok(ca) => *self == Series::Int64(*ca),
                Err(e) => !(self is Int64) && e is DataTypeMisMatch,
            },
    {
        match self {
            Series::Int64(ca) => Ok(ca),
            _ => Err(PolarsError::DataTypeMisMatch),
        }
    }

    /// Unpack to ChunkedArray: the typed column, where the data type is
    /// `Float32`.
    pub fn float32(&self) -> (out: PolarsResult<&Float32Chunked>)
        ensures
            match out {
                Ok(ca) => *self == Series::Float32(*ca),
                Err(e) => !(self is Float32) && e is DataTypeMisMatch,
            },
    {
        match self {
            Series::Float32(ca) => Ok(ca),
            _ => Err(PolarsError::DataTypeMisMatch),
        }
    }

    /// Unpack to ChunkedArray: the typed column, where the data type is
    /// `Float64`.
    pub fn float64(&self) -> (out: PolarsResult<&Float64Chunked>)
        ensures
            match out {
                Ok(ca) => *self == Series::Float64(*ca),
                Err(e) => !(self is Float64) && e is DataTypeMisMatch,
            },
    {
        match self {
            Series::Float64(ca) => Ok(ca),
            _ => Err(PolarsError::DataTypeMisMatch),
        }
    }

    /// Unpack to ChunkedArray: the typed column, where the data type is
    /// `UInt32`.
    pub fn u32(&self) -> (out: PolarsResult<&UInt32Chunked>)
        ensures
            match out {
                Ok(ca) => *self == Series::UInt32(*ca),
                Err(e) => !(self is UInt32) && e is DataTypeMisMatch,
            },
    {
        match self {
            Series::UInt32(ca) => Ok(ca),
            _ => Err(PolarsError::DataTypeMisMatch),
        }
    }

    /// Unpack to ChunkedArray: the typed column, where the data type is
    /// `Boolean`.
    pub fn bool(&self) -> (out: PolarsResult<&BooleanChunked>)
        ensures
            match out {
                Ok(ca) => *self == Series::Bool(*ca),
                Err(e) => !(self is Bool) && e is DataTypeMisMatch,
            },
    {
        match self {
            Series::Bool(ca) => Ok(ca),
            _ => Err(PolarsError::DataTypeMisMatch),
        }
    }

    /// Unpack to ChunkedArray: the typed column, where the data type is
    /// `Utf8`.
    pub fn utf8(&self) -> (out: PolarsResult<&Utf8Chunked>)
        ensures
            match out {
                Ok(ca) => *self == Series::Utf8(*ca),
                Err(e) => !(self is Utf8) && e is DataTypeMisMatch,
            },
    {
        match self {
            Series::Utf8(ca) => Ok(ca),
            _ => Err(PolarsError::DataTypeMisMatch),
        }
    }

    /// Unpack to ChunkedArray: the typed column, where the data type is
    /// `Date32`.
    pub fn date32(&self) -> (out: PolarsResult<&Date32Chunked>)
        ensures
            match out {
                Ok(ca) => *self == Series::Date32(*ca),
                Err(e) => !(self is Date32) && e is DataTypeMisMatch,
            },
    {
        match self {
            Series::Date32(ca) => Ok(ca),
            _ => Err(PolarsError::DataTypeMisMatch),
        }
    }

    /// Unpack to ChunkedArray: the typed column, where the data type is
    /// `Date64`.
    pub fn date64(&self) -> (out: PolarsResult<&Date64Chunked>)
        ensures
            match out {
                Ok(ca) => *self == Series::Date64(*ca),
                Err(e) => !(self is Date64) && e is DataTypeMisMatch,
            },
    {
        match self {
            Series::Date64(ca) => Ok(ca),
            _ => Err(PolarsError::DataTypeMisMatch),
        }
    }

    /// Unpack to ChunkedArray: the typed column, where the data type is
    /// `Time64Ns`.
    pub fn time64ns(&self) -> (out: PolarsResult<&Time64NsChunked>)
        ensures
            match out {
                Ok(ca) => *self == Series::Time64Ns(*ca),
                Err(e) => !(self is Time64Ns) && e is DataTypeMisMatch,
            },
    {
        match self {
            Series::Time64Ns(ca) => Ok(ca),
            _ => Err(PolarsError::DataTypeMisMatch),
        }
    }

    /// Unpack to ChunkedArray: the typed column, where the data type is
    /// `DurationNs`.
    pub fn duration_ns(&self) -> (out: PolarsResult<&DurationNsChunked>)
        ensures
            match out {
                Ok(ca) => *self == Series::DurationNs(*ca),
                Err(e) => !(self is DurationNs) && e is DataTypeMisMatch,
            },
    {
        match self {
            Series::DurationNs(ca) => Ok(ca),
            _ => Err(PolarsError::DataTypeMisMatch),
        }
    }

    /// Take `num_elements`: the first rows of the column, all of them where
    /// it has no more.
    pub fn limit(&self, num_elements: usize) -> (out: PolarsResult<Self>)
        ensures
            out matches Ok(series) && series@ == self@.subrange(
                0,
                if num_elements <= self@.len() {
                    num_elements as int
                } else {
                    self@.len() as int
                },
            ) && series.dtype_spec() == self.dtype_spec() && series.name_view() == self.name_view(),
    {
        match self {
            Series::UInt32(a) => {
                match a.limit(num_elements) {
                    Ok(ca) => {
                        let out = Series::UInt32(ca);
                        assert(out@ =~= self@.subrange(0, out@.len() as int));
                        Ok(out)
                    },
                    Err(e) => Err(e),
                }
            },
            Series::Int32(a) => {
                match a.limit(num_elements) {
                    Ok(ca) => {
                        let out = Series::Int32(ca);
                        assert(out@ =~= self@.subrange(0, out@.len() as int));
                        Ok(out)
                    },
                    Err(e) => Err(e),
                }
            },
            Series::Int64(a) => {
                match a.limit(num_elements) {
                    Ok(ca) => {
                        let out = Series::Int64(ca);
                        assert(out@ =~= self@.subrange(0, out@.len() as int));
                        Ok(out)
                    },
                    Err(e) => Err(e),
                }
            },
            Series::Float32(a) => {
                match a.limit(num_elements) {
                    Ok(ca) => {
                        let out = Series::Float32(ca);
                        assert(out@ =~= self@.subrange(0, out@.len() as int));
                        Ok(out)
                    },
                    Err(e) => Err(e),
                }
            },
            Series::Float64(a) => {
                match a.limit(num_elements) {
                    Ok(ca) => {
                        let out = Series::Float64(ca);
                        assert(out@ =~= self@.subrange(0, out@.len() as int));
                        Ok(out)
                    },
                    Err(e) => Err(e),
                }
            },
            Series::Utf8(a) => {
                match a.limit(num_elements) {
                    Ok(ca) => {
                        let out = Series::Utf8(ca);
                        assert(out@ =~= self@.subrange(0, out@.len() as int));
                        Ok(out)
                    },
                    Err(e) => Err(e),
                }
            },
            Series::Bool(a) => {
                match a.limit(num_elements) {
                    Ok(ca) => {
                        let out = Series::Bool(ca);
                        assert(out@ =~= self@.subrange(0, out@.len() as int));
                        Ok(out)
                    },
                    Err(e) => Err(e),
                }
            },
            Series::Date32(a) => {
                match a.limit(num_elements) {
                    Ok(ca) => {
                        let out = Series::Date32(ca);
                        assert(out@ =~= self@.subrange(0, out@.len() as int));
                        Ok(out)
                    },
                    Err(e) => Err(e),
                }
            },
            Series::Date64(a) => {
                match a.limit(num_elements) {
                    Ok(ca) => {
                        let out = Series::Date64(ca);
                        assert(out@ =~= self@.subrange(0, out@.len() as int));
                        Ok(out)
                    },
                    Err(e) => Err(e),
                }
            },
            Series::Time64Ns(a) => {
                match a.limit(num_elements) {
                    Ok(ca) => {
                        let out = Series::Time64Ns(ca);
                        assert(out@ =~= self@.subrange(0, out@.len() as int));
                        Ok(out)
                    },
                    Err(e) => Err(e),
                }
            },
            Series::DurationNs(a) => {
                match a.limit(num_elements) {
                    Ok(ca) => {
                        let out = Series::DurationNs(ca);
                        assert(out@ =~= self@.subrange(0, out@.len() as int));
                        Ok(out)
                    },
                    Err(e) => Err(e),
                }
            },
        }
    }

    /// Filter by boolean mask: the rows where the mask is `true`. A mask of
    /// another length than the column is refused.
    pub fn filter(&self, filter: &BooleanChunked) -> (out: PolarsResult<Self>)
        ensures
            filter@.len() != self@.len() ==> out matches Err(PolarsError::ShapeMisMatch),
            filter@.len() == self@.len() ==> (out matches Ok(series) && series@ == filter_any(
                self@,
                filter@,
                self@.len() as int,
            ) && series.dtype_spec() == self.dtype_spec() && series.name_view()
                == self.name_view()),
    {
        match self {
            Series::UInt32(a) => {
                match a.filter(filter) {
                    Ok(ca) => {
                        proof {
                            lemma_filter_any_uint32(a@, filter@, a@.len() as int);
                        }
                        Ok(Series::UInt32(ca))
                    },
                    Err(e) => Err(e),
                }
            },
            Series::Int32(a) => {
                match a.filter(filter) {
                    Ok(ca) => {
                        proof {
                            lemma_filter_any_int32(a@, filter@, a@.len() as int);
                        }
                        Ok(Series::Int32(ca))
                    },
                    Err(e) => Err(e),
                }
            },
            Series::Int64(a) => {
                match a.filter(filter) {
                    Ok(ca) => {
                        proof {
                            lemma_filter_any_int64(a@, filter@, a@.len() as int);
                        }
                        Ok(Series::Int64(ca))
                    },
                    Err(e) => Err(e),
                }
            },
            Series::Float32(a) => {
                match a.filter(filter) {
                    Ok(ca) => {
                        proof {
                            lemma_filter_any_float32(a@, filter@, a@.len() as int);
                        }
                        Ok(Series::Float32(ca))
                    },
                    Err(e) => Err(e),
                }
            },
            Series::Float64(a) => {
                match a.filter(filter) {
                    Ok(ca) => {
                        proof {
                            lemma_filter_any_float64(a@, filter@, a@.len() as int);
                        }
                        Ok(Series::Float64(ca))
                    },
                    Err(e) => Err(e),
                }
            },
            Series::Utf8(a) => {
                match a.filter(filter) {
                    Ok(ca) => {
                        proof {
                            lemma_filter_any_utf8(a@, filter@, a@.len() as int);
                        }
                        Ok(Series::Utf8(ca))
                    },
                    Err(e) => Err(e),
                }
            },
            Series::Bool(a) => {
                match a.filter(filter) {
                    Ok(ca) => {
                        proof {
                            lemma_filter_any_bool(a@, filter@, a@.len() as int);
                        }
                        Ok(Series::Bool(ca))
                    },
                    Err(e) => Err(e),
                }
            },
            Series::Date32(a) => {
                match a.filter(filter) {
                    Ok(ca) => {
                        proof {
                            lemma_filter_any_date32(a@, filter@, a@.len() as int);
                        }
                        Ok(Series::Date32(ca))
                    },
                    Err(e) => Err(e),
                }
            },
            Series::Date64(a) => {
                match a.filter(filter) {
                    Ok(ca) => {
                        proof {
                            lemma_filter_any_date64(a@, filter@, a@.len() as int);
                        }
                        Ok(Series::Date64(ca))
                    },
                    Err(e) => Err(e),
                }
            },
            Series::Time64Ns(a) => {
                match a.filter(filter) {
                    Ok(ca) => {
                        proof {
                            lemma_filter_any_time64ns(a@, filter@, a@.len() as int);
                        }
                        Ok(Series::Time64Ns(ca))
                    },
                    Err(e) => Err(e),
                }
            },
            Series::DurationNs(a) => {
                match a.filter(filter) {
                    Ok(ca) => {
                        proof {
                            lemma_filter_any_durationns(a@, filter@, a@.len() as int);
                        }
                        Ok(Series::DurationNs(ca))
                    },
                    Err(e) => Err(e),
                }
            },
        }
    }

    /// Take by index: the rows that the indices name, in the order of the
    /// indices. An index beyond the last row is refused.
    pub fn take(&self, indices: &UInt32Chunked) -> (out: PolarsResult<Self>)
        ensures
            !indices_in_bounds(indices@, self@.len() as int, indices@.len() as int) ==> out matches Err(
                PolarsError::OutOfBounds,
            ),
            indices_in_bounds(indices@, self@.len() as int, indices@.len() as int) ==> (out matches Ok(
                series,
            ) && series@ == take_any(self@, indices@) && series.dtype_spec() == self.dtype_spec()
                && series.name_view() == self.name_view()),
    {
        match self {
            Series::UInt32(a) => {
                match a.take(indices) {
                    Ok(ca) => {
                        let out = Series::UInt32(ca);
                        assert(out@ =~= take_any(self@, indices@));
                        Ok(out)
                    },
                    Err(e) => Err(e),
                }
            },
            Series::Int32(a) => {
                match a.take(indices) {
                    Ok(ca) => {
                        let out = Series::Int32(ca);
                        assert(out@ =~= take_any(self@, indices@));
                        Ok(out)
                    },
                    Err(e) => Err(e),
                }
            },
            Series::Int64(a) => {
                match a.take(indices) {
                    Ok(ca) => {
                        let out = Series::Int64(ca);
                        assert(out@ =~= take_any(self@, indices@));
                        Ok(out)
                    },
                    Err(e) => Err(e),
                }
            },
            Series::Float32(a) => {
                match a.take(indices) {
                    Ok(ca) => {
                        let out = Series::Float32(ca);
                        assert(out@ =~= take_any(self@, indices@));
                        Ok(out)
                    },
                    Err(e) => Err(e),
                }
            },
            Series::Float64(a) => {
                match a.take(indices) {
                    Ok(ca) => {
                        let out = Series::Float64(ca);
                        assert(out@ =~= take_any(self@, indices@));
                        Ok(out)
                    },
                    Err(e) => Err(e),
                }
            },
            Series::Utf8(a) => {
                match a.take(indices) {
                    Ok(ca) => {
                        let out = Series::Utf8(ca);
                        assert(out@ =~= take_any(self@, indices@));
                        Ok(out)
                    },
                    Err(e) => Err(e),
                }
            },
            Series::Bool(a) => {
                match a.take(indices) {
                    Ok(ca) => {
                        let out = Series::Bool(ca);
                        assert(out@ =~= take_any(self@, indices@));
                        Ok(out)
                    },
                    Err(e) => Err(e),
                }
            },
            Series::Date32(a) => {
                match a.take(indices) {
                    Ok(ca) => {
                        let out = Series::Date32(ca);
                        assert(out@ =~= take_any(self@, indices@));
                        Ok(out)
                    },
                    Err(e) => Err(e),
                }
            },
            Series::Date64(a) => {
                match a.take(indices) {
                    Ok(ca) => {
                        let out = Series::Date64(ca);
                        assert(out@ =~= take_any(self@, indices@));
                        Ok(out)
                    },
                    Err(e) => Err(e),
                }
            },
            Series::Time64Ns(a) => {
                match a.take(indices) {
                    Ok(ca) => {
                        let out = Series::Time64Ns(ca);
                        assert(out@ =~= take_any(self@, indices@));
                        Ok(out)
                    },
                    Err(e) => Err(e),
                }
            },
            Series::DurationNs(a) => {
                match a.take(indices) {
                    Ok(ca) => {
                        let out = Series::DurationNs(ca);
                        assert(out@ =~= take_any(self@, indices@));
                        Ok(out)
                    },
                    Err(e) => Err(e),
                }
            },
        }
    }

    /// Get field (used in schema): the name and the data type of the column.
    pub fn field(&self) -> (field: Field)
        ensures
            field.name_view() == self.name_view(),
            field.dtype_spec() == self.dtype_spec(),
    {
        Field::new(self.name(), self.dtype())
    }

    /// Cast between the types of integers, dates and times. A number that
    /// the other type cannot hold becomes a null row. A column of another
    /// type, and a cast to another type, is refused.
    pub fn cast_integer(&self, dtype: DataType) -> (out: PolarsResult<Self>)
        ensures
            self.dtype_spec().is_integer_like_spec() && dtype.is_integer_like_spec() ==> (out matches Ok(
                series,
            ) && series.dtype_spec() == dtype && series.name_view() == self.name_view() && series@
                == Seq::new(self@.len(), |i: int| cast_any(self@[i], dtype))),
            !(self.dtype_spec().is_integer_like_spec() && dtype.is_integer_like_spec()) ==> out matches Err(
                PolarsError::DataTypeMisMatch,
            ),
    {
        match dtype {
            DataType::UInt32 => match self {
                Series::UInt32(a) => {
                    let ca = a.cast_rows::<u32>();
                    let out = Series::UInt32(ca);
                    proof {
                        assert forall|i: int| 0 <= i < self@.len() implies #[trigger] out@[i]
                            == cast_any(self@[i], dtype) by {
                            assert(is_cast_of(ca@[i], a@[i]));
                        }
                        assert(out@ =~= Seq::new(self@.len(), |i: int| cast_any(self@[i], dtype)));
                    }
                    Ok(out)
                },
                Series::Int32(a) => {
                    let ca = a.cast_rows::<u32>();
                    let out = Series::UInt32(ca);
                    proof {
                        assert forall|i: int| 0 <= i < self@.len() implies #[trigger] out@[i]
                            == cast_any(self@[i], dtype) by {
                            assert(is_cast_of(ca@[i], a@[i]));
                        }
                        assert(out@ =~= Seq::new(self@.len(), |i: int| cast_any(self@[i], dtype)));
                    }
                    Ok(out)
                },
                Series::Int64(a) => {
                    let ca = a.cast_rows::<u32>();
                    let out = Series::UInt32(ca);
                    proof {
                        assert forall|i: int| 0 <= i < self@.len() implies #[trigger] out@[i]
                            == cast_any(self@[i], dtype) by {
                            assert(is_cast_of(ca@[i], a@[i]));
                        }
                        assert(out@ =~= Seq::new(self@.len(), |i: int| cast_any(self@[i], dtype)));
                    }
                    Ok(out)
                },
                Series::Date32(a) => {
                    let ca = a.cast_rows::<u32>();
                    let out = Series::UInt32(ca);
                    proof {
                        assert forall|i: int| 0 <= i < self@.len() implies #[trigger] out@[i]
                            == cast_any(self@[i], dtype) by {
                            assert(is_cast_of(ca@[i], a@[i]));
                        }
                        assert(out@ =~= Seq::new(self@.len(), |i: int| cast_any(self@[i], dtype)));
                    }
                    Ok(out)
                },
                Series::Date64(a) => {
                    let ca = a.cast_rows::<u32>();
                    let out = Series::UInt32(ca);
                    proof {
                        assert forall|i: int| 0 <= i < self@.len() implies #[trigger] out@[i]
                            == cast_any(self@[i], dtype) by {
                            assert(is_cast_of(ca@[i], a@[i]));
                        }
                        assert(out@ =~= Seq::new(self@.len(), |i: int| cast_any(self@[i], dtype)));
                    }
                    Ok(out)
                },
                Series::Time64Ns(a) => {
                    let ca = a.cast_rows::<u32>();
                    let out = Series::UInt32(ca);
                    proof {
                        assert forall|i: int| 0 <= i < self@.len() implies #[trigger] out@[i]
                            == cast_any(self@[i], dtype) by {
                            assert(is_cast_of(ca@[i], a@[i]));
                        }
                        assert(out@ =~= Seq::new(self@.len(), |i: int| cast_any(self@[i], dtype)));
                    }
                    Ok(out)
                },
                Series::DurationNs(a) => {
                    let ca = a.cast_rows::<u32>();
                    let out = Series::UInt32(ca);
                    proof {
                        assert forall|i: int| 0 <= i < self@.len() implies #[trigger] out@[i]
                            == cast_any(self@[i], dtype) by {
                            assert(is_cast_of(ca@[i], a@[i]));
                        }
                        assert(out@ =~= Seq::new(self@.len(), |i: int| cast_any(self@[i], dtype)));
                    }
                    Ok(out)
                },
                _ => Err(PolarsError::DataTypeMisMatch),
            },
            DataType::Int32 => match self {
                Series::UInt32(a) => {
                    let ca = a.cast_rows::<i32>();
                    let out = Series::Int32(ca);
                    proof {
                        assert forall|i: int| 0 <= i < self@.len() implies #[trigger] out@[i]
                            == cast_any(self@[i], dtype) by {
                            assert(is_cast_of(ca@[i], a@[i]));
                        }
                        assert(out@ =~= Seq::new(self@.len(), |i: int| cast_any(self@[i], dtype)));
                    }
                    Ok(out)
                },
                Series::Int32(a) => {
                    let ca = a.cast_rows::<i32>();
                    let out = Series::Int32(ca);
                    proof {
                        assert forall|i: int| 0 <= i < self@.len() implies #[trigger] out@[i]
                            == cast_any(self@[i], dtype) by {
                            assert(is_cast_of(ca@[i], a@[i]));
                        }
                        assert(out@ =~= Seq::new(self@.len(), |i: int| cast_any(self@[i], dtype)));
                    }
                    Ok(out)
                },
                Series::Int64(a) => {
                    let ca = a.cast_rows::<i32>();
                    let out = Series::Int32(ca);
                    proof {
                        assert forall|i: int| 0 <= i < self@.len() implies #[trigger] out@[i]
                            == cast_any(self@[i], dtype) by {
                            assert(is_cast_of(ca@[i], a@[i]));
                        }
                        assert(out@ =~= Seq::new(self@.len(), |i: int| cast_any(self@[i], dtype)));
                    }
                    Ok(out)
                },
                Series::Date32(a) => {
                    let ca = a.cast_rows::<i32>();
                    let out = Series::Int32(ca);
                    proof {
                        assert forall|i: int| 0 <= i < self@.len() implies #[trigger] out@[i]
                            == cast_any(self@[i], dtype) by {
                            assert(is_cast_of(ca@[i], a@[i]));
                        }
                        assert(out@ =~= Seq::new(self@.len(), |i: int| cast_any(self@[i], dtype)));
                    }
                    Ok(out)
                },
                Series::Date64(a) => {
                    let ca = a.cast_rows::<i32>();
                    let out = Series::Int32(ca);
                    proof {
                        assert forall|i: int| 0 <= i < self@.len() implies #[trigger] out@[i]
                            == cast_any(self@[i], dtype) by {
                            assert(is_cast_of(ca@[i], a@[i]));
                        }
                        assert(out@ =~= Seq::new(self@.len(), |i: int| cast_any(self@[i], dtype)));
                    }
                    Ok(out)
                },
                Series::Time64Ns(a) => {
                    let ca = a.cast_rows::<i32>();
                    let out = Series::Int32(ca);
                    proof {
                        assert forall|i: int| 0 <= i < self@.len() implies #[trigger] out@[i]
                            == cast_any(self@[i], dtype) by {
                            assert(is_cast_of(ca@[i], a@[i]));
                        }
                        assert(out@ =~= Seq::new(self@.len(), |i: int| cast_any(self@[i], dtype)));
                    }
                    Ok(out)
                },
                Series::DurationNs(a) => {
                    let ca = a.cast_rows::<i32>();
                    let out = Series::Int32(ca);
                    proof {
                        assert forall|i: int| 0 <= i < self@.len() implies #[trigger] out@[i]
                            == cast_any(self@[i], dtype) by {
                            assert(is_cast_of(ca@[i], a@[i]));
                        }
                        assert(out@ =~= Seq::new(self@.len(), |i: int| cast_any(self@[i], dtype)));
                    }
                    Ok(out)
                },
                _ => Err(PolarsError::DataTypeMisMatch),
            },
            DataType::Int64 => match self {
                Series::UInt32(a) => {
                    let ca = a.cast_rows::<i64>();
                    let out = Series::Int64(ca);
                    proof {
                        assert forall|i: int| 0 <= i < self@.len() implies #[trigger] out@[i]
                            == cast_any(self@[i], dtype) by {
                            assert(is_cast_of(ca@[i], a@[i]));
                        }
                        assert(out@ =~= Seq::new(self@.len(), |i: int| cast_any(self@[i], dtype)));
                    }
                    Ok(out)
                },
                Series::Int32(a) => {
                    let ca = a.cast_rows::<i64>();
                    let out = Series::Int64(ca);
                    proof {
                        assert forall|i: int| 0 <= i < self@.len() implies #[trigger] out@[i]
                            == cast_any(self@[i], dtype) by {
                            assert(is_cast_of(ca@[i], a@[i]));
                        }
                        assert(out@ =~= Seq::new(self@.len(), |i: int| cast_any(self@[i], dtype)));
                    }
                    Ok(out)
                },
                Series::Int64(a) => {
                    let ca = a.cast_rows::<i64>();
                    let out = Series::Int64(ca);
                    proof {
                        assert forall|i: int| 0 <= i < self@.len() implies #[trigger] out@[i]
                            == cast_any(self@[i], dtype) by {
                            assert(is_cast_of(ca@[i], a@[i]));
                        }
                        assert(out@ =~= Seq::new(self@.len(), |i: int| cast_any(self@[i], dtype)));
                    }
                    Ok(out)
                },
                Series::Date32(a) => {
                    let ca = a.cast_rows::<i64>();
                    let out = Series::Int64(ca);
                    proof {
                        assert forall|i: int| 0 <= i < self@.len() implies #[trigger] out@[i]
                            == cast_any(self@[i], dtype) by {
                            assert(is_cast_of(ca@[i], a@[i]));
                        }
                        assert(out@ =~= Seq::new(self@.len(), |i: int| cast_any(self@[i], dtype)));
                    }
                    Ok(out)
                },
                Series::Date64(a) => {
                    let ca = a.cast_rows::<i64>();
                    let out = Series::Int64(ca);
                    proof {
                        assert forall|i: int| 0 <= i < self@.len() implies #[trigger] out@[i]
                            == cast_any(self@[i], dtype) by {
                            assert(is_cast_of(ca@[i], a@[i]));
                        }
                        assert(out@ =~= Seq::new(self@.len(), |i: int| cast_any(self@[i], dtype)));
                    }
                    Ok(out)
                },
                Series::Time64Ns(a) => {
                    let ca = a.cast_rows::<i64>();
                    let out = Series::Int64(ca);
                    proof {
                        assert forall|i: int| 0 <= i < self@.len() implies #[trigger] out@[i]
                            == cast_any(self@[i], dtype) by {
                            assert(is_cast_of(ca@[i], a@[i]));
                        }
                        assert(out@ =~= Seq::new(self@.len(), |i: int| cast_any(self@[i], dtype)));
                    }
                    Ok(out)
                },
                Series::DurationNs(a) => {
                    let ca = a.cast_rows::<i64>();
                    let out = Series::Int64(ca);
                    proof {
                        assert forall|i: int| 0 <= i < self@.len() implies #[trigger] out@[i]
                            == cast_any(self@[i], dtype) by {
                            assert(is_cast_of(ca@[i], a@[i]));
                        }
                        assert(out@ =~= Seq::new(self@.len(), |i: int| cast_any(self@[i], dtype)));
                    }
                    Ok(out)
                },
                _ => Err(PolarsError::DataTypeMisMatch),
            },
            DataType::Date32 => match self {
                Series::UInt32(a) => {
                    let ca = a.cast_rows::<i32>();
                    let out = Series::Date32(ca);
                    proof {
                        assert forall|i: int| 0 <= i < self@.len() implies #[trigger] out@[i]
                            == cast_any(self@[i], dtype) by {
                            assert(is_cast_of(ca@[i], a@[i]));
                        }
                        assert(out@ =~= Seq::new(self@.len(), |i: int| cast_any(self@[i], dtype)));
                    }
                    Ok(out)
                },
                Series::Int32(a) => {
                    let ca = a.cast_rows::<i32>();
                    let out = Series::Date32(ca);
                    proof {
                        assert forall|i: int| 0 <= i < self@.len() implies #[trigger] out@[i]
                            == cast_any(self@[i], dtype) by {
                            assert(is_cast_of(ca@[i], a@[i]));
                        }
                        assert(out@ =~= Seq::new(self@.len(), |i: int| cast_any(self@[i], dtype)));
                    }
                    Ok(out)
                },
                Series::Int64(a) => {
                    let ca = a.cast_rows::<i32>();
                    let out = Series::Date32(ca);
                    proof {
                        assert forall|i: int| 0 <= i < self@.len() implies #[trigger] out@[i]
                            == cast_any(self@[i], dtype) by {
                            assert(is_cast_of(ca@[i], a@[i]));
                        }
                        assert(out@ =~= Seq::new(self@.len(), |i: int| cast_any(self@[i], dtype)));
                    }
                    Ok(out)
                },
                Series::Date32(a) => {
                    let ca = a.cast_rows::<i32>();
                    let out = Series::Date32(ca);
                    proof {
                        assert forall|i: int| 0 <= i < self@.len() implies #[trigger] out@[i]
                            == cast_any(self@[i], dtype) by {
                            assert(is_cast_of(ca@[i], a@[i]));
                        }
                        assert(out@ =~= Seq::new(self@.len(), |i: int| cast_any(self@[i], dtype)));
                    }
                    Ok(out)
                },
                Series::Date64(a) => {
                    let ca = a.cast_rows::<i32>();
                    let out = Series::Date32(ca);
                    proof {
                        assert forall|i: int| 0 <= i < self@.len() implies #[trigger] out@[i]
                            == cast_any(self@[i], dtype) by {
                            assert(is_cast_of(ca@[i], a@[i]));
                        }
                        assert(out@ =~= Seq::new(self@.len(), |i: int| cast_any(self@[i], dtype)));
                    }
                    Ok(out)
                },
                Series::Time64Ns(a) => {
                    let ca = a.cast_rows::<i32>();
                    let out = Series::Date32(ca);
                    proof {
                        assert forall|i: int| 0 <= i < self@.len() implies #[trigger] out@[i]
                            == cast_any(self@[i], dtype) by {
                            assert(is_cast_of(ca@[i], a@[i]));
                        }
                        assert(out@ =~= Seq::new(self@.len(), |i: int| cast_any(self@[i], dtype)));
                    }
                    Ok(out)
                },
                Series::DurationNs(a) => {
                    let ca = a.cast_rows::<i32>();
                    let out = Series::Date32(ca);
                    proof {
                        assert forall|i: int| 0 <= i < self@.len() implies #[trigger] out@[i]
                            == cast_any(self@[i], dtype) by {
                            assert(is_cast_of(ca@[i], a@[i]));
                        }
                        assert(out@ =~= Seq::new(self@.len(), |i: int| cast_any(self@[i], dtype)));
                    }
                    Ok(out)
                },
                _ => Err(PolarsError::DataTypeMisMatch),
            },
            DataType::Date64 => match self {
                Series::UInt32(a) => {
                    let ca = a.cast_rows::<i64>();
                    let out = Series::Date64(ca);
                    proof {
                        assert forall|i: int| 0 <= i < self@.len() implies #[trigger] out@[i]
                            == cast_any(self@[i], dtype) by {
                            assert(is_cast_of(ca@[i], a@[i]));
                        }
                        assert(out@ =~= Seq::new(self@.len(), |i: int| cast_any(self@[i], dtype)));
                    }
                    Ok(out)
                },
                Series::Int32(a) => {
                    let ca = a.cast_rows::<i64>();
                    let out = Series::Date64(ca);
                    proof {
                        assert forall|i: int| 0 <= i < self@.len() implies #[trigger] out@[i]
                            == cast_any(self@[i], dtype) by {
                            assert(is_cast_of(ca@[i], a@[i]));
                        }
                        assert(out@ =~= Seq::new(self@.len(), |i: int| cast_any(self@[i], dtype)));
                    }
                    Ok(out)
                },
                Series::Int64(a) => {
                    let ca = a.cast_rows::<i64>();
                    let out = Series::Date64(ca);
                    proof {
                        assert forall|i: int| 0 <= i < self@.len() implies #[trigger] out@[i]
                            == cast_any(self@[i], dtype) by {
                            assert(is_cast_of(ca@[i], a@[i]));
                        }
                        assert(out@ =~= Seq::new(self@.len(), |i: int| cast_any(self@[i], dtype)));
                    }
                    Ok(out)
                },
                Series::Date32(a) => {
                    let ca = a.cast_rows::<i64>();
                    let out = Series::Date64(ca);
                    proof {
                        assert forall|i: int| 0 <= i < self@.len() implies #[trigger] out@[i]
                            == cast_any(self@[i], dtype) by {
                            assert(is_cast_of(ca@[i], a@[i]));
                        }
                        assert(out@ =~= Seq::new(self@.len(), |i: int| cast_any(self@[i], dtype)));
                    }
                    Ok(out)
                },
                Series::Date64(a) => {
                    let ca = a.cast_rows::<i64>();
                    let out = Series::Date64(ca);
                    proof {
                        assert forall|i: int| 0 <= i < self@.len() implies #[trigger] out@[i]
                            == cast_any(self@[i], dtype) by {
                            assert(is_cast_of(ca@[i], a@[i]));
                        }
                        assert(out@ =~= Seq::new(self@.len(), |i: int| cast_any(self@[i], dtype)));
                    }
                    Ok(out)
                },
                Series::Time64Ns(a) => {
                    let ca = a.cast_rows::<i64>();
                    let out = Series::Date64(ca);
                    proof {
                        assert forall|i: int| 0 <= i < self@.len() implies #[trigger] out@[i]
                            == cast_any(self@[i], dtype) by {
                            assert(is_cast_of(ca@[i], a@[i]));
                        }
                        assert(out@ =~= Seq::new(self@.len(), |i: int| cast_any(self@[i], dtype)));
                    }
                    Ok(out)
                },
                Series::DurationNs(a) => {
                    let ca = a.cast_rows::<i64>();
                    let out = Series::Date64(ca);
                    proof {
                        assert forall|i: int| 0 <= i < self@.len() implies #[trigger] out@[i]
                            == cast_any(self@[i], dtype) by {
                            assert(is_cast_of(ca@[i], a@[i]));
                        }
                        assert(out@ =~= Seq::new(self@.len(), |i: int| cast_any(self@[i], dtype)));
                    }
                    Ok(out)
                },
                _ => Err(PolarsError::DataTypeMisMatch),
            },
            DataType::Time64Ns => match self {
                Series::UInt32(a) => {
                    let ca = a.cast_rows::<i64>();
                    let out = Series::Time64Ns(ca);
                    proof {
                        assert forall|i: int| 0 <= i < self@.len() implies #[trigger] out@[i]
                            == cast_any(self@[i], dtype) by {
                            assert(is_cast_of(ca@[i], a@[i]));
                        }
                        assert(out@ =~= Seq::new(self@.len(), |i: int| cast_any(self@[i], dtype)));
                    }
                    Ok(out)
                },
                Series::Int32(a) => {
                    let ca = a.cast_rows::<i64>();
                    let out = Series::Time64Ns(ca);
                    proof {
                        assert forall|i: int| 0 <= i < self@.len() implies #[trigger] out@[i]
                            == cast_any(self@[i], dtype) by {
                            assert(is_cast_of(ca@[i], a@[i]));
                        }
                        assert(out@ =~= Seq::new(self@.len(), |i: int| cast_any(self@[i], dtype)));
                    }
                    Ok(out)
                },
                Series::Int64(a) => {
                    let ca = a.cast_rows::<i64>();
                    let out = Series::Time64Ns(ca);
                    proof {
                        assert forall|i: int| 0 <= i < self@.len() implies #[trigger] out@[i]
                            == cast_any(self@[i], dtype) by {
                            assert(is_cast_of(ca@[i], a@[i]));
                        }
                        assert(out@ =~= Seq::new(self@.len(), |i: int| cast_any(self@[i], dtype)));
                    }
                    Ok(out)
                },
                Series::Date32(a) => {
                    let ca = a.cast_rows::<i64>();
                    let out = Series::Time64Ns(ca);
                    proof {
                        assert forall|i: int| 0 <= i < self@.len() implies #[trigger] out@[i]
                            == cast_any(self@[i], dtype) by {
                            assert(is_cast_of(ca@[i], a@[i]));
                        }
                        assert(out@ =~= Seq::new(self@.len(), |i: int| cast_any(self@[i], dtype)));
                    }
                    Ok(out)
                },
                Series::Date64(a) => {
                    let ca = a.cast_rows::<i64>();
                    let out = Series::Time64Ns(ca);
                    proof {
                        assert forall|i: int| 0 <= i < self@.len() implies #[trigger] out@[i]
                            == cast_any(self@[i], dtype) by {
                            assert(is_cast_of(ca@[i], a@[i]));
                        }
                        assert(out@ =~= Seq::new(self@.len(), |i: int| cast_any(self@[i], dtype)));
                    }
                    Ok(out)
                },
                Series::Time64Ns(a) => {
                    let ca = a.cast_rows::<i64>();
                    let out = Series::Time64Ns(ca);
                    proof {
                        assert forall|i: int| 0 <= i < self@.len() implies #[trigger] out@[i]
                            == cast_any(self@[i], dtype) by {
                            assert(is_cast_of(ca@[i], a@[i]));
                        }
                        assert(out@ =~= Seq::new(self@.len(), |i: int| cast_any(self@[i], dtype)));
                    }
                    Ok(out)
                },
                Series::DurationNs(a) => {
                    let ca = a.cast_rows::<i64>();
                    let out = Series::Time64Ns(ca);
                    proof {
                        assert forall|i: int| 0 <= i < self@.len() implies #[trigger] out@[i]
                            == cast_any(self@[i], dtype) by {
                            assert(is_cast_of(ca@[i], a@[i]));
                        }
                        assert(out@ =~= Seq::new(self@.len(), |i: int| cast_any(self@[i], dtype)));
                    }
                    Ok(out)
                },
                _ => Err(PolarsError::DataTypeMisMatch),
            },
            DataType::DurationNs => match self {
                Series::UInt32(a) => {
                    let ca = a.cast_rows::<i64>();
                    let out = Series::DurationNs(ca);
                    proof {
                        assert forall|i: int| 0 <= i < self@.len() implies #[trigger] out@[i]
                            == cast_any(self@[i], dtype) by {
                            assert(is_cast_of(ca@[i], a@[i]));
                        }
                        assert(out@ =~= Seq::new(self@.len(), |i: int| cast_any(self@[i], dtype)));
                    }
                    Ok(out)
                },
                Series::Int32(a) => {
                    let ca = a.cast_rows::<i64>();
                    let out = Series::DurationNs(ca);
                    proof {
                        assert forall|i: int| 0 <= i < self@.len() implies #[trigger] out@[i]
                            == cast_any(self@[i], dtype) by {
                            assert(is_cast_of(ca@[i], a@[i]));
                        }
                        assert(out@ =~= Seq::new(self@.len(), |i: int| cast_any(self@[i], dtype)));
                    }
                    Ok(out)
                },
                Series::Int64(a) => {
                    let ca = a.cast_rows::<i64>();
                    let out = Series::DurationNs(ca);
                    proof {
                        assert forall|i: int| 0 <= i < self@.len() implies #[trigger] out@[i]
                            == cast_any(self@[i], dtype) by {
                            assert(is_cast_of(ca@[i], a@[i]));
                        }
                        assert(out@ =~= Seq::new(self@.len(), |i: int| cast_any(self@[i], dtype)));
                    }
                    Ok(out)
                },
                Series::Date32(a) => {
                    let ca = a.cast_rows::<i64>();
                    let out = Series::DurationNs(ca);
                    proof {
                        assert forall|i: int| 0 <= i < self@.len() implies #[trigger] out@[i]
                            == cast_any(self@[i], dtype) by {
                            assert(is_cast_of(ca@[i], a@[i]));
                        }
                        assert(out@ =~= Seq::new(self@.len(), |i: int| cast_any(self@[i], dtype)));
                    }
                    Ok(out)
                },
                Series::Date64(a) => {
                    let ca = a.cast_rows::<i64>();
                    let out = Series::DurationNs(ca);
                    proof {
                        assert forall|i: int| 0 <= i < self@.len() implies #[trigger] out@[i]
                            == cast_any(self@[i], dtype) by {
                            assert(is_cast_of(ca@[i], a@[i]));
                        }
                        assert(out@ =~= Seq::new(self@.len(), |i: int| cast_any(self@[i], dtype)));
                    }
                    Ok(out)
                },
                Series::Time64Ns(a) => {
                    let ca = a.cast_rows::<i64>();
                    let out = Series::DurationNs(ca);
                    proof {
                        assert forall|i: int| 0 <= i < self@.len() implies #[trigger] out@[i]
                            == cast_any(self@[i], dtype) by {
                            assert(is_cast_of(ca@[i], a@[i]));
                        }
                        assert(out@ =~= Seq::new(self@.len(), |i: int| cast_any(self@[i], dtype)));
                    }
                    Ok(out)
                },
                Series::DurationNs(a) => {
                    let ca = a.cast_rows::<i64>();
                    let out = Series::DurationNs(ca);
                    proof {
                        assert forall|i: int| 0 <= i < self@.len() implies #[trigger] out@[i]
                            == cast_any(self@[i], dtype) by {
                            assert(is_cast_of(ca@[i], a@[i]));
                        }
                        assert(out@ =~= Seq::new(self@.len(), |i: int| cast_any(self@[i], dtype)));
                    }
                    Ok(out)
                },
                _ => Err(PolarsError::DataTypeMisMatch),
            },
            _ => Err(PolarsError::DataTypeMisMatch),
        }
    }

    /// Cast to a primitive type: to numbers, dates or times. A column of
    /// strings or of truth values is refused, and so is a cast to another
    /// type.
    ///
    /// Casts between integers, dates and times are made here: a number that
    /// the other type cannot hold becomes a null row. A cast to or from
    /// floats needs floating point arithmetic, which the caller hands in as
    /// `floats`: it is asked for every row that is not null, with the type
    /// to cast to, and what it gives becomes the row of the result.
    pub fn cast<F: Fn(AnyType, DataType) -> AnyType>(&self, dtype: DataType, floats: F) -> (out:
        PolarsResult<Self>)
        requires
            forall|value: AnyType, target: DataType| call_requires(floats, (value, target)),
        ensures
            !(self.is_primitive() && dtype.is_primitive_spec()) ==> out matches Err(
                PolarsError::DataTypeMisMatch,
            ),
            self.dtype_spec().is_integer_like_spec() && dtype.is_integer_like_spec() ==> (out matches Ok(
                series,
            ) && series.dtype_spec() == dtype && series.name_view() == self.name_view() && series@
                == Seq::new(self@.len(), |i: int| cast_any(self@[i], dtype))),
            self.is_primitive() && dtype.is_primitive_spec() && !(
            self.dtype_spec().is_integer_like_spec() && dtype.is_integer_like_spec()) ==> (out matches Ok(
                series,
            ) && series.dtype_spec() == dtype && series.name_view() == self.name_view()
                && series@.len() == self@.len() && forall|i: int|
                0 <= i < self@.len() ==> is_float_cast(floats, self@[i], dtype, #[trigger] series@[i])),
    {
        if self.dtype().is_integer_like() && dtype.is_integer_like() {
            return self.cast_integer(dtype);
        }
        match self {
            Series::Utf8(_) | Series::Bool(_) => {
                return Err(PolarsError::DataTypeMisMatch);
            },
            _ => {},
        }
        let n: usize = self.len();
        match dtype {
            DataType::UInt32 => {
                let mut items: Vec<Option<u32>> = Vec::with_capacity(n);
                let mut i: usize = 0;
                while i < n
                    invariant
                        n == self@.len(),
                        n <= MAX_ROWS,
                        dtype == DataType::UInt32,
                        forall|value: AnyType, target: DataType|
                            call_requires(floats, (value, target)),
                        0 <= i <= n,
                        items@.len() == i,
                        forall|j: int|
                            0 <= j < i ==> is_float_cast(
                                floats,
                                self@[j],
                                dtype,
                                #[trigger] any_rows_uint32(items@)[j],
                            ),
                    decreases n - i,
                {
                    let ghost from = self@[i as int];
                    let ghost before = items@;
                    let item: Option<u32> = match self.get(i) {
                        AnyType::Null => None,
                        value => {
                            let given = floats(value, dtype);
                            let ghost seen = given;
                            let item: Option<u32> = match given {
                                AnyType::UInt32(converted) => Some(converted),
                                _ => None,
                            };
                            proof {
                                assert(call_ensures(floats, (from, dtype), seen));
                                assert((match item {
                                    Some(converted) => AnyType::UInt32(converted),
                                    None => AnyType::Null,
                                }) == kept(seen, dtype));
                            }
                            item
                        },
                    };
                    items.push(item);
                    proof {
                        assert forall|j: int| 0 <= j < i + 1 implies is_float_cast(
                            floats,
                            self@[j],
                            dtype,
                            #[trigger] any_rows_uint32(items@)[j],
                        ) by {
                            if j < i {
                                assert(any_rows_uint32(items@)[j] == any_rows_uint32(
                                    before,
                                )[j]);
                            }
                        }
                    }
                    i = i + 1;
                }
                let ca: ChunkedArray<u32> = ChunkedArray::from_options(self.name(), items.as_slice());
                let out = Series::UInt32(ca);
                assert forall|i: int| 0 <= i < self@.len() implies is_float_cast(
                    floats,
                    self@[i],
                    dtype,
                    #[trigger] out@[i],
                ) by {
                    assert(out@[i] == any_rows_uint32(items@)[i]);
                }
                Ok(out)
            },
            DataType::Int32 => {
                let mut items: Vec<Option<i32>> = Vec::with_capacity(n);
                let mut i: usize = 0;
                while i < n
                    invariant
                        n == self@.len(),
                        n <= MAX_ROWS,
                        dtype == DataType::Int32,
                        forall|value: AnyType, target: DataType|
                            call_requires(floats, (value, target)),
                        0 <= i <= n,
                        items@.len() == i,
                        forall|j: int|
                            0 <= j < i ==> is_float_cast(
                                floats,
                                self@[j],
                                dtype,
                                #[trigger] any_rows_int32(items@)[j],
                            ),
                    decreases n - i,
                {
                    let ghost from = self@[i as int];
                    let ghost before = items@;
                    let item: Option<i32> = match self.get(i) {
                        AnyType::Null => None,
                        value => {
                            let given = floats(value, dtype);
                            let ghost seen = given;
                            let item: Option<i32> = match given {
                                AnyType::Int32(converted) => Some(converted),
                                _ => None,
                            };
                            proof {
                                assert(call_ensures(floats, (from, dtype), seen));
                                assert((match item {
                                    Some(converted) => AnyType::Int32(converted),
                                    None => AnyType::Null,
                                }) == kept(seen, dtype));
                            }
                            item
                        },
                    };
                    items.push(item);
                    proof {
                        assert forall|j: int| 0 <= j < i + 1 implies is_float_cast(
                            floats,
                            self@[j],
                            dtype,
                            #[trigger] any_rows_int32(items@)[j],
                        ) by {
                            if j < i {
                                assert(any_rows_int32(items@)[j] == any_rows_int32(
                                    before,
                                )[j]);
                            }
                        }
                    }
                    i = i + 1;
                }
                let ca: ChunkedArray<i32> = ChunkedArray::from_options(self.name(), items.as_slice());
                let out = Series::Int32(ca);
                assert forall|i: int| 0 <= i < self@.len() implies is_float_cast(
                    floats,
                    self@[i],
                    dtype,
                    #[trigger] out@[i],
                ) by {
                    assert(out@[i] == any_rows_int32(items@)[i]);
                }
                Ok(out)
            },
            DataType::Int64 => {
                let mut items: Vec<Option<i64>> = Vec::with_capacity(n);
                let mut i: usize = 0;
                while i < n
                    invariant
                        n == self@.len(),
                        n <= MAX_ROWS,
                        dtype == DataType::Int64,
                        forall|value: AnyType, target: DataType|
                            call_requires(floats, (value, target)),
                        0 <= i <= n,
                        items@.len() == i,
                        forall|j: int|
                            0 <= j < i ==> is_float_cast(
                                floats,
                                self@[j],
                                dtype,
                                #[trigger] any_rows_int64(items@)[j],
                            ),
                    decreases n - i,
                {
                    let ghost from = self@[i as int];
                    let ghost before = items@;
                    let item: Option<i64> = match self.get(i) {
                        AnyType::Null => None,
                        value => {
                            let given = floats(value, dtype);
                            let ghost seen = given;
                            let item: Option<i64> = match given {
                                AnyType::Int64(converted) => Some(converted),
                                _ => None,
                            };
                            proof {
                                assert(call_ensures(floats, (from, dtype), seen));
                                assert((match item {
                                    Some(converted) => AnyType::Int64(converted),
                                    None => AnyType::Null,
                                }) == kept(seen, dtype));
                            }
                            item
                        },
                    };
                    items.push(item);
                    proof {
                        assert forall|j: int| 0 <= j < i + 1 implies is_float_cast(
                            floats,
                            self@[j],
                            dtype,
                            #[trigger] any_rows_int64(items@)[j],
                        ) by {
                            if j < i {
                                assert(any_rows_int64(items@)[j] == any_rows_int64(
                                    before,
                                )[j]);
                            }
                        }
                    }
                    i = i + 1;
                }
                let ca: ChunkedArray<i64> = ChunkedArray::from_options(self.name(), items.as_slice());
                let out = Series::Int64(ca);
                assert forall|i: int| 0 <= i < self@.len() implies is_float_cast(
                    floats,
                    self@[i],
                    dtype,
                    #[trigger] out@[i],
                ) by {
                    assert(out@[i] == any_rows_int64(items@)[i]);
                }
                Ok(out)
            },
            DataType::Float32 => {
                let mut items: Vec<Option<Float32>> = Vec::with_capacity(n);
                let mut i: usize = 0;
                while i < n
                    invariant
                        n == self@.len(),
                        n <= MAX_ROWS,
                        dtype == DataType::Float32,
                        forall|value: AnyType, target: DataType|
                            call_requires(floats, (value, target)),
                        0 <= i <= n,
                        items@.len() == i,
                        forall|j: int|
                            0 <= j < i ==> is_float_cast(
                                floats,
                                self@[j],
                                dtype,
                                #[trigger] any_rows_float32(items@)[j],
                            ),
                    decreases n - i,
                {
                    let ghost from = self@[i as int];
                    let ghost before = items@;
                    let item: Option<Float32> = match self.get(i) {
                        AnyType::Null => None,
                        value => {
                            let given = floats(value, dtype);
                            let ghost seen = given;
                            let item: Option<Float32> = match given {
                                AnyType::Float32(converted) => Some(converted),
                                _ => None,
                            };
                            proof {
                                assert(call_ensures(floats, (from, dtype), seen));
                                assert((match item {
                                    Some(converted) => AnyType::Float32(converted),
                                    None => AnyType::Null,
                                }) == kept(seen, dtype));
                            }
                            item
                        },
                    };
                    items.push(item);
                    proof {
                        assert forall|j: int| 0 <= j < i + 1 implies is_float_cast(
                            floats,
                            self@[j],
                            dtype,
                            #[trigger] any_rows_float32(items@)[j],
                        ) by {
                            if j < i {
                                assert(any_rows_float32(items@)[j] == any_rows_float32(
                                    before,
                                )[j]);
                            }
                        }
                    }
                    i = i + 1;
                }
                let ca: ChunkedArray<Float32> = ChunkedArray::from_options(self.name(), items.as_slice());
                let out = Series::Float32(ca);
                assert forall|i: int| 0 <= i < self@.len() implies is_float_cast(
                    floats,
                    self@[i],
                    dtype,
                    #[trigger] out@[i],
                ) by {
                    assert(out@[i] == any_rows_float32(items@)[i]);
                }
                Ok(out)
            },
            DataType::Float64 => {
                let mut items: Vec<Option<Float64>> = Vec::with_capacity(n);
                let mut i: usize = 0;
                while i < n
                    invariant
                        n == self@.len(),
                        n <= MAX_ROWS,
                        dtype == DataType::Float64,
                        forall|value: AnyType, target: DataType|
                            call_requires(floats, (value, target)),
                        0 <= i <= n,
                        items@.len() == i,
                        forall|j: int|
                            0 <= j < i ==> is_float_cast(
                                floats,
                                self@[j],
                                dtype,
                                #[trigger] any_rows_float64(items@)[j],
                            ),
                    decreases n - i,
                {
                    let ghost from = self@[i as int];
                    let ghost before = items@;
                    let item: Option<Float64> = match self.get(i) {
                        AnyType::Null => None,
                        value => {
                            let given = floats(value, dtype);
                            let ghost seen = given;
                            let item: Option<Float64> = match given {
                                AnyType::Float64(converted) => Some(converted),
                                _ => None,
                            };
                            proof {
                                assert(call_ensures(floats, (from, dtype), seen));
                                assert((match item {
                                    Some(converted) => AnyType::Float64(converted),
                                    None => AnyType::Null,
                                }) == kept(seen, dtype));
                            }
                            item
                        },
                    };
                    items.push(item);
                    proof {
                        assert forall|j: int| 0 <= j < i + 1 implies is_float_cast(
                            floats,
                            self@[j],
                            dtype,
                            #[trigger] any_rows_float64(items@)[j],
                        ) by {
                            if j < i {
                                assert(any_rows_float64(items@)[j] == any_rows_float64(
                                    before,
                                )[j]);
                            }
                        }
                    }
                    i = i + 1;
                }
                let ca: ChunkedArray<Float64> = ChunkedArray::from_options(self.name(), items.as_slice());
                let out = Series::Float64(ca);
                assert forall|i: int| 0 <= i < self@.len() implies is_float_cast(
                    floats,
                    self@[i],
                    dtype,
                    #[trigger] out@[i],
                ) by {
                    assert(out@[i] == any_rows_float64(items@)[i]);
                }
                Ok(out)
            },
            DataType::Date32 => {
                let mut items: Vec<Option<i32>> = Vec::with_capacity(n);
                let mut i: usize = 0;
                while i < n
                    invariant
                        n == self@.len(),
                        n <= MAX_ROWS,
                        dtype == DataType::Date32,
                        forall|value: AnyType, target: DataType|
                            call_requires(floats, (value, target)),
                        0 <= i <= n,
                        items@.len() == i,
                        forall|j: int|
                            0 <= j < i ==> is_float_cast(
                                floats,
                                self@[j],
                                dtype,
                                #[trigger] any_rows_date32(items@)[j],
                            ),
                    decreases n - i,
                {
                    let ghost from = self@[i as int];
                    let ghost before = items@;
                    let item: Option<i32> = match self.get(i) {
                        AnyType::Null => None,
                        value => {
                            let given = floats(value, dtype);
                            let ghost seen = given;
                            let item: Option<i32> = match given {
                                AnyType::Date32(converted) => Some(converted),
                                _ => None,
                            };
                            proof {
                                assert(call_ensures(floats, (from, dtype), seen));
                                assert((match item {
                                    Some(converted) => AnyType::Date32(converted),
                                    None => AnyType::Null,
                                }) == kept(seen, dtype));
                            }
                            item
                        },
                    };
                    items.push(item);
                    proof {
                        assert forall|j: int| 0 <= j < i + 1 implies is_float_cast(
                            floats,
                            self@[j],
                            dtype,
                            #[trigger] any_rows_date32(items@)[j],
                        ) by {
                            if j < i {
                                assert(any_rows_date32(items@)[j] == any_rows_date32(
                                    before,
                                )[j]);
                            }
                        }
                    }
                    i = i + 1;
                }
                let ca: ChunkedArray<i32> = ChunkedArray::from_options(self.name(), items.as_slice());
                let out = Series::Date32(ca);
                assert forall|i: int| 0 <= i < self@.len() implies is_float_cast(
                    floats,
                    self@[i],
                    dtype,
                    #[trigger] out@[i],
                ) by {
                    assert(out@[i] == any_rows_date32(items@)[i]);
                }
                Ok(out)
            },
            DataType::Date64 => {
                let mut items: Vec<Option<i64>> = Vec::with_capacity(n);
                let mut i: usize = 0;
                while i < n
                    invariant
                        n == self@.len(),
                        n <= MAX_ROWS,
                        dtype == DataType::Date64,
                        forall|value: AnyType, target: DataType|
                            call_requires(floats, (value, target)),
                        0 <= i <= n,
                        items@.len() == i,
                        forall|j: int|
                            0 <= j < i ==> is_float_cast(
                                floats,
                                self@[j],
                                dtype,
                                #[trigger] any_rows_date64(items@)[j],
                            ),
                    decreases n - i,
                {
                    let ghost from = self@[i as int];
                    let ghost before = items@;
                    let item: Option<i64> = match self.get(i) {
                        AnyType::Null => None,
                        value => {
                            let given = floats(value, dtype);
                            let ghost seen = given;
                            let item: Option<i64> = match given {
                                AnyType::Date64(converted) => Some(converted),
                                _ => None,
                            };
                            proof {
                                assert(call_ensures(floats, (from, dtype), seen));
                                assert((match item {
                                    Some(converted) => AnyType::Date64(converted),
                                    None => AnyType::Null,
                                }) == kept(seen, dtype));
                            }
                            item
                        },
                    };
                    items.push(item);
                    proof {
                        assert forall|j: int| 0 <= j < i + 1 implies is_float_cast(
                            floats,
                            self@[j],
                            dtype,
                            #[trigger] any_rows_date64(items@)[j],
                        ) by {
                            if j < i {
                                assert(any_rows_date64(items@)[j] == any_rows_date64(
                                    before,
                                )[j]);
                            }
                        }
                    }
                    i = i + 1;
                }
                let ca: ChunkedArray<i64> = ChunkedArray::from_options(self.name(), items.as_slice());
                let out = Series::Date64(ca);
                assert forall|i: int| 0 <= i < self@.len() implies is_float_cast(
                    floats,
                    self@[i],
                    dtype,
                    #[trigger] out@[i],
                ) by {
                    assert(out@[i] == any_rows_date64(items@)[i]);
                }
                Ok(out)
            },
            DataType::Time64Ns => {
                let mut items: Vec<Option<i64>> = Vec::with_capacity(n);
                let mut i: usize = 0;
                while i < n
                    invariant
                        n == self@.len(),
                        n <= MAX_ROWS,
                        dtype == DataType::Time64Ns,
                        forall|value: AnyType, target: DataType|
                            call_requires(floats, (value, target)),
                        0 <= i <= n,
                        items@.len() == i,
                        forall|j: int|
                            0 <= j < i ==> is_float_cast(
                                floats,
                                self@[j],
                                dtype,
                                #[trigger] any_rows_time64ns(items@)[j],
                            ),
                    decreases n - i,
                {
                    let ghost from = self@[i as int];
                    let ghost before = items@;
                    let item: Option<i64> = match self.get(i) {
                        AnyType::Null => None,
                        value => {
                            let given = floats(value, dtype);
                            let ghost seen = given;
                            let item: Option<i64> = match given {
                                AnyType::Time64Ns(converted) => Some(converted),
                                _ => None,
                            };
                            proof {
                                assert(call_ensures(floats, (from, dtype), seen));
                                assert((match item {
                                    Some(converted) => AnyType::Time64Ns(converted),
                                    None => AnyType::Null,
                                }) == kept(seen, dtype));
                            }
                            item
                        },
                    };
                    items.push(item);
                    proof {
                        assert forall|j: int| 0 <= j < i + 1 implies is_float_cast(
                            floats,
                            self@[j],
                            dtype,
                            #[trigger] any_rows_time64ns(items@)[j],
                        ) by {
                            if j < i {
                                assert(any_rows_time64ns(items@)[j] == any_rows_time64ns(
                                    before,
                                )[j]);
                            }
                        }
                    }
                    i = i + 1;
                }
                let ca: ChunkedArray<i64> = ChunkedArray::from_options(self.name(), items.as_slice());
                let out = Series::Time64Ns(ca);
                assert forall|i: int| 0 <= i < self@.len() implies is_float_cast(
                    floats,
                    self@[i],
                    dtype,
                    #[trigger] out@[i],
                ) by {
                    assert(out@[i] == any_rows_time64ns(items@)[i]);
                }
                Ok(out)
            },
            DataType::DurationNs => {
                let mut items: Vec<Option<i64>> = Vec::with_capacity(n);
                let mut i: usize = 0;
                while i < n
                    invariant
                        n == self@.len(),
                        n <= MAX_ROWS,
                        dtype == DataType::DurationNs,
                        forall|value: AnyType, target: DataType|
                            call_requires(floats, (value, target)),
                        0 <= i <= n,
                        items@.len() == i,
                        forall|j: int|
                            0 <= j < i ==> is_float_cast(
                                floats,
                                self@[j],
                                dtype,
                                #[trigger] any_rows_durationns(items@)[j],
                            ),
                    decreases n - i,
                {
                    let ghost from = self@[i as int];
                    let ghost before = items@;
                    let item: Option<i64> = match self.get(i) {
                        AnyType::Null => None,
                        value => {
                            let given = floats(value, dtype);
                            let ghost seen = given;
                            let item: Option<i64> = match given {
                                AnyType::DurationNs(converted) => Some(converted),
                                _ => None,
                            };
                            proof {
                                assert(call_ensures(floats, (from, dtype), seen));
                                assert((match item {
                                    Some(converted) => AnyType::DurationNs(converted),
                                    None => AnyType::Null,
                                }) == kept(seen, dtype));
                            }
                            item
                        },
                    };
                    items.push(item);
                    proof {
                        assert forall|j: int| 0 <= j < i + 1 implies is_float_cast(
                            floats,
                            self@[j],
                            dtype,
                            #[trigger] any_rows_durationns(items@)[j],
                        ) by {
                            if j < i {
                                assert(any_rows_durationns(items@)[j] == any_rows_durationns(
                                    before,
                                )[j]);
                            }
                        }
                    }
                    i = i + 1;
                }
                let ca: ChunkedArray<i64> = ChunkedArray::from_options(self.name(), items.as_slice());
                let out = Series::DurationNs(ca);
                assert forall|i: int| 0 <= i < self@.len() implies is_float_cast(
                    floats,
                    self@[i],
                    dtype,
                    #[trigger] out@[i],
                ) by {
                    assert(out@[i] == any_rows_durationns(items@)[i]);
                }
                Ok(out)
            },
            _ => Err(PolarsError::DataTypeMisMatch),
        }
    }

    /// Get length of series.
    pub fn len(&self) -> (n: usize)
        ensures
            n == self@.len(),
            n <= MAX_ROWS,
    {
        match self {
            Series::UInt32(a) => a.len(),
            Series::Int32(a) => a.len(),
            Series::Int64(a) => a.len(),
            Series::Float32(a) => a.len(),
            Series::Float64(a) => a.len(),
            Series::Utf8(a) => a.len(),
            Series::Bool(a) => a.len(),
            Series::Date32(a) => a.len(),
            Series::Date64(a) => a.len(),
            Series::Time64Ns(a) => a.len(),
            Series::DurationNs(a) => a.len(),
        }
    }

    /// Aggregate all chunks to a contiguous array of memory. The rows, the
    /// name and the data type stay.
    pub fn rechunk(&mut self)
        ensures
            final(self)@ == old(self)@,
            final(self).name_view() == old(self).name_view(),
            final(self).dtype_spec() == old(self).dtype_spec(),
            final(self).n_chunks_spec() == 1,
    {
        match self {
            Series::UInt32(a) => a.rechunk(),
            Series::Int32(a) => a.rechunk(),
            Series::Int64(a) => a.rechunk(),
            Series::Float32(a) => a.rechunk(),
            Series::Float64(a) => a.rechunk(),
            Series::Utf8(a) => a.rechunk(),
            Series::Bool(a) => a.rechunk(),
            Series::Date32(a) => a.rechunk(),
            Series::Date64(a) => a.rechunk(),
            Series::Time64Ns(a) => a.rechunk(),
            Series::DurationNs(a) => a.rechunk(),
        }
    }

    /// Whether the values of the column are numbers, dates or times, which
    /// have an order.
    pub open spec fn is_primitive(&self) -> bool {
        !(self is Utf8) && !(self is Bool)
    }

    /// Whether `after` is the column `before` with its rows in sorted order.
    pub open spec fn is_sorted_from(after: Series, before: Series) -> bool {
        match (before, after) {
            (Series::UInt32(a), Series::UInt32(b)) => is_sorted_of(b@, a@),
            (Series::Int32(a), Series::Int32(b)) => is_sorted_of(b@, a@),
            (Series::Int64(a), Series::Int64(b)) => is_sorted_of(b@, a@),
            (Series::Float32(a), Series::Float32(b)) => is_sorted_of(b@, a@),
            (Series::Float64(a), Series::Float64(b)) => is_sorted_of(b@, a@),
            (Series::Date32(a), Series::Date32(b)) => is_sorted_of(b@, a@),
            (Series::Date64(a), Series::Date64(b)) => is_sorted_of(b@, a@),
            (Series::Time64Ns(a), Series::Time64Ns(b)) => is_sorted_of(b@, a@),
            (Series::DurationNs(a), Series::DurationNs(b)) => is_sorted_of(b@, a@),
            _ => false,
        }
    }

    /// Sorts the rows of a column of numbers, dates or times: the null rows
    /// first, then the values in increasing order.
    pub fn sort(&mut self)
        requires
            old(self).is_primitive(),
        ensures
            Self::is_sorted_from(*final(self), *old(self)),
            final(self).name_view() == old(self).name_view(),
    {
        match self {
            Series::UInt32(a) => a.sort_in_place(),
            Series::Int32(a) => a.sort_in_place(),
            Series::Int64(a) => a.sort_in_place(),
            Series::Float32(a) => a.sort_in_place(),
            Series::Float64(a) => a.sort_in_place(),
            Series::Date32(a) => a.sort_in_place(),
            Series::Date64(a) => a.sort_in_place(),
            Series::Time64Ns(a) => a.sort_in_place(),
            Series::DurationNs(a) => a.sort_in_place(),
            _ => {},
        }
    }

    /// Whether `order` is an order in which the rows of the column are
    /// sorted.
    pub open spec fn is_argsort(&self, order: Seq<Option<u32>>) -> bool {
        match self {
            Series::UInt32(a) => is_argsort_of(order, a@),
            Series::Int32(a) => is_argsort_of(order, a@),
            Series::Int64(a) => is_argsort_of(order, a@),
            Series::Float32(a) => is_argsort_of(order, a@),
            Series::Float64(a) => is_argsort_of(order, a@),
            Series::Date32(a) => is_argsort_of(order, a@),
            Series::Date64(a) => is_argsort_of(order, a@),
            Series::Time64Ns(a) => is_argsort_of(order, a@),
            Series::DurationNs(a) => is_argsort_of(order, a@),
            _ => false,
        }
    }

    /// An order in which the rows of a column of numbers, dates or times
    /// are sorted, the null rows first.
    pub fn argsort(&self) -> (order: UInt32Chunked)
        requires
            self.is_primitive(),
            self@.len() <= u32::MAX,
        ensures
            self.is_argsort(order@),
            order.sorted_flag() == crate::chunked_array::IsSorted::Not,
    {
        match self {
            Series::UInt32(a) => a.argsort(),
            Series::Int32(a) => a.argsort(),
            Series::Int64(a) => a.argsort(),
            Series::Float32(a) => a.argsort(),
            Series::Float64(a) => a.argsort(),
            Series::Date32(a) => a.argsort(),
            Series::Date64(a) => a.argsort(),
            Series::Time64Ns(a) => a.argsort(),
            Series::DurationNs(a) => a.argsort(),
            _ => ChunkedArray::full_null("", 0),
        }
    }

    /// The value of row `index`.
    pub fn get(&self, index: usize) -> (value: AnyType)
        requires
            index < self@.len(),
        ensures
            value == self@[index as int],
    {
        match self {
            Series::UInt32(a) => match a.get(index) {
                Some(value) => AnyType::UInt32(value),
                None => AnyType::Null,
            },
            Series::Int32(a) => match a.get(index) {
                Some(value) => AnyType::Int32(value),
                None => AnyType::Null,
            },
            Series::Int64(a) => match a.get(index) {
                Some(value) => AnyType::Int64(value),
                None => AnyType::Null,
            },
            Series::Float32(a) => match a.get(index) {
                Some(value) => AnyType::Float32(value),
                None => AnyType::Null,
            },
            Series::Float64(a) => match a.get(index) {
                Some(value) => AnyType::Float64(value),
                None => AnyType::Null,
            },
            Series::Utf8(a) => match a.get(index) {
                Some(value) => AnyType::Utf8(value),
                None => AnyType::Null,
            },
            Series::Bool(a) => match a.get(index) {
                Some(value) => AnyType::Bool(value),
                None => AnyType::Null,
            },
            Series::Date32(a) => match a.get(index) {
                Some(value) => AnyType::Date32(value),
                None => AnyType::Null,
            },
            Series::Date64(a) => match a.get(index) {
                Some(value) => AnyType::Date64(value),
                None => AnyType::Null,
            },
            Series::Time64Ns(a) => match a.get(index) {
                Some(value) => AnyType::Time64Ns(value),
                None => AnyType::Null,
            },
            Series::DurationNs(a) => match a.get(index) {
                Some(value) => AnyType::DurationNs(value),
                None => AnyType::Null,
            },
        }
    }
}

/// Initialize by name and values.
pub trait NamedFrom<T>: Sized {
    /// The rows of the column that `init` makes of the values.
    spec fn init_rows(values: T) -> Seq<AnyType>;

    /// Whether a column can be made of so many values.
    spec fn init_fits(values: T) -> bool;

    /// Initialize by name and values.
    fn init(name: &str, values: T) -> (out: Self)
        requires
            Self::init_fits(values),
    ;
}

impl<'a> NamedFrom<&'a [bool]> for Series {
    open spec fn init_rows(values: &'a [bool]) -> Seq<AnyType> {
        Seq::new(values@.len(), |i: int| AnyType::Bool(values@[i]))
    }

    open spec fn init_fits(values: &'a [bool]) -> bool {
        values@.len() <= MAX_ROWS
    }

    fn init(name: &str, values: &'a [bool]) -> (out: Self)
        ensures
            out is Bool,
            out.name_view() == name@,
            out@ == Self::init_rows(values),
    {
        let out = Series::Bool(ChunkedArray::new(name, values));
        assert(out@ =~= Self::init_rows(values));
        out
    }
}

impl<'a> NamedFrom<&'a [u32]> for Series {
    open spec fn init_rows(values: &'a [u32]) -> Seq<AnyType> {
        Seq::new(values@.len(), |i: int| AnyType::UInt32(values@[i]))
    }

    open spec fn init_fits(values: &'a [u32]) -> bool {
        values@.len() <= MAX_ROWS
    }

    fn init(name: &str, values: &'a [u32]) -> (out: Self)
        ensures
            out is UInt32,
            out.name_view() == name@,
            out@ == Self::init_rows(values),
    {
        let out = Series::UInt32(ChunkedArray::new(name, values));
        assert(out@ =~= Self::init_rows(values));
        out
    }
}

impl<'a> NamedFrom<&'a [i32]> for Series {
    open spec fn init_rows(values: &'a [i32]) -> Seq<AnyType> {
        Seq::new(values@.len(), |i: int| AnyType::Int32(values@[i]))
    }

    open spec fn init_fits(values: &'a [i32]) -> bool {
        values@.len() <= MAX_ROWS
    }

    fn init(name: &str, values: &'a [i32]) -> (out: Self)
        ensures
            out is Int32,
            out.name_view() == name@,
            out@ == Self::init_rows(values),
    {
        let out = Series::Int32(ChunkedArray::new(name, values));
        assert(out@ =~= Self::init_rows(values));
        out
    }
}

impl<'a> NamedFrom<&'a [i64]> for Series {
    open spec fn init_rows(values: &'a [i64]) -> Seq<AnyType> {
        Seq::new(values@.len(), |i: int| AnyType::Int64(values@[i]))
    }

    open spec fn init_fits(values: &'a [i64]) -> bool {
        values@.len() <= MAX_ROWS
    }

    fn init(name: &str, values: &'a [i64]) -> (out: Self)
        ensures
            out is Int64,
            out.name_view() == name@,
            out@ == Self::init_rows(values),
    {
        let out = Series::Int64(ChunkedArray::new(name, values));
        assert(out@ =~= Self::init_rows(values));
        out
    }
}

impl<'a> NamedFrom<&'a [Float32]> for Series {
    open spec fn init_rows(values: &'a [Float32]) -> Seq<AnyType> {
        Seq::new(values@.len(), |i: int| AnyType::Float32(values@[i]))
    }

    open spec fn init_fits(values: &'a [Float32]) -> bool {
        values@.len() <= MAX_ROWS
    }

    fn init(name: &str, values: &'a [Float32]) -> (out: Self)
        ensures
            out is Float32,
            out.name_view() == name@,
            out@ == Self::init_rows(values),
    {
        let out = Series::Float32(ChunkedArray::new(name, values));
        assert(out@ =~= Self::init_rows(values));
        out
    }
}

impl<'a> NamedFrom<&'a [Float64]> for Series {
    open spec fn init_rows(values: &'a [Float64]) -> Seq<AnyType> {
        Seq::new(values@.len(), |i: int| AnyType::Float64(values@[i]))
    }

    open spec fn init_fits(values: &'a [Float64]) -> bool {
        values@.len() <= MAX_ROWS
    }

    fn init(name: &str, values: &'a [Float64]) -> (out: Self)
        ensures
            out is Float64,
            out.name_view() == name@,
            out@ == Self::init_rows(values),
    {
        let out = Series::Float64(ChunkedArray::new(name, values));
        assert(out@ =~= Self::init_rows(values));
        out
    }
}

impl<'a> NamedFrom<&'a [String]> for Series {
    open spec fn init_rows(values: &'a [String]) -> Seq<AnyType> {
        Seq::new(values@.len(), |i: int| AnyType::Utf8(values@[i]))
    }

    open spec fn init_fits(values: &'a [String]) -> bool {
        values@.len() <= MAX_ROWS
    }

    fn init(name: &str, values: &'a [String]) -> (out: Self)
        ensures
            out is Utf8,
            out.name_view() == name@,
            out@ == Self::init_rows(values),
    {
        let out = Series::Utf8(ChunkedArray::new(name, values));
        assert(out@ =~= Self::init_rows(values));
        out
    }
}

} // verus!
