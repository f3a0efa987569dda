//! The data types of columns and the values of single rows.

use crate::chunked_array::ChunkedArray;
use crate::native::{Float32, Float64};
use vstd::prelude::*;

verus! {

/// The logical type of the values of a column.
#[derive(Clone, Copy, PartialEq, Eq, Structural, Debug)]
pub enum DataType {
    Boolean,
    UInt8,
    UInt16,
    UInt32,
    UInt64,
    Int8,
    Int16,
    Int32,
    Int64,
    Float32,
    Float64,
    Utf8,
    Binary,
    /// Days since the epoch.
    Date32,
    /// Milliseconds since the epoch.
    Date64,
    /// Nanoseconds since midnight.
    Time64Ns,
    /// A span of time in nanoseconds.
    DurationNs,
    List,
}

impl DataType {
    /// Whether the values are numbers.
    pub open spec fn is_numeric_spec(&self) -> bool {
        match self {
            DataType::UInt8
            | DataType::UInt16
            | DataType::UInt32
            | DataType::UInt64
            | DataType::Int8
            | DataType::Int16
            | DataType::Int32
            | DataType::Int64
            | DataType::Float32
            | DataType::Float64 => true,
            _ => false,
        }
    }

    /// The type of the values as they are held: dates and times are held as
    /// the integers that count them.
    pub open spec fn to_physical_spec(&self) -> DataType {
        match self {
            DataType::Date32 => DataType::Int32,
            DataType::Date64 | DataType::Time64Ns | DataType::DurationNs => DataType::Int64,
            other => *other,
        }
    }

    /// Whether the values are integers, dates or times, which are held as
    /// integers.
    pub open spec fn is_integer_like_spec(&self) -> bool {
        match self {
            DataType::UInt32
            | DataType::Int32
            | DataType::Int64
            | DataType::Date32
            | DataType::Date64
            | DataType::Time64Ns
            | DataType::DurationNs => true,
            _ => false,
        }
    }

    /// Whether the values are integers, dates or times, which are held as
    /// integers.
    pub fn is_integer_like(&self) -> (integer: bool)
        ensures
            integer == self.is_integer_like_spec(),
    {
        match self {
            DataType::UInt32
            | DataType::Int32
            | DataType::Int64
            | DataType::Date32
            | DataType::Date64
            | DataType::Time64Ns
            | DataType::DurationNs => true,
            _ => false,
        }
    }

    /// Whether the values are numbers, dates or times: what a column can be
    /// cast to.
    pub open spec fn is_primitive_spec(&self) -> bool {
        self.is_integer_like_spec() || *self == DataType::Float32 || *self == DataType::Float64
    }

    /// Whether the values are numbers.
    pub fn is_numeric(&self) -> (numeric: bool)
        ensures
            numeric == self.is_numeric_spec(),
    {
        match self {
            DataType::UInt8
            | DataType::UInt16
            | DataType::UInt32
            | DataType::UInt64
            | DataType::Int8
            | DataType::Int16
            | DataType::Int32
            | DataType::Int64
            | DataType::Float32
            | DataType::Float64 => true,
            _ => false,
        }
    }

    /// The type of the values as they are held.
    pub fn to_physical(&self) -> (physical: DataType)
        ensures
            physical == self.to_physical_spec(),
    {
        match self {
            DataType::Date32 => DataType::Int32,
            DataType::Date64 | DataType::Time64Ns | DataType::DurationNs => DataType::Int64,
            other => *other,
        }
    }
}

pub type BooleanChunked = ChunkedArray<bool>;

pub type UInt8Chunked = ChunkedArray<u8>;

pub type UInt16Chunked = ChunkedArray<u16>;

pub type UInt32Chunked = ChunkedArray<u32>;

pub type UInt64Chunked = ChunkedArray<u64>;

pub type Int8Chunked = ChunkedArray<i8>;

pub type Int16Chunked = ChunkedArray<i16>;

pub type Int32Chunked = ChunkedArray<i32>;

pub type Int64Chunked = ChunkedArray<i64>;

pub type Float32Chunked = ChunkedArray<Float32>;

pub type Float64Chunked = ChunkedArray<Float64>;

pub type Utf8Chunked = ChunkedArray<String>;

pub type BinaryChunked = ChunkedArray<Vec<u8>>;

pub type Date32Chunked = ChunkedArray<i32>;

pub type Date64Chunked = ChunkedArray<i64>;

pub type Time64NsChunked = ChunkedArray<i64>;

pub type DurationNsChunked = ChunkedArray<i64>;

/// The index type as a column.
pub type IdxCa = ChunkedArray<usize>;

/// A name and a data type: what a schema says of a column.
#[derive(Debug)]
pub struct Field {
    name: String,
    data_type: DataType,
}

impl Field {
    /// The name of the column.
    pub closed spec fn name_view(&self) -> Seq<char> {
        self.name@
    }

    /// The data type of the column.
    pub closed spec fn dtype_spec(&self) -> DataType {
        self.data_type
    }

    /// The field of a column of the given name and data type.
    pub fn new(name: &str, data_type: DataType) -> (field: Field)
        ensures
            field.name_view() == name@,
            field.dtype_spec() == data_type,
    {
        Field { name: name.to_owned(), data_type }
    }

    /// The name of the column.
    pub fn name(&self) -> (name: &str)
        ensures
            name@ == self.name_view(),
    {
        self.name.as_str()
    }

    /// The data type of the column.
    pub fn data_type(&self) -> (data_type: DataType)
        ensures
            data_type == self.dtype_spec(),
    {
        self.data_type
    }
}

/// The value of one row of a column of any type.
#[derive(PartialEq, Eq, Debug)]
pub enum AnyType {
    Null,
    Bool(bool),
    Utf8(String),
    UInt32(u32),
    Int32(i32),
    Int64(i64),
    Float32(Float32),
    Float64(Float64),
    Date32(i32),
    Date64(i64),
    Time64Ns(i64),
    DurationNs(i64),
}

} // verus!
