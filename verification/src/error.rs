//! The errors of the library.

use vstd::prelude::*;

verus! {

/// What a call can fail with.
#[derive(Debug)]
pub enum PolarsError {
    /// The operation is not defined for the data it was asked for.
    InvalidOperation,
    /// Two columns are chunked differently.
    ChunkMisMatch,
    /// The column holds another data type than the one asked for.
    DataTypeMisMatch,
    /// Nothing of that name.
    NotFound,
    /// Two columns differ in length.
    ShapeMisMatch,
    /// A computation cannot be done on the data; the text says why.
    ComputeError(String),
    /// Any other failure; the text says which.
    Other(String),
    /// Nothing was selected.
    NoSelection,
    /// A row index beyond the last row.
    OutOfBounds,
    /// The column is not one contiguous chunk without null rows.
    NoSlice,
    /// The column is empty.
    NoData,
    /// The memory of a buffer is not aligned as needed.
    MemoryNotAligned,
    /// The operation needs a column without null rows.
    HasNullValues,
}

/// What a call of the library returns that can fail.
pub type PolarsResult<T> = Result<T, PolarsError>;

impl PolarsError {
    /// The message of the error, as a sequence of characters.
    pub open spec fn message_view(&self) -> Seq<char> {
        match self {
            PolarsError::InvalidOperation => "Invalid operation"@,
            PolarsError::ChunkMisMatch => "Chunks don't match"@,
            PolarsError::DataTypeMisMatch => "Data types don't match"@,
            PolarsError::NotFound => "Not found"@,
            PolarsError::ShapeMisMatch => "Lengths don't match"@,
            PolarsError::ComputeError(text) => text@,
            PolarsError::Other(text) => text@,
            PolarsError::NoSelection => "No selection was made"@,
            PolarsError::OutOfBounds => "Out of bounds"@,
            PolarsError::NoSlice => "Not contiguous or null values"@,
            PolarsError::NoData => "Such empty..."@,
            PolarsError::MemoryNotAligned => "Memory should be 64 byte aligned"@,
            PolarsError::HasNullValues => "This operation requires data without None values"@,
        }
    }

    /// The message of the error.
    pub fn message(&self) -> (text: String)
        ensures
            text@ == self.message_view(),
    {
        match self {
            PolarsError::InvalidOperation => "Invalid operation".to_owned(),
            PolarsError::ChunkMisMatch => "Chunks don't match".to_owned(),
            PolarsError::DataTypeMisMatch => "Data types don't match".to_owned(),
            PolarsError::NotFound => "Not found".to_owned(),
            PolarsError::ShapeMisMatch => "Lengths don't match".to_owned(),
            PolarsError::ComputeError(text) => text.clone(),
            PolarsError::Other(text) => text.clone(),
            PolarsError::NoSelection => "No selection was made".to_owned(),
            PolarsError::OutOfBounds => "Out of bounds".to_owned(),
            PolarsError::NoSlice => "Not contiguous or null values".to_owned(),
            PolarsError::NoData => "Such empty...".to_owned(),
            PolarsError::MemoryNotAligned => "Memory should be 64 byte aligned".to_owned(),
            PolarsError::HasNullValues => {
                "This operation requires data without None values".to_owned()
            },
        }
    }
}

} // verus!
