//! Compute core of a columnar engine: rolling window aggregation over
//! nullable columns and grouping of rows by key.
//!
//! A column is a sequence of chunks, each a values buffer with an optional
//! validity bitmap of `arrow2`. The rolling kernels turn a chunk into a new
//! chunk of the same length; the groupby engine turns key columns into
//! row-index groups.

pub mod arithmetic;
pub mod array;
pub mod bitmap;
pub mod chunked_array;
pub mod datatypes;
pub mod error;
pub mod groupby;
pub mod native;
pub mod pool;
pub mod rolling;
pub mod series;
