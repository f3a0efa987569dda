//! Grouping of rows by key.
//!
//! A grouping of a key column names, for every distinct key, the rows that
//! hold it. It is found by hashing, where the rows of a group may lie
//! anywhere, or read off the runs of equal keys where the column is sorted.

pub mod proxy;
pub mod random_state;
pub mod sorted;
pub mod grouping;
pub mod hashing;
pub mod into_groups;
