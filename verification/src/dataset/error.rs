//! Error taxonomy of dataset handling, from file validation to parsing.
use vstd::prelude::*;

verus! {

/// What can go wrong while a dataset is read or validated.
#[derive(Debug)]
pub enum DatasetError {
    /// The given path names no file.
    FileNotFound(String),
    /// The file's format is not the expected one.
    InvalidFormat(String),
    /// A required column is missing.
    MissingColumn(String),
    /// A value could not be parsed as a number.
    ParseError(String),
    /// The dataset holds no data.
    EmptyDataset,
    /// The number of columns differs from the expected one.
    DimensionMismatch { expected: usize, found: usize },
    /// An input or output operation failed; the payload carries its text.
    IoError(String),
}

} // verus!
