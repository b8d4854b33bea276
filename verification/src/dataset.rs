//! Dataset structures and related error types. Loading from files is an
//! external concern; the library consumes ready feature and target vectors.
pub mod data;
pub mod error;
pub mod logger;
