//! Common types shared across the library.
pub mod types;
