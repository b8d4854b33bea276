//! Population configuration and its errors.
pub mod config;
