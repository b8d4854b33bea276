//! Operator catalogs for genetic programming: weighted sampling, the
//! symbolic primitives, operator sets and their validating builder.
pub mod builder;
pub mod functions;
pub mod sampler;
pub mod set;
