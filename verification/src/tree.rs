//! Tree-based genetic programming: the arena-encoded genotype, its encoding
//! model, generators, variation operators, selection and fitness evaluation.
pub mod crossover;
pub mod encoding;
pub mod errors;
pub mod evaluate;
pub mod genotype;
pub mod individual;
pub mod init;
pub mod laws;
pub mod mutation;
pub mod select;
