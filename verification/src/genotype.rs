//! Generic genotypes: a depth- and arity-tagged tree over arbitrary node
//! values, a linear initializer, and elementary mutation operators.
pub mod genotype;
pub mod init;
pub mod mutation;
