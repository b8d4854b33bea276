//! Initialization of linear genotypes.
use vstd::prelude::*;

use crate::rng::rand_value;

verus! {

/// Uniform initializer for linear structures of a fixed size.
pub struct InitUniform<T> {
    size: usize,
    _marker: core::marker::PhantomData<T>,
}

impl<T> InitUniform<T> {
    pub closed spec fn size_spec(&self) -> usize {
        self.size
    }

    pub fn new(size: usize) -> (r: Self)
        ensures
            r.size_spec() == size,
    {
        InitUniform { size, _marker: core::marker::PhantomData }
    }

    /// Draws `size` independent values from the standard distribution.
    pub fn initialize<R: rand::Rng>(&self, rng: &mut R) -> (r: Vec<T>) where
        rand::distributions::Standard: rand::distributions::Distribution<T>,

        ensures
            r@.len() == self.size_spec(),
    {
        let mut seq: Vec<T> = Vec::new();
        let mut i: usize = 0;
        while i < self.size
            invariant
                i <= self.size_spec(),
                seq@.len() == i,
            decreases self.size_spec() - i,
        {
            seq.push(rand_value(rng));
            i = i + 1;
        }
        seq
    }
}

} // verus!
