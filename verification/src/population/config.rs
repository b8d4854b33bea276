//! Size configuration for populations.
use vstd::prelude::*;

verus! {

/// What can go wrong when a population is grown.
#[derive(Debug, PartialEq, Eq, Structural)]
pub enum PopulationError {
    /// The population already holds its configured maximum.
    PopulationFull(usize),
}

/// Size bounds a population is kept within.
pub struct PopulationConfig {
    min_size: usize,
    max_size: usize,
    target_size: usize,
}

impl PopulationConfig {
    pub closed spec fn min_spec(&self) -> usize {
        self.min_size
    }

    pub closed spec fn max_spec(&self) -> usize {
        self.max_size
    }

    pub closed spec fn target_spec(&self) -> usize {
        self.target_size
    }

    pub fn new(min_size: usize, max_size: usize, target_size: usize) -> (r: Self)
        ensures
            r.min_spec() == min_size,
            r.max_spec() == max_size,
            r.target_spec() == target_size,
    {
        Self { min_size, max_size, target_size }
    }

    pub fn min_size(&self) -> (r: usize)
        ensures
            r == self.min_spec(),
    {
        self.min_size
    }

    pub fn max_size(&self) -> (r: usize)
        ensures
            r == self.max_spec(),
    {
        self.max_size
    }

    pub fn target_size(&self) -> (r: usize)
        ensures
            r == self.target_spec(),
    {
        self.target_size
    }
}

impl Default for PopulationConfig {
    /// No lower bound, room for a thousand, aiming at a hundred.
    fn default() -> (r: Self)
        ensures
            r.min_spec() == 0,
            r.max_spec() == 1000,
            r.target_spec() == 100,
    {
        Self::new(0, 1000, 100)
    }
}

} // verus!
