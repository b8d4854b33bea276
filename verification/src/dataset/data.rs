//! The dataset the evaluator consumes: named feature columns and one
//! target column, generic over the scalar type.
use vstd::prelude::*;
use std::collections::HashMap;

use crate::operators::functions::Float;

verus! {

/// Free-form metadata records attached to a dataset.
pub type Metadata = HashMap<String, String>;

/// Dataset with named feature columns and one target column.
pub struct Dataset<T> {
    metadata: Option<Metadata>,
    feature_names: Vec<String>,
    target_name: String,
    features: Vec<Vec<T>>,
    targets: Vec<T>,
}

impl<T: Float> Dataset<T> {
    /// The feature columns.
    pub closed spec fn features_view(&self) -> Seq<Seq<T>> {
        self.features@.map_values(|c: Vec<T>| c@)
    }

    /// The target column.
    pub closed spec fn targets_view(&self) -> Seq<T> {
        self.targets@
    }

    /// The dataset's invariant: every feature column holds exactly one
    /// value per sample of the target column.
    pub open spec fn wf(&self) -> bool {
        forall|j: int|
            0 <= j < self.features_view().len() ==> (#[trigger] self.features_view()[j]).len()
                == self.targets_view().len()
    }

    /// Creates a dataset from its parts.
    pub fn new(
        metadata: Option<Metadata>,
        feature_names: Vec<String>,
        target_name: String,
        features: Vec<Vec<T>>,
        targets: Vec<T>,
    ) -> (r: Self)
        ensures
            r.features_view() == features@.map_values(|c: Vec<T>| c@),
            r.targets_view() == targets@,
    {
        Self { metadata, feature_names, target_name, features, targets }
    }

    pub fn metadata(&self) -> &Option<Metadata> {
        &self.metadata
    }

    pub fn feature_names(&self) -> &Vec<String> {
        &self.feature_names
    }

    pub fn target_name(&self) -> &String {
        &self.target_name
    }

    pub fn features(&self) -> (r: &Vec<Vec<T>>)
        ensures
            r@.map_values(|c: Vec<T>| c@) == self.features_view(),
    {
        &self.features
    }

    pub fn targets(&self) -> (r: &Vec<T>)
        ensures
            r@ == self.targets_view(),
    {
        &self.targets
    }

    /// The feature names and the target name.
    pub fn names(&self) -> (&Vec<String>, &String) {
        (&self.feature_names, &self.target_name)
    }

    /// The feature columns and the target column.
    pub fn data(&self) -> (r: (&Vec<Vec<T>>, &Vec<T>))
        ensures
            r.0@.map_values(|c: Vec<T>| c@) == self.features_view(),
            r.1@ == self.targets_view(),
    {
        (&self.features, &self.targets)
    }
}

} // verus!
