//! Camera projection types and their settings.
use vstd::prelude::*;

verus! {

/// Camera projection types.
#[derive(Copy, Clone, PartialEq, Eq, Structural, Debug)]
pub enum ProjectionType {
    Perspective,
    Orthographic,
}

impl Default for ProjectionType {
    /// The perspective projection.
    fn default() -> (r: Self)
        ensures
            r == ProjectionType::Perspective,
    {
        ProjectionType::Perspective
    }
}

/// Orthographic projection settings; there are none.
#[derive(Copy, Clone, PartialEq, Eq, Structural, Debug)]
pub struct OrthographicSettings {}

impl Default for OrthographicSettings {
    /// The orthographic projection settings.
    fn default() -> (r: Self)
        ensures
            r == (OrthographicSettings {}),
    {
        OrthographicSettings {}
    }
}

} // verus!
