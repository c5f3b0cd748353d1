//! The kinds of camera movement and projection that a camera can be set to.
use vstd::prelude::*;

pub mod controller;
pub mod projection;

verus! {

/// Settings of the fly camera movement; it has none.
#[derive(Copy, Clone, Debug)]
pub struct Fly {}

impl Default for Fly {
    /// The fly camera movement settings.
    fn default() -> (r: Self) {
        Fly {}
    }
}

/// How a camera moves.
#[derive(Copy, Clone, PartialEq, Eq, Structural, PartialOrd, Ord, Debug)]
pub enum MovementType {
    Arcball,
    Fly,
}

/// Settings of the orthographic projection; it has none.
#[derive(Copy, Clone, Debug)]
pub struct Orthographic {}

impl Default for Orthographic {
    /// The orthographic projection settings.
    fn default() -> (r: Self) {
        Orthographic {}
    }
}

/// How a camera projects.
#[derive(Copy, Clone, PartialEq, Eq, Structural, PartialOrd, Ord, Debug)]
pub enum ProjectionType {
    Perspective,
    Orthographic,
}

} // verus!
