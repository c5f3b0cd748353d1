//! Camera controller types.
use vstd::prelude::*;

verus! {

/// Types of camera controllers.
#[derive(Copy, Clone, PartialEq, Eq, Structural, Debug)]
pub enum ControlType {
    Arcball,
}

impl Default for ControlType {
    /// The arcball controller.
    fn default() -> (r: Self)
        ensures
            r == ControlType::Arcball,
    {
        ControlType::Arcball
    }
}

} // verus!
