//! The dimensions of the grid world.

use vstd::prelude::*;

verus! {

/// The extent of the world: `width` cells along x and `height` cells along y.
#[derive(Clone, Copy, Debug, PartialEq, Eq, Structural)]
pub struct World {
    pub width: i32,
    pub height: i32,
}

impl World {
    /// A world has cells only if both of its sides are positive.
    pub open spec fn wf(&self) -> bool {
        self.width > 0 && self.height > 0
    }
}

impl Default for World {
    fn default() -> (w: World)
        ensures
            w.width == 0,
            w.height == 0,
    {
        World { width: 0, height: 0 }
    }
}

} // verus!
