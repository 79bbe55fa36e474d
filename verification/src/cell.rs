use vstd::prelude::*;

verus! {

/// The state of one grid square: empty, or painted with one of three colors.
#[derive(Clone, Copy, Debug, PartialEq, Eq, Structural)]
pub enum Cell {
    Off,
    Color1,
    Color2,
    Color3,
}

impl Cell {
    /// Whether the square is painted.
    pub open spec fn occupied(self) -> bool {
        self != Cell::Off
    }
}

} // verus!
