use vstd::prelude::*;

verus! {

/// Orientation of a ship shape: no rotation, or a quarter, half or
/// three-quarter turn (90, 180 or 270 degrees counted clockwise on the
/// grid's coordinate system).
#[derive(Clone, Copy, PartialEq, Eq, Structural, Debug)]
pub enum Rotation {
    Zero,
    Horizontal,
    Vertical,
    VerticalAndHorizontal,
}

impl Rotation {
    /// The cyclic successor: Zero -> Vertical -> Horizontal ->
    /// VerticalAndHorizontal -> Zero.  Note that this cycle, used by the
    /// interactive placement UI, is not the order of the angles.
    pub open spec fn next_spec(self) -> Rotation {
        match self {
            Rotation::Zero => Rotation::Vertical,
            Rotation::Vertical => Rotation::Horizontal,
            Rotation::Horizontal => Rotation::VerticalAndHorizontal,
            Rotation::VerticalAndHorizontal => Rotation::Zero,
        }
    }

    /// Cycles to the successor rotation.
    pub fn next(self) -> (r: Rotation)
        ensures
            r == self.next_spec(),
    {
        match self {
            Self::Zero => Self::Vertical,
            Self::Vertical => Self::Horizontal,
            Self::Horizontal => Self::VerticalAndHorizontal,
            Self::VerticalAndHorizontal => Self::Zero,
        }
    }
}

} // verus!
