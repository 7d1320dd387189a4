use vstd::prelude::*;

verus! {

/// State of one grid cell.
///
/// A fleet board uses `Ship(id)`, `SunkenShip`, `Hit`, `Miss` and `Empty`;
/// a fog-of-war view board uses `Hidden`, `Hit`, `Miss` and `SunkenShip`
/// and never reveals whether an unshot cell is empty or occupied.
#[derive(Clone, Copy, PartialEq, Eq, Structural, Debug)]
pub enum Tile {
    Ship(u8),
    SunkenShip,
    Hit,
    Miss,
    Empty,
    Hidden,
}

impl Tile {
    /// True for the cell states a shot leaves behind: a cell in one of
    /// these states must not be shot again.
    pub open spec fn is_shot_mark(self) -> bool {
        self is SunkenShip || self is Hit || self is Miss
    }
}

} // verus!
