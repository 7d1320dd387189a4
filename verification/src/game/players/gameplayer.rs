use vstd::prelude::*;

use crate::game::player_board::{BoardError, ShotResult};
use crate::game::point::Point;
use crate::game::ship::ShipBlueprint;
use crate::game::Setup;

verus! {

/// A capability to act as one side of a match: choose the next target,
/// take incoming shots on its own board, record the results of its own
/// shots, and report when its fleet is destroyed.
///
/// The machine player of this crate implements it; interactive front ends
/// implement it over their input devices.  Nothing is promised of these
/// methods: the turn logic re-validates every chosen coordinate.
pub trait GamePlayer: Setup<Vec<ShipBlueprint>> {
    fn choose_point(&mut self) -> Point;

    fn is_game_over(&self) -> bool;

    fn process_shot(&mut self, p: Point) -> Result<ShotResult, BoardError>;

    fn update_view_board(&mut self, shot: ShotResult, p: Point) -> Result<(), BoardError>;

    fn get_name(&self) -> &String;
}

} // verus!
