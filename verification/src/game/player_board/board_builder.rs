use vstd::prelude::*;

use crate::game::cursor::Cursor;
use crate::game::player_board::{
    grid_wf, placement_check, BoardError, PlayerBoard, HEIGHT, WIDTH,
};
use crate::game::point::Point;
use crate::game::rotation::Rotation;
use crate::game::ship::{rotated_parts, ShipBlueprint};

verus! {

/// Interactive placement state for one ship: a cursor for the anchor and
/// the rotation cycled so far, over a borrowed board and blueprint.  The
/// key decoding and the rendering live with the front end; this type
/// holds the decisions.
pub struct BoardBuilder<'a> {
    pub cursor: Cursor,
    pub rotation: Rotation,
    pub current_ship: &'a ShipBlueprint,
    pub board: &'a PlayerBoard,
}

impl<'a> BoardBuilder<'a> {
    pub fn new(board: &'a PlayerBoard, ship: &'a ShipBlueprint) -> (b: Self)
        ensures
            b.board == board,
            b.current_ship == ship,
            b.cursor.position == (Point { x: 0, y: 0 }),
            b.cursor.max_x == WIDTH,
            b.cursor.max_y == HEIGHT,
            b.rotation is Horizontal,
    {
        Self {
            board,
            cursor: Cursor::new(0, 0, WIDTH, HEIGHT),
            current_ship: ship,
            rotation: Rotation::Horizontal,
        }
    }

    /// Moves the anchor cursor, ignoring a move that would leave the
    /// board.
    pub fn move_cursor(&mut self, dx: isize, dy: isize)
        ensures
            final(self).board == old(self).board,
            final(self).current_ship == old(self).current_ship,
            final(self).rotation == old(self).rotation,
            ({
                let nx = old(self).cursor.position.x + dx;
                let ny = old(self).cursor.position.y + dy;
                if 0 <= nx < old(self).cursor.max_x && 0 <= ny < old(self).cursor.max_y {
                    final(self).cursor.position == (Point { x: nx as usize, y: ny as usize })
                } else {
                    final(self).cursor.position == old(self).cursor.position
                }
            }),
            final(self).cursor.max_x == old(self).cursor.max_x,
            final(self).cursor.max_y == old(self).cursor.max_y,
    {
        let _ = self.cursor.move_by(dx, dy);
    }

    /// Cycles the pending rotation to its successor.
    pub fn rotate_ship(&mut self)
        ensures
            final(self).board == old(self).board,
            final(self).current_ship == old(self).current_ship,
            final(self).cursor == old(self).cursor,
            final(self).rotation == old(self).rotation.next_spec(),
    {
        self.rotation = self.rotation.next();
    }

    /// Validates the pending placement; on success hands back the chosen
    /// anchor and rotation for the caller to commit.
    pub fn place_ship(&self) -> (r: Result<Option<(Point, Rotation)>, BoardError>)
        requires
            grid_wf(self.board@.grid),
        ensures
            r == match placement_check(
                self.board@.grid,
                rotated_parts(self.current_ship.parts@, self.rotation),
                self.cursor.position,
            ) {
                Ok(()) => Ok::<Option<(Point, Rotation)>, BoardError>(
                    Some((self.cursor.position, self.rotation)),
                ),
                Err(e) => Err::<Option<(Point, Rotation)>, BoardError>(e),
            },
    {
        if let Err(err) = self.board.can_place_ship(
            self.current_ship,
            self.cursor.pos(),
            self.rotation,
        ) {
            Err(err)
        } else {
            Ok(Some((self.cursor.pos(), self.rotation)))
        }
    }
}

} // verus!
