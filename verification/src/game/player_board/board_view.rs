use vstd::prelude::*;

use crate::game::cursor::Cursor;
use crate::game::player_board::{BoardError, ShotError};
use crate::game::point::Point;
use crate::game::tile::Tile;

verus! {

/// Read-only presentation state for one grid: the borrowed grid, an
/// optional selection cursor and a title.  The key decoding and the
/// rendering live with the front end; this type holds the selection
/// decisions.
pub struct BoardView<'a> {
    pub grid: &'a Vec<Vec<Tile>>,
    pub cursor: Option<Cursor>,
    pub title: &'a str,
}

impl<'a> BoardView<'a> {
    pub fn new(grid: &'a Vec<Vec<Tile>>, cursor: Option<Cursor>, title: &'a str) -> (b: Self)
        ensures
            b.grid == grid,
            b.cursor == cursor,
            b.title == title,
    {
        Self { grid, cursor, title }
    }

    /// Moves the selection cursor, if there is one, ignoring a move that
    /// would leave its bounds.
    pub fn move_cursor(&mut self, dx: isize, dy: isize)
        ensures
            final(self).grid == old(self).grid,
            final(self).title == old(self).title,
            old(self).cursor is None ==> final(self).cursor == old(self).cursor,
            (match old(self).cursor {
                Some(c) => {
                    let nx = c.position.x + dx;
                    let ny = c.position.y + dy;
                    final(self).cursor matches Some(c1) && c1.max_x == c.max_x && c1.max_y
                        == c.max_y && if 0 <= nx < c.max_x && 0 <= ny < c.max_y {
                        c1.position == (Point { x: nx as usize, y: ny as usize })
                    } else {
                        c1.position == c.position
                    }
                },
                None => true,
            }),
    {
        match &mut self.cursor {
            Some(cursor) => {
                let _ = cursor.move_by(dx, dy);
            },
            None => {},
        }
    }

    /// The coordinate under the cursor, if this view carries one.
    pub fn select(&self) -> (r: Result<Option<Point>, BoardError>)
        ensures
            r == match self.cursor {
                Some(c) => Ok::<Option<Point>, BoardError>(Some(c.position)),
                None => Err::<Option<Point>, BoardError>(
                    BoardError::Shot(ShotError::AlreadyShot),
                ),
            },
    {
        match &self.cursor {
            Some(cursor) => Ok(Some(cursor.pos())),
            None => Err(BoardError::Shot(ShotError::AlreadyShot)),
        }
    }
}

} // verus!
