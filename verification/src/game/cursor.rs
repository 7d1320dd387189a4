use vstd::prelude::*;

use crate::game::point::Point;

verus! {

/// A movable selection marker constrained to an exclusive `max_x` x `max_y`
/// rectangle.
pub struct Cursor {
    pub position: Point,
    pub max_y: usize,
    pub max_x: usize,
}

#[derive(PartialEq, Eq, Structural, Debug)]
pub enum CursorError {
    OutOfBounds,
}

impl Cursor {
    pub fn new(x: usize, y: usize, max_x: usize, max_y: usize) -> (c: Cursor)
        ensures
            c.position == (Point { x, y }),
            c.max_x == max_x,
            c.max_y == max_y,
    {
        Self { position: Point::new(x, y), max_x, max_y }
    }

    /// Moves the cursor by the signed offset `(dx, dy)`.
    ///
    /// The move succeeds exactly when the target position stays inside the
    /// bounds (and is not negative); a rejected move leaves the cursor
    /// where it was.
    pub fn move_by(&mut self, dx: isize, dy: isize) -> (r: Result<(), CursorError>)
        ensures
            ({
                let nx = old(self).position.x + dx;
                let ny = old(self).position.y + dy;
                if 0 <= nx < old(self).max_x && 0 <= ny < old(self).max_y {
                    r is Ok && final(self).position == (Point { x: nx as usize, y: ny as usize })
                } else {
                    r is Err && final(self).position == old(self).position
                }
            }),
            final(self).max_x == old(self).max_x,
            final(self).max_y == old(self).max_y,
    {
        let pos = self.position;
        let (x, y) = (pos.x, pos.y);

        let new_x = add_signed(x, dx);
        let new_y = add_signed(y, dy);
        let (Some(new_x), Some(new_y)) = (new_x, new_y) else {
            return Err(CursorError::OutOfBounds);
        };

        if new_x >= self.max_x || new_y >= self.max_y {
            return Err(CursorError::OutOfBounds);
        }

        self.position = Point::new(new_x, new_y);
        Ok(())
    }

    pub fn pos(&self) -> (p: Point)
        ensures
            p == self.position,
    {
        self.position
    }
}

/// `base + delta` if that value is representable as a `usize`, else `None`.
fn add_signed(base: usize, delta: isize) -> (r: Option<usize>)
    ensures
        ({
            let v = base + delta;
            if 0 <= v <= usize::MAX {
                r == Some(v as usize)
            } else {
                r is None
            }
        }),
{
    if delta >= 0 {
        let d = delta as usize;
        if base <= usize::MAX - d {
            Some(base + d)
        } else {
            None
        }
    } else {
        // magnitude of a negative `isize`, computed without overflowing
        let m = ((-(delta + 1)) as usize) + 1;
        if base >= m {
            Some(base - m)
        } else {
            None
        }
    }
}

} // verus!
