pub mod board_builder;
pub mod board_view;

use vstd::prelude::*;

use crate::game::point::Point;
use crate::game::rotation::Rotation;
use crate::game::ship::{rotated_parts, Ship, ShipBlueprint, ShipModel};
use crate::game::tile::Tile;

verus! {

#[derive(Debug, PartialEq, Eq, Structural)]
pub enum BoardError {
    ShipPlacementError(PlacementError),
    ShotRegisterError,
    Shot(ShotError),
}

#[derive(Debug, PartialEq, Eq, Structural)]
pub enum ShotError {
    AlreadyShot,
    HiddenDoesntExistOnPlayerBoards,
    OutOfBounds,
    ShotExit,
}

#[derive(Debug, PartialEq, Eq, Structural)]
pub enum PlacementError {
    ShipOverlap,
    OutOfBounds,
    PlacementExit,
}

pub const WIDTH: usize = 10;

pub const HEIGHT: usize = 10;

/// Outcome of a successful shot.  `ShipSunk` carries every cell of the
/// ship that the shot sank, so that a fog-of-war view can reveal the whole
/// shape at once.
#[derive(Debug)]
pub enum ShotResult {
    Hit,
    Miss,
    ShipSunk(Vec<Point>),
}

/// Mathematical image of a [`ShotResult`].
pub enum ShotView {
    Hit,
    Miss,
    ShipSunk(Seq<Point>),
}

impl View for ShotResult {
    type V = ShotView;

    open spec fn view(&self) -> ShotView {
        match self {
            ShotResult::Hit => ShotView::Hit,
            ShotResult::Miss => ShotView::Miss,
            ShotResult::ShipSunk(cells) => ShotView::ShipSunk(cells@),
        }
    }
}

/// True when every cell a `ShipSunk` outcome carries lies on the board.
pub open spec fn sunk_cells_in_bounds(s: ShotView) -> bool {
    match s {
        ShotView::ShipSunk(cells) => forall|i: int|
            0 <= i < cells.len() ==> in_bounds(#[trigger] cells[i]),
        _ => true,
    }
}

/// The view of a shot's `Result`, errors carried over unchanged.
pub open spec fn shot_result_view(r: Result<ShotResult, BoardError>) -> Result<
    ShotView,
    BoardError,
> {
    match r {
        Ok(s) => Ok(s@),
        Err(e) => Err(e),
    }
}

// ---------------------------------------------------------------------------
// Grids
// ---------------------------------------------------------------------------

/// True when the point lies on the board.
pub open spec fn in_bounds(p: Point) -> bool {
    p.x < WIDTH && p.y < HEIGHT
}

/// A well-formed grid: HEIGHT rows of WIDTH cells.
pub open spec fn grid_wf(g: Seq<Seq<Tile>>) -> bool {
    g.len() == HEIGHT && forall|y: int| 0 <= y < g.len() ==> (#[trigger] g[y]).len() == WIDTH
}

/// The tile at an in-bounds point.
pub open spec fn cell(g: Seq<Seq<Tile>>, p: Point) -> Tile {
    g[p.y as int][p.x as int]
}

/// The grid with the single cell `p` set to `t`.
pub open spec fn grid_set(g: Seq<Seq<Tile>>, p: Point, t: Tile) -> Seq<Seq<Tile>> {
    g.update(p.y as int, g[p.y as int].update(p.x as int, t))
}

/// The grid with every listed cell set to `t` and all others unchanged.
pub open spec fn grid_mark(g: Seq<Seq<Tile>>, cells: Seq<Point>, t: Tile) -> Seq<Seq<Tile>> {
    Seq::new(
        g.len(),
        |y: int|
            Seq::new(
                g[y].len(),
                |x: int|
                    if cells.contains(Point { x: x as usize, y: y as usize }) {
                        t
                    } else {
                        g[y][x]
                    },
            ),
    )
}

/// A full grid of one tile.
pub open spec fn uniform_grid(t: Tile) -> Seq<Seq<Tile>> {
    Seq::new(HEIGHT as nat, |y: int| Seq::new(WIDTH as nat, |x: int| t))
}

/// The mathematical grid behind a vector of rows.
pub open spec fn grid_view(g: Seq<Vec<Tile>>) -> Seq<Seq<Tile>> {
    Seq::new(g.len(), |y: int| g[y]@)
}

/// A freshly allocated grid of HEIGHT x WIDTH copies of `t`.
fn make_grid(t: Tile) -> (g: Vec<Vec<Tile>>)
    ensures
        grid_view(g@) == uniform_grid(t),
{
    let mut g: Vec<Vec<Tile>> = Vec::new();
    for y in 0..HEIGHT
        invariant
            g@.len() == y,
            forall|j: int| 0 <= j < y ==> (#[trigger] g@[j])@ == Seq::new(WIDTH as nat, |x: int| t),
    {
        let mut row: Vec<Tile> = Vec::new();
        for x in 0..WIDTH
            invariant
                row@.len() == x,
                forall|i: int| 0 <= i < x ==> row@[i] == t,
        {
            row.push(t);
        }
        proof {
            assert(row@ =~= Seq::new(WIDTH as nat, |x: int| t));
        }
        g.push(row);
    }
    proof {
        assert(grid_view(g@) =~= uniform_grid(t));
    }
    g
}

/// Writes `t` at the in-bounds point `p`.
fn set_cell(grid: &mut Vec<Vec<Tile>>, p: Point, t: Tile)
    requires
        grid_wf(grid_view(old(grid)@)),
        in_bounds(p),
    ensures
        grid_view(final(grid)@) == grid_set(grid_view(old(grid)@), p, t),
{
    proof {
        assert(grid_view(grid@)[p.y as int] == grid@[p.y as int]@);
    }
    let row = &mut grid[p.y];
    row.set(p.x, t);
    proof {
        assert(grid_view(final(grid)@) =~~= grid_set(grid_view(old(grid)@), p, t));
    }
}

// ---------------------------------------------------------------------------
// The fog-of-war view of the opponent's board
// ---------------------------------------------------------------------------

/// What one side knows of the other side's board: only the results of its
/// own shots; an unshot cell stays `Hidden`.
pub struct ViewBoard {
    grid: Vec<Vec<Tile>>,
}

impl View for ViewBoard {
    type V = Seq<Seq<Tile>>;

    closed spec fn view(&self) -> Seq<Seq<Tile>> {
        grid_view(self.grid@)
    }
}

impl ViewBoard {
    pub open spec fn wf(self) -> bool {
        grid_wf(self@)
    }

    pub fn new() -> (b: ViewBoard)
        ensures
            b.wf(),
            b@ == uniform_grid(Tile::Hidden),
    {
        Self { grid: make_grid(Tile::Hidden) }
    }

    pub fn get_grid(&self) -> (g: &Vec<Vec<Tile>>)
        ensures
            grid_view(g@) == self@,
    {
        &self.grid
    }

    /// Records the outcome of one shot at `p`.
    ///
    /// Fails exactly when `p` is out of bounds, leaving the view
    /// unchanged.  A `Hit` or `Miss` marks the single cell `p`; a
    /// `ShipSunk` marks every cell of the sunken ship (revealing its whole
    /// shape) whatever the single coordinate argument says.
    pub fn register_shot(&mut self, shot: ShotResult, p: Point) -> (r: Result<(), BoardError>)
        requires
            old(self).wf(),
            sunk_cells_in_bounds(shot@),
        ensures
            final(self).wf(),
            !in_bounds(p) ==> r == Err::<(), BoardError>(BoardError::ShotRegisterError)
                && final(self)@ == old(self)@,
            in_bounds(p) ==> r is Ok && final(self)@ == match shot@ {
                ShotView::Hit => grid_set(old(self)@, p, Tile::Hit),
                ShotView::Miss => grid_set(old(self)@, p, Tile::Miss),
                ShotView::ShipSunk(cells) => grid_mark(old(self)@, cells, Tile::SunkenShip),
            },
    {
        if p.x >= WIDTH || p.y >= HEIGHT {
            return Err(BoardError::ShotRegisterError);
        }
        match shot {
            ShotResult::Hit => set_cell(&mut self.grid, p, Tile::Hit),
            ShotResult::Miss => set_cell(&mut self.grid, p, Tile::Miss),
            ShotResult::ShipSunk(points) => {
                proof {
                    assert(sunk_cells_in_bounds(ShotView::ShipSunk(points@)));
                }
                mark_cells(&mut self.grid, &points, Tile::SunkenShip);
            },
        }
        Ok(())
    }
}

// ---------------------------------------------------------------------------
// The fleet board
// ---------------------------------------------------------------------------

/// Mathematical image of a [`PlayerBoard`].
pub struct BoardModel {
    pub grid: Seq<Seq<Tile>>,
    pub ships: Seq<ShipModel>,
}

/// The distinct cells of ship `s` that have been hit: those of its parts
/// that no longer show the ship's own tile.
pub open spec fn hit_cells(g: Seq<Seq<Tile>>, s: ShipModel) -> Set<Point> {
    s.parts.to_set().filter(|c: Point| cell(g, c) != Tile::Ship(s.id))
}

/// Part `k` of ship `i` lies on the board and its cell shows the ship
/// itself, a hit on it, or the sunken ship.
pub open spec fn ship_cell_ok(b: BoardModel, i: int, k: int) -> bool {
    let c = b.ships[i].parts[k];
    &&& in_bounds(c)
    &&& (cell(b.grid, c) == Tile::Ship(b.ships[i].id) || cell(b.grid, c) == Tile::Hit || cell(
        b.grid,
        c,
    ) == Tile::SunkenShip)
}

/// The cell at `(x, y)` is never `Hidden`, and an occupied cell points
/// back at a registered ship that occupies it.
pub open spec fn grid_cell_ok(b: BoardModel, x: int, y: int) -> bool {
    let t = b.grid[y][x];
    &&& t != Tile::Hidden
    &&& (t matches Tile::Ship(id) ==> id < b.ships.len() && b.ships[id as int].parts.contains(
        Point { x: x as usize, y: y as usize },
    ))
}

/// Ship `i`'s alive count plus the number of its distinct hit cells is
/// exactly its number of parts.
pub open spec fn ship_alive_ok(b: BoardModel, i: int) -> bool {
    b.ships[i].parts_alive + hit_cells(b.grid, b.ships[i]).len() == b.ships[i].parts.len()
}

/// The well-formedness invariant of a fleet board: a 10x10 grid whose
/// occupied cells and registered ships agree, with no two ships sharing a
/// cell and every alive count matching the grid.
pub open spec fn board_wf(b: BoardModel) -> bool {
    &&& grid_wf(b.grid)
    &&& b.ships.len() <= 255
    &&& forall|i: int| 0 <= i < b.ships.len() ==> (#[trigger] b.ships[i]).id == i as u8
    &&& forall|i: int, k: int|
        0 <= i < b.ships.len() && 0 <= k < b.ships[i].parts.len() ==> #[trigger] ship_cell_ok(
            b,
            i,
            k,
        )
    &&& forall|i: int, j: int, c: Point|
        0 <= i < b.ships.len() && 0 <= j < b.ships.len() && i != j && #[trigger] b.ships[i].parts.contains(c)
            ==> !(#[trigger] b.ships[j].parts.contains(c))
    &&& forall|x: int, y: int|
        0 <= x < WIDTH && 0 <= y < HEIGHT ==> #[trigger] grid_cell_ok(b, x, y)
    &&& forall|i: int| 0 <= i < b.ships.len() ==> #[trigger] ship_alive_ok(b, i)
}

/// The cell for offset `c` anchored at `pos` lies on the board and is
/// empty.
pub open spec fn placed_cell_free(g: Seq<Seq<Tile>>, c: Point, pos: Point) -> bool {
    &&& c.x + pos.x < WIDTH
    &&& c.y + pos.y < HEIGHT
    &&& g[c.y + pos.y][c.x + pos.x] == Tile::Empty
}

/// The result of validating a placement of `cells` anchored at `pos`,
/// scanning the cells in order: the first cell off the board reports
/// `OutOfBounds`, the first one on a non-empty cell reports `ShipOverlap`.
pub open spec fn placement_check(g: Seq<Seq<Tile>>, cells: Seq<Point>, pos: Point) -> Result<
    (),
    BoardError,
>
    decreases cells.len(),
{
    if cells.len() == 0 {
        Ok(())
    } else if cells[0].x + pos.x >= WIDTH || cells[0].y + pos.y >= HEIGHT {
        Err(BoardError::ShipPlacementError(PlacementError::OutOfBounds))
    } else if g[cells[0].y + pos.y][cells[0].x + pos.x] != Tile::Empty {
        Err(BoardError::ShipPlacementError(PlacementError::ShipOverlap))
    } else {
        placement_check(g, cells.drop_first(), pos)
    }
}

/// Law: the placement of `cells` at `pos` validates exactly when every
/// cell, anchored at `pos`, lies on the board and is empty.
pub proof fn lemma_placement_check_ok(g: Seq<Seq<Tile>>, cells: Seq<Point>, pos: Point)
    ensures
        (placement_check(g, cells, pos) is Ok) <==> (forall|i: int|
            0 <= i < cells.len() ==> #[trigger] placed_cell_free(g, cells[i], pos)),
    decreases cells.len(),
{
    if cells.len() > 0 {
        lemma_placement_check_ok(g, cells.drop_first(), pos);
        if placed_cell_free(g, cells[0], pos) {
            assert forall|i: int|
                (forall|k: int|
                    0 <= k < cells.drop_first().len() ==> #[trigger] placed_cell_free(
                        g,
                        cells.drop_first()[k],
                        pos,
                    )) && 0 <= i < cells.len() implies #[trigger] placed_cell_free(
                g,
                cells[i],
                pos,
            ) by {
                if i > 0 {
                    assert(cells.drop_first()[i - 1] == cells[i]);
                }
            }
            assert forall|k: int|
                (forall|i: int| 0 <= i < cells.len() ==> #[trigger] placed_cell_free(
                    g,
                    cells[i],
                    pos,
                )) && 0 <= k < cells.drop_first().len() implies #[trigger] placed_cell_free(
                g,
                cells.drop_first()[k],
                pos,
            ) by {
                assert(cells.drop_first()[k] == cells[k + 1]);
            }
        }
    }
}

/// The cells of `cells` each offset by the anchor `pos`.
pub open spec fn offset_cells(cells: Seq<Point>, pos: Point) -> Seq<Point> {
    Seq::new(
        cells.len(),
        |i: int|
            Point { x: (cells[i].x + pos.x) as usize, y: (cells[i].y + pos.y) as usize },
    )
}

/// Board `b1` is `b0` with exactly one ship added: the footprint `parts`
/// anchored at the on-board anchor `pos`, which `b0` admitted.  The new
/// ship takes the next free id and every one of its cells is marked.
pub open spec fn placed_at(
    b0: BoardModel,
    b1: BoardModel,
    parts: Seq<Point>,
    name: Seq<char>,
    pos: Point,
) -> bool {
    &&& in_bounds(pos)
    &&& placement_check(b0.grid, parts, pos) is Ok
    &&& b1.ships == b0.ships.push(
        ShipModel {
            id: b0.ships.len() as u8,
            name: name,
            parts_alive: offset_cells(parts, pos).len(),
            parts: offset_cells(parts, pos),
        },
    )
    &&& b1.grid == grid_mark(b0.grid, offset_cells(parts, pos), Tile::Ship(b0.ships.len() as u8))
}

/// The outcome of shooting at `p`: out-of-bounds and repeated shots are
/// rejected, an empty cell is a miss, an occupied cell is a hit, and the
/// last alive cell of a ship sinks it, returning all its cells.
pub open spec fn shot_result(b: BoardModel, p: Point) -> Result<ShotView, BoardError> {
    if !in_bounds(p) {
        Err(BoardError::Shot(ShotError::OutOfBounds))
    } else {
        match cell(b.grid, p) {
            Tile::Ship(id) => if b.ships[id as int].parts_alive > 1 {
                Ok(ShotView::Hit)
            } else {
                Ok(ShotView::ShipSunk(b.ships[id as int].parts))
            },
            Tile::Empty => Ok(ShotView::Miss),
            Tile::Hidden => Err(BoardError::Shot(ShotError::HiddenDoesntExistOnPlayerBoards)),
            _ => Err(BoardError::Shot(ShotError::AlreadyShot)),
        }
    }
}

/// The board after shooting at `p`.  A rejected shot changes nothing; a
/// miss marks the one cell; a hit marks the one cell and decrements the
/// ship's alive count; the sinking hit marks every cell of the ship and
/// sets its alive count to zero.
pub open spec fn shot_next(b: BoardModel, p: Point) -> BoardModel {
    if shot_result(b, p) is Err {
        b
    } else {
        match cell(b.grid, p) {
            Tile::Empty => BoardModel { grid: grid_set(b.grid, p, Tile::Miss), ..b },
            Tile::Ship(id) => {
                let s = b.ships[id as int];
                if s.parts_alive > 1 {
                    BoardModel {
                        grid: grid_set(b.grid, p, Tile::Hit),
                        ships: b.ships.update(
                            id as int,
                            ShipModel { parts_alive: (s.parts_alive - 1) as nat, ..s },
                        ),
                    }
                } else {
                    BoardModel {
                        grid: grid_mark(b.grid, s.parts, Tile::SunkenShip),
                        ships: b.ships.update(id as int, ShipModel { parts_alive: 0, ..s }),
                    }
                }
            },
            _ => b,
        }
    }
}

/// All of a board's ships are fully destroyed.
pub open spec fn all_ships_sunk(b: BoardModel) -> bool {
    forall|i: int| 0 <= i < b.ships.len() ==> (#[trigger] b.ships[i]).parts_alive == 0
}

/// A side's own board: the full grid of cell states and the ships placed
/// on it, keyed by their ids.  Ship `i` in the list has id `i`.
pub struct PlayerBoard {
    grid: Vec<Vec<Tile>>,
    ships: Vec<Ship>,
}

impl View for PlayerBoard {
    type V = BoardModel;

    closed spec fn view(&self) -> BoardModel {
        BoardModel {
            grid: grid_view(self.grid@),
            ships: Seq::new(self.ships@.len(), |i: int| self.ships@[i]@),
        }
    }
}

impl PlayerBoard {
    pub open spec fn wf(self) -> bool {
        board_wf(self@)
    }

    pub fn new() -> (b: PlayerBoard)
        ensures
            b.wf(),
            b@.grid == uniform_grid(Tile::Empty),
            b@.ships.len() == 0,
    {
        let b = Self { grid: make_grid(Tile::Empty), ships: Vec::new() };
        proof {
            assert forall|x: int, y: int|
                0 <= x < WIDTH && 0 <= y < HEIGHT implies #[trigger] grid_cell_ok(b@, x, y) by {
                assert(b@.grid[y][x] == Tile::Empty);
            }
        }
        b
    }

    pub fn get_grid(&self) -> (g: &Vec<Vec<Tile>>)
        ensures
            grid_view(g@) == self@.grid,
    {
        &self.grid
    }

    /// True when `p` lies on the board.
    pub fn is_point_valid(p: Point) -> (r: bool)
        ensures
            r == in_bounds(p),
    {
        p.x < WIDTH && p.y < HEIGHT
    }

    /// Validates placing `blueprint`, rotated by `rotation`, with its
    /// normalized offsets anchored at `pos`.  Pure: the board is left
    /// untouched, and the result is a function of the board's contents and
    /// the arguments alone.
    pub fn can_place_ship(&self, blueprint: &ShipBlueprint, pos: Point, rotation: Rotation) -> (r:
        Result<(), BoardError>)
        requires
            grid_wf(self@.grid),
        ensures
            r == placement_check(self@.grid, rotated_parts(blueprint.parts@, rotation), pos),
    {
        let cells = blueprint.rotate(rotation);
        let ghost g = self@.grid;
        proof {
            assert(cells@.skip(0) =~= cells@);
        }
        for i in 0..cells.len()
            invariant
                grid_wf(g),
                g == self@.grid,
                cells@ == rotated_parts(blueprint.parts@, rotation),
                placement_check(g, cells@, pos) == placement_check(g, cells@.skip(i as int), pos),
        {
            let c = cells[i];
            proof {
                assert(cells@.skip(i as int)[0] == cells@[i as int]);
            }
            if pos.x >= WIDTH || c.x >= WIDTH - pos.x || pos.y >= HEIGHT || c.y >= HEIGHT - pos.y {
                return Err(BoardError::ShipPlacementError(PlacementError::OutOfBounds));
            }
            proof {
                assert(grid_view(self.grid@)[c.y + pos.y] == self.grid@[c.y + pos.y]@);
            }
            if self.grid[c.y + pos.y][c.x + pos.x] != Tile::Empty {
                return Err(BoardError::ShipPlacementError(PlacementError::ShipOverlap));
            }
            proof {
                assert(cells@.skip(i as int).drop_first() =~= cells@.skip(i as int + 1));
            }
        }
        proof {
            assert(cells@.skip(cells@.len() as int) =~= Seq::<Point>::empty());
        }
        Ok(())
    }
    /// Places `blueprint`, rotated by `rotation`, at anchor `pos`.
    ///
    /// Re-validates exactly as `can_place_ship` does; on failure the same
    /// error is returned and the board is left unchanged (the operation is
    /// atomic).  On success the new ship receives the next free id — the
    /// number of ships already placed — every one of its absolute cells is
    /// marked occupied on the grid, the ship is registered with all cells
    /// alive, and the rest of the board is untouched.
    pub fn place_ship(&mut self, blueprint: &ShipBlueprint, pos: Point, rotation: Rotation) -> (r:
        Result<u8, BoardError>)
        requires
            old(self).wf(),
            old(self)@.ships.len() < 255,
        ensures
            final(self).wf(),
            final(self)@.ships.len() <= old(self)@.ships.len() + 1,
            ({
                let cells = rotated_parts(blueprint.parts@, rotation);
                let abs = offset_cells(cells, pos);
                let id = old(self)@.ships.len();
                match placement_check(old(self)@.grid, cells, pos) {
                    Err(e) => r == Err::<u8, BoardError>(e) && final(self)@ == old(self)@,
                    Ok(()) => {
                        &&& r == Ok::<u8, BoardError>(id as u8)
                        &&& final(self)@.ships == old(self)@.ships.push(
                            ShipModel {
                                id: id as u8,
                                name: blueprint.name@,
                                parts_alive: abs.len(),
                                parts: abs,
                            },
                        )
                        &&& final(self)@.grid == grid_mark(
                            old(self)@.grid,
                            abs,
                            Tile::Ship(id as u8),
                        )
                    },
                }
            }),
    {
        match self.can_place_ship(blueprint, pos, rotation) {
            Err(e) => {
                return Err(e);
            },
            Ok(()) => {},
        }
        let ghost b0 = self@;
        let ghost cells_s = rotated_parts(blueprint.parts@, rotation);
        let ghost abs = offset_cells(cells_s, pos);
        proof {
            lemma_placement_check_ok(b0.grid, cells_s, pos);
        }
        let cells = blueprint.rotate(rotation);
        let mut points: Vec<Point> = Vec::new();
        for i in 0..cells.len()
            invariant
                cells@ == cells_s,
                abs == offset_cells(cells_s, pos),
                forall|j: int|
                    0 <= j < cells_s.len() ==> #[trigger] placed_cell_free(b0.grid, cells_s[j], pos),
                points@.len() == i,
                forall|j: int| 0 <= j < i ==> points@[j] == abs[j],
        {
            let c = cells[i];
            proof {
                assert(placed_cell_free(b0.grid, cells_s[i as int], pos));
            }
            points.push(Point::new(c.x + pos.x, c.y + pos.y));
        }
        proof {
            assert(points@ =~= abs);
            lemma_validated_cells(b0.grid, cells_s, pos);
        }
        let id = self.ships.len() as u8;
        mark_cells(&mut self.grid, &points, Tile::Ship(id));
        let ship = Ship::new(points, blueprint.name.clone(), id);
        self.ships.push(ship);
        proof {
            assert(self@.ships =~= b0.ships.push(
                ShipModel {
                    id: b0.ships.len() as u8,
                    name: blueprint.name@,
                    parts_alive: abs.len(),
                    parts: abs,
                },
            ));
            lemma_place_preserves_wf(b0, self@, blueprint.name@, abs);
        }
        Ok(id)
    }

    /// Resolves a shot at `p`.
    ///
    /// Rejects an off-board coordinate with `OutOfBounds` and a cell that
    /// was already shot with `AlreadyShot`, changing nothing.  A shot on
    /// an empty cell marks it `Miss`; one on an occupied cell decrements
    /// the owning ship's alive count and marks the cell `Hit`, except that
    /// the last alive cell marks the whole ship `SunkenShip` and returns
    /// every one of its cells.  The exact outcome and the exact new board
    /// are `shot_result` and `shot_next` of the old board.
    pub fn process_shot(&mut self, p: Point) -> (r: Result<ShotResult, BoardError>)
        requires
            old(self).wf(),
        ensures
            final(self).wf(),
            shot_result_view(r) == shot_result(old(self)@, p),
            final(self)@ == shot_next(old(self)@, p),
    {
        if !(p.x < WIDTH && p.y < HEIGHT) {
            return Err(BoardError::Shot(ShotError::OutOfBounds));
        }
        let ghost b0 = self@;
        proof {
            assert(grid_view(self.grid@)[p.y as int] == self.grid@[p.y as int]@);
        }
        let t = self.grid[p.y][p.x];
        proof {
            assert(t == cell(b0.grid, p));
        }
        match t {
            Tile::Ship(id) => {
                proof {
                    lemma_ship_alive_positive(b0, p, id);
                }
                let ship = ship_at(&mut self.ships, id as usize);
                let res = ship.hit();
                match res {
                    None => {
                        set_cell(&mut self.grid, p, Tile::Hit);
                        proof {
                            assert(self@.ships =~= b0.ships.update(
                                id as int,
                                ShipModel {
                                    parts_alive: (b0.ships[id as int].parts_alive - 1) as nat,
                                    ..b0.ships[id as int]
                                },
                            ));
                            lemma_hit_preserves_wf(b0, self@, p, id);
                        }
                        Ok(ShotResult::Hit)
                    },
                    Some(cells) => {
                        proof {
                            assert(cells@ == b0.ships[id as int].parts);
                            assert forall|i: int| 0 <= i < cells@.len() implies in_bounds(
                                #[trigger] cells@[i],
                            ) by {
                                assert(ship_cell_ok(b0, id as int, i));
                            }
                        }
                        mark_cells(&mut self.grid, &cells, Tile::SunkenShip);
                        proof {
                            assert(self@.ships =~= b0.ships.update(
                                id as int,
                                ShipModel { parts_alive: 0, ..b0.ships[id as int] },
                            ));
                            lemma_sink_preserves_wf(b0, self@, p, id);
                        }
                        Ok(ShotResult::ShipSunk(cells))
                    },
                }
            },
            Tile::Empty => {
                set_cell(&mut self.grid, p, Tile::Miss);
                proof {
                    assert(self@.ships =~= b0.ships);
                    lemma_miss_preserves_wf(b0, self@, p);
                }
                Ok(ShotResult::Miss)
            },
            Tile::SunkenShip => Err(BoardError::Shot(ShotError::AlreadyShot)),
            Tile::Hit => Err(BoardError::Shot(ShotError::AlreadyShot)),
            Tile::Miss => Err(BoardError::Shot(ShotError::AlreadyShot)),
            Tile::Hidden => Err(BoardError::Shot(ShotError::HiddenDoesntExistOnPlayerBoards)),
        }
    }

    /// The number of ships placed so far; the next ship's id.
    pub fn ship_count(&self) -> (n: usize)
        ensures
            n == self@.ships.len(),
    {
        self.ships.len()
    }

    /// True exactly when every registered ship is fully destroyed.
    /// Trivially true on a board with no ships.
    pub fn is_game_over(&self) -> (r: bool)
        ensures
            r == all_ships_sunk(self@),
    {
        for i in 0..self.ships.len()
            invariant
                forall|j: int| 0 <= j < i ==> self@.ships[j].parts_alive == 0,
        {
            if self.ships[i].is_alive() {
                proof {
                    assert(self@.ships[i as int].parts_alive > 0);
                }
                return false;
            }
            proof {
                assert(self@.ships[i as int].parts_alive == 0);
            }
        }
        true
    }
}

// ---------------------------------------------------------------------------
// Laws
// ---------------------------------------------------------------------------

/// Law: all the cells a placement marks really show the mark.
pub proof fn lemma_grid_mark_cells(g: Seq<Seq<Tile>>, cells: Seq<Point>, t: Tile)
    requires
        grid_wf(g),
        forall|i: int| 0 <= i < cells.len() ==> in_bounds(#[trigger] cells[i]),
    ensures
        forall|i: int|
            0 <= i < cells.len() ==> cell(grid_mark(g, cells, t), #[trigger] cells[i]) == t,
{
    assert forall|i: int|
        0 <= i < cells.len() implies cell(grid_mark(g, cells, t), #[trigger] cells[i]) == t by {
        let q = cells[i];
        assert(cells.contains(q));
        assert(grid_mark(g, cells, t)[q.y as int][q.x as int] == t);
    }
}

/// Law: a placement whose cells all land on the board, but where at least
/// one lands on a non-empty cell, is rejected with `ShipOverlap`.
pub proof fn lemma_overlap_rejected(g: Seq<Seq<Tile>>, cells: Seq<Point>, pos: Point)
    requires
        forall|i: int|
            0 <= i < cells.len() ==> (#[trigger] cells[i]).x + pos.x < WIDTH && cells[i].y + pos.y
                < HEIGHT,
        exists|i: int|
            0 <= i < cells.len() && g[(#[trigger] cells[i]).y + pos.y][cells[i].x + pos.x]
                != Tile::Empty,
    ensures
        placement_check(g, cells, pos) == Err::<(), BoardError>(
            BoardError::ShipPlacementError(PlacementError::ShipOverlap),
        ),
    decreases cells.len(),
{
    let w = choose|i: int|
        0 <= i < cells.len() && g[(#[trigger] cells[i]).y + pos.y][cells[i].x + pos.x]
            != Tile::Empty;
    if g[cells[0].y + pos.y][cells[0].x + pos.x] != Tile::Empty {
    } else {
        let rest = cells.drop_first();
        assert(w > 0);
        assert(rest[w - 1] == cells[w]);
        assert forall|i: int|
            0 <= i < rest.len() implies (#[trigger] rest[i]).x + pos.x < WIDTH && rest[i].y + pos.y
            < HEIGHT by {
            assert(rest[i] == cells[i + 1]);
        }
        lemma_overlap_rejected(g, rest, pos);
    }
}

/// Law: a placement with some cell off the board, every cell that does
/// land on the board landing on an empty cell, is rejected with
/// `OutOfBounds`.  (That a rejected placement leaves the board unchanged
/// is part of `place_ship`'s contract.)
pub proof fn lemma_out_of_bounds_rejected(g: Seq<Seq<Tile>>, cells: Seq<Point>, pos: Point)
    requires
        exists|i: int|
            0 <= i < cells.len() && ((#[trigger] cells[i]).x + pos.x >= WIDTH || cells[i].y + pos.y
                >= HEIGHT),
        forall|i: int|
            0 <= i < cells.len() && (#[trigger] cells[i]).x + pos.x < WIDTH && cells[i].y + pos.y
                < HEIGHT ==> g[cells[i].y + pos.y][cells[i].x + pos.x] == Tile::Empty,
    ensures
        placement_check(g, cells, pos) == Err::<(), BoardError>(
            BoardError::ShipPlacementError(PlacementError::OutOfBounds),
        ),
    decreases cells.len(),
{
    let w = choose|i: int|
        0 <= i < cells.len() && ((#[trigger] cells[i]).x + pos.x >= WIDTH || cells[i].y + pos.y
            >= HEIGHT);
    if cells[0].x + pos.x >= WIDTH || cells[0].y + pos.y >= HEIGHT {
    } else {
        let rest = cells.drop_first();
        assert(w > 0);
        assert(rest[w - 1] == cells[w]);
        assert forall|i: int|
            0 <= i < rest.len() && (#[trigger] rest[i]).x + pos.x < WIDTH && rest[i].y + pos.y
            < HEIGHT implies g[rest[i].y + pos.y][rest[i].x + pos.x] == Tile::Empty by {
            assert(rest[i] == cells[i + 1]);
        }
        lemma_out_of_bounds_rejected(g, rest, pos);
    }
}

/// Law: a successful shot struck an on-board coordinate, and the cells a
/// sinking shot reports all lie on the board.  Registering such an outcome
/// on a well-formed fog-of-war view therefore never fails.
pub proof fn lemma_shot_outcome_registrable(b: BoardModel, p: Point)
    requires
        board_wf(b),
        shot_result(b, p) is Ok,
    ensures
        in_bounds(p),
        (match shot_result(b, p) {
            Ok(v) => sunk_cells_in_bounds(v),
            Err(_) => true,
        }),
{
    match cell(b.grid, p) {
        Tile::Ship(id) => {
            lemma_ship_alive_positive(b, p, id);
            let s = b.ships[id as int];
            if !(s.parts_alive > 1) {
                assert forall|i: int| 0 <= i < s.parts.len() implies in_bounds(
                    #[trigger] s.parts[i],
                ) by {
                    assert(ship_cell_ok(b, id as int, i));
                }
            }
        },
        _ => {},
    }
}

/// Law: a shot that succeeded cannot be repeated.  The cell it struck is
/// left marked, and shooting the same coordinate on the resulting board is
/// rejected with `AlreadyShot`.
pub proof fn lemma_shot_not_repeatable(b: BoardModel, p: Point)
    requires
        board_wf(b),
        shot_result(b, p) is Ok,
    ensures
        cell(shot_next(b, p).grid, p).is_shot_mark(),
        shot_result(shot_next(b, p), p) == Err::<ShotView, BoardError>(
            BoardError::Shot(ShotError::AlreadyShot),
        ),
{
    let b1 = shot_next(b, p);
    match cell(b.grid, p) {
        Tile::Empty => {
            assert(cell(b1.grid, p) == Tile::Miss);
        },
        Tile::Ship(id) => {
            lemma_ship_alive_positive(b, p, id);
            let s = b.ships[id as int];
            if s.parts_alive > 1 {
                assert(cell(b1.grid, p) == Tile::Hit);
            } else {
                assert(s.parts.contains(p));
                assert(cell(b1.grid, p) == Tile::SunkenShip) by {
                    assert(b1.grid[p.y as int][p.x as int] == Tile::SunkenShip);
                }
            }
        },
        _ => {
            assert(false);
        },
    }
}

/// Law: a shot on an alive cell of a ship hits that ship alone.  It adds
/// the struck cell to the ship's distinct hit cells and takes one from its
/// alive count; it sinks the ship — reporting all the ship's cells —
/// exactly when the hit was the last one missing, i.e. the N-th distinct
/// hit on a ship of N cells.  Every other ship keeps its state.
pub proof fn lemma_nth_hit_sinks(b: BoardModel, p: Point, id: u8)
    requires
        board_wf(b),
        in_bounds(p),
        cell(b.grid, p) == Tile::Ship(id),
    ensures
        ({
            let s = b.ships[id as int];
            let b1 = shot_next(b, p);
            let hit0 = hit_cells(b.grid, s);
            let hit1 = hit_cells(b1.grid, b1.ships[id as int]);
            &&& board_wf(b1)
            &&& b1.ships[id as int].parts_alive == s.parts_alive - 1
            &&& b1.ships[id as int].parts == s.parts
            &&& hit1 == hit0.insert(p)
            &&& hit1.len() == hit0.len() + 1
            &&& (shot_result(b, p) == Ok::<ShotView, BoardError>(ShotView::ShipSunk(s.parts))
                <==> hit1.len() == s.parts.len())
            &&& forall|j: int|
                0 <= j < b.ships.len() && j != id as int ==> b1.ships[j] == b.ships[j]
                    && hit_cells(b1.grid, #[trigger] b.ships[j]) == hit_cells(b.grid, b.ships[j])
        }),
{
    broadcast use vstd::seq_lib::seq_to_set_is_finite;

    lemma_ship_alive_positive(b, p, id);
    let s = b.ships[id as int];
    let b1 = shot_next(b, p);
    let hit0 = hit_cells(b.grid, s);
    let s1 = b1.ships[id as int];
    assert(hit0.finite()) by {
        vstd::set_lib::lemma_set_subset_finite(s.parts.to_set(), hit0);
    }
    if s.parts_alive > 1 {
        lemma_hit_preserves_wf(b, b1, p, id);
        assert(hit_cells(b1.grid, s1) =~= hit0.insert(p)) by {
            assert(s1.parts == s.parts && s1.id == s.id);
            assert(s.parts.to_set().contains(p));
            assert forall|c: Point| s.parts.to_set().contains(c) && c != p implies cell(
                b1.grid,
                c,
            ) == cell(b.grid, c) by {
                assert(s.parts.contains(c));
                lemma_ship_part_cell(b, id as int, c);
            }
            assert(cell(b1.grid, p) != Tile::Ship(s.id));
        }
        // not yet the last hit: some other distinct cell is still alive
        assert(ship_alive_ok(b, id as int));
        s.parts.lemma_cardinality_of_set();
        assert(hit_cells(b1.grid, s1).len() < s.parts.len());
    } else {
        lemma_sink_preserves_wf(b, b1, p, id);
        assert(ship_alive_ok(b, id as int));
        assert(hit0.len() == s.parts.len() - 1);
        s.parts.lemma_cardinality_of_set();
        assert(s.parts.to_set().len() == s.parts.len());
        assert(hit0.subset_of(s.parts.to_set().remove(p)));
        assert(s.parts.to_set().remove(p).len() == s.parts.to_set().len() - 1);
        vstd::set_lib::lemma_subset_equality(hit0, s.parts.to_set().remove(p));
        assert(hit0 == s.parts.to_set().remove(p));
        assert(hit_cells(b1.grid, s1) =~= s.parts.to_set()) by {
            assert(s1.parts == s.parts && s1.id == s.id);
            assert forall|c: Point| s.parts.to_set().contains(c) implies cell(b1.grid, c)
                == Tile::SunkenShip by {
                assert(s.parts.contains(c));
                lemma_ship_part_cell(b, id as int, c);
                assert(b1.grid[c.y as int][c.x as int] == Tile::SunkenShip);
            }
        }
        assert(hit_cells(b1.grid, s1) =~= hit0.insert(p));
    }
    assert forall|j: int|
        0 <= j < b.ships.len() && j != id as int implies b1.ships[j] == b.ships[j] && hit_cells(
        b1.grid,
        #[trigger] b.ships[j],
    ) == hit_cells(b.grid, b.ships[j]) by {
        let t = b.ships[j];
        assert(hit_cells(b1.grid, t) =~= hit_cells(b.grid, t)) by {
            assert forall|c: Point| t.parts.to_set().contains(c) implies cell(b1.grid, c) == cell(
                b.grid,
                c,
            ) by {
                assert(t.parts.contains(c));
                lemma_ship_part_cell(b, j, c);
                if s.parts.contains(c) {
                    assert(b.ships[j].parts.contains(c));
                    assert(b.ships[id as int].parts.contains(c));
                    assert(false);
                }
                if c == p {
                    assert(b.ships[id as int].parts.contains(p));
                    assert(false);
                }
            }
        }
    }
}

/// A mutable borrow of the ship at index `i`.
fn ship_at(ships: &mut Vec<Ship>, i: usize) -> (s: &mut Ship)
    requires
        i < old(ships)@.len(),
    ensures
        *s == old(ships)@[i as int],
        final(ships)@ == old(ships)@.update(i as int, *final(s)),
{
    &mut ships[i]
}

/// On a well-formed board, a cell showing `Ship(id)` belongs to ship `id`,
/// which is registered and still has at least one alive cell.
proof fn lemma_ship_alive_positive(b: BoardModel, p: Point, id: u8)
    requires
        board_wf(b),
        in_bounds(p),
        cell(b.grid, p) == Tile::Ship(id),
    ensures
        id < b.ships.len(),
        b.ships[id as int].id == id,
        b.ships[id as int].parts.contains(p),
        b.ships[id as int].parts_alive >= 1,
        !hit_cells(b.grid, b.ships[id as int]).contains(p),
        b.ships[id as int].parts.to_set().len() >= hit_cells(b.grid, b.ships[id as int]).len() + 1,
{
    broadcast use vstd::seq_lib::seq_to_set_is_finite;

    assert(grid_cell_ok(b, p.x as int, p.y as int));
    let s = b.ships[id as int];
    assert(s.id == id);
    let hs = hit_cells(b.grid, s);
    assert(s.parts.to_set().contains(p));
    assert(!hs.contains(p));
    assert(hs.subset_of(s.parts.to_set().remove(p)));
    vstd::set_lib::lemma_len_subset(hs, s.parts.to_set().remove(p));
    assert(s.parts.to_set().remove(p).len() == s.parts.to_set().len() - 1);
    s.parts.lemma_cardinality_of_set();
    assert(ship_alive_ok(b, id as int));
}

/// A miss leaves the board well-formed.
proof fn lemma_miss_preserves_wf(b0: BoardModel, b1: BoardModel, p: Point)
    requires
        board_wf(b0),
        in_bounds(p),
        cell(b0.grid, p) == Tile::Empty,
        b1.grid == grid_set(b0.grid, p, Tile::Miss),
        b1.ships == b0.ships,
    ensures
        board_wf(b1),
{
    assert forall|q: Point| in_bounds(q) && q != p implies cell(b1.grid, q) == cell(
        b0.grid,
        q,
    ) by {
    }
    assert(cell(b1.grid, p) == Tile::Miss);
    assert forall|i: int, k: int|
        0 <= i < b1.ships.len() && 0 <= k < b1.ships[i].parts.len() implies #[trigger] ship_cell_ok(
        b1,
        i,
        k,
    ) by {
        assert(ship_cell_ok(b0, i, k));
        let c = b0.ships[i].parts[k];
        assert(c != p);
    }
    assert forall|x: int, y: int| 0 <= x < WIDTH && 0 <= y < HEIGHT implies #[trigger] grid_cell_ok(
        b1,
        x,
        y,
    ) by {
        assert(grid_cell_ok(b0, x, y));
        let q = Point { x: x as usize, y: y as usize };
        assert(cell(b1.grid, q) == b1.grid[y][x]);
        assert(cell(b0.grid, q) == b0.grid[y][x]);
    }
    assert forall|i: int| 0 <= i < b1.ships.len() implies #[trigger] ship_alive_ok(b1, i) by {
        assert(ship_alive_ok(b0, i));
        let s = b0.ships[i];
        assert(hit_cells(b1.grid, s) =~= hit_cells(b0.grid, s)) by {
            assert forall|c: Point| s.parts.to_set().contains(c) implies cell(b1.grid, c) == cell(
                b0.grid,
                c,
            ) by {
                assert(s.parts.contains(c));
                lemma_ship_part_cell(b0, i, c);
            }
        }
    }
}

/// A non-sinking hit leaves the board well-formed.
proof fn lemma_hit_preserves_wf(b0: BoardModel, b1: BoardModel, p: Point, id: u8)
    requires
        board_wf(b0),
        in_bounds(p),
        cell(b0.grid, p) == Tile::Ship(id),
        b0.ships[id as int].parts_alive > 1,
        b1.grid == grid_set(b0.grid, p, Tile::Hit),
        b1.ships == b0.ships.update(
            id as int,
            ShipModel {
                parts_alive: (b0.ships[id as int].parts_alive - 1) as nat,
                ..b0.ships[id as int]
            },
        ),
    ensures
        board_wf(b1),
{
    broadcast use vstd::seq_lib::seq_to_set_is_finite;

    lemma_ship_alive_positive(b0, p, id);
    let s = b0.ships[id as int];
    let s1 = b1.ships[id as int];
    assert forall|q: Point| in_bounds(q) && q != p implies cell(b1.grid, q) == cell(
        b0.grid,
        q,
    ) by {
    }
    assert(cell(b1.grid, p) == Tile::Hit);
    // the shot cell belongs to ship `id` alone
    assert forall|j: int| 0 <= j < b0.ships.len() && j != id as int implies !b0.ships[j].parts.contains(
        p,
    ) by {
        assert(b0.ships[id as int].parts.contains(p));
    }
    assert forall|i: int, k: int|
        0 <= i < b1.ships.len() && 0 <= k < b1.ships[i].parts.len() implies #[trigger] ship_cell_ok(
        b1,
        i,
        k,
    ) by {
        assert(ship_cell_ok(b0, i, k));
        assert(b1.ships[i].parts == b0.ships[i].parts);
        assert(b1.ships[i].id == b0.ships[i].id);
    }
    assert forall|x: int, y: int| 0 <= x < WIDTH && 0 <= y < HEIGHT implies #[trigger] grid_cell_ok(
        b1,
        x,
        y,
    ) by {
        assert(grid_cell_ok(b0, x, y));
        let q = Point { x: x as usize, y: y as usize };
        assert(cell(b1.grid, q) == b1.grid[y][x]);
        assert(cell(b0.grid, q) == b0.grid[y][x]);
        if !(q == p) {
            assert(b1.grid[y][x] == b0.grid[y][x]);
            match b0.grid[y][x] {
                Tile::Ship(j) => {
                    assert(b1.ships[j as int].parts == b0.ships[j as int].parts);
                },
                _ => {},
            }
        }
    }
    assert forall|i: int| 0 <= i < b1.ships.len() implies #[trigger] ship_alive_ok(b1, i) by {
        assert(ship_alive_ok(b0, i));
        if i == id as int {
            assert(hit_cells(b1.grid, s1) =~= hit_cells(b0.grid, s).insert(p)) by {
                assert(s1.parts == s.parts && s1.id == s.id);
                assert(s.parts.to_set().contains(p));
                assert forall|c: Point| s.parts.to_set().contains(c) && c != p implies cell(
                    b1.grid,
                    c,
                ) == cell(b0.grid, c) by {
                    assert(s.parts.contains(c));
                    lemma_ship_part_cell(b0, id as int, c);
                }
                assert(cell(b1.grid, p) != Tile::Ship(s.id));
            }
            assert(!hit_cells(b0.grid, s).contains(p));
            assert(hit_cells(b0.grid, s).finite()) by {
                vstd::set_lib::lemma_set_subset_finite(s.parts.to_set(), hit_cells(b0.grid, s));
            }
            assert(hit_cells(b1.grid, s1).len() == hit_cells(b0.grid, s).len() + 1);
        } else {
            let t = b0.ships[i];
            assert(b1.ships[i] == t);
            assert(hit_cells(b1.grid, t) =~= hit_cells(b0.grid, t)) by {
                assert forall|c: Point| t.parts.to_set().contains(c) implies cell(b1.grid, c)
                    == cell(b0.grid, c) by {
                    assert(t.parts.contains(c));
                    lemma_ship_part_cell(b0, i, c);
                    if c == p {
                        assert(b0.ships[i].parts.contains(p));
                        assert(b0.ships[id as int].parts.contains(p));
                        assert(false);
                    }
                }
            }
        }
    }
}

/// The sinking hit leaves the board well-formed.
proof fn lemma_sink_preserves_wf(b0: BoardModel, b1: BoardModel, p: Point, id: u8)
    requires
        board_wf(b0),
        in_bounds(p),
        cell(b0.grid, p) == Tile::Ship(id),
        b0.ships[id as int].parts_alive == 1,
        b1.grid == grid_mark(b0.grid, b0.ships[id as int].parts, Tile::SunkenShip),
        b1.ships == b0.ships.update(
            id as int,
            ShipModel { parts_alive: 0, ..b0.ships[id as int] },
        ),
    ensures
        board_wf(b1),
{
    broadcast use vstd::seq_lib::seq_to_set_is_finite;

    lemma_ship_alive_positive(b0, p, id);
    let s = b0.ships[id as int];
    let s1 = b1.ships[id as int];
    assert(grid_wf(b1.grid));
    // how each cell changed
    assert forall|q: Point| in_bounds(q) implies cell(b1.grid, q) == if s.parts.contains(q) {
        Tile::SunkenShip
    } else {
        cell(b0.grid, q)
    } by {
        assert(b1.grid[q.y as int][q.x as int] == if s.parts.contains(q) {
            Tile::SunkenShip
        } else {
            b0.grid[q.y as int][q.x as int]
        });
    }
    assert forall|i: int, k: int|
        0 <= i < b1.ships.len() && 0 <= k < b1.ships[i].parts.len() implies #[trigger] ship_cell_ok(
        b1,
        i,
        k,
    ) by {
        assert(ship_cell_ok(b0, i, k));
        assert(b1.ships[i].parts == b0.ships[i].parts);
        assert(b1.ships[i].id == b0.ships[i].id);
        let c = b0.ships[i].parts[k];
        if i != id as int {
            assert(b0.ships[i].parts.contains(c));
            if s.parts.contains(c) {
                assert(b0.ships[id as int].parts.contains(c));
                assert(false);
            }
        }
    }
    assert forall|x: int, y: int| 0 <= x < WIDTH && 0 <= y < HEIGHT implies #[trigger] grid_cell_ok(
        b1,
        x,
        y,
    ) by {
        assert(grid_cell_ok(b0, x, y));
        let q = Point { x: x as usize, y: y as usize };
        assert(cell(b1.grid, q) == b1.grid[y][x]);
        assert(cell(b0.grid, q) == b0.grid[y][x]);
        if !s.parts.contains(q) {
            match b0.grid[y][x] {
                Tile::Ship(j) => {
                    assert(b1.ships[j as int].parts == b0.ships[j as int].parts);
                },
                _ => {},
            }
        }
    }
    // the ship's distinct cells are exactly as many as its parts: one was
    // still alive and all others were already distinct hits
    let hs = hit_cells(b0.grid, s);
    assert(ship_alive_ok(b0, id as int));
    assert(hs.len() == s.parts.len() - 1);
    assert(s.parts.to_set().len() >= s.parts.len());
    s.parts.lemma_cardinality_of_set();
    assert(s.parts.to_set().len() == s.parts.len());
    assert forall|i: int| 0 <= i < b1.ships.len() implies #[trigger] ship_alive_ok(b1, i) by {
        assert(ship_alive_ok(b0, i));
        if i == id as int {
            assert(hit_cells(b1.grid, s1) =~= s.parts.to_set()) by {
                assert(s1.parts == s.parts && s1.id == s.id);
                assert forall|c: Point| s.parts.to_set().contains(c) implies cell(b1.grid, c)
                    == Tile::SunkenShip by {
                    assert(s.parts.contains(c));
                    lemma_ship_part_cell(b0, i, c);
                }
            }
        } else {
            let t = b0.ships[i];
            assert(b1.ships[i] == t);
            assert(hit_cells(b1.grid, t) =~= hit_cells(b0.grid, t)) by {
                assert forall|c: Point| t.parts.to_set().contains(c) implies cell(b1.grid, c)
                    == cell(b0.grid, c) by {
                    assert(t.parts.contains(c));
                    lemma_ship_part_cell(b0, i, c);
                    if s.parts.contains(c) {
                        assert(b0.ships[i].parts.contains(c));
                        assert(b0.ships[id as int].parts.contains(c));
                        assert(false);
                    }
                }
            }
        }
    }
}

/// Every absolute cell of a validated placement lies on the board and is
/// empty.
proof fn lemma_validated_cells(g: Seq<Seq<Tile>>, cells: Seq<Point>, pos: Point)
    requires
        forall|j: int| 0 <= j < cells.len() ==> #[trigger] placed_cell_free(g, cells[j], pos),
    ensures
        forall|j: int|
            0 <= j < cells.len() ==> in_bounds(#[trigger] offset_cells(cells, pos)[j]) && cell(
                g,
                offset_cells(cells, pos)[j],
            ) == Tile::Empty,
{
    let abs = offset_cells(cells, pos);
    assert forall|j: int|
        0 <= j < cells.len() implies in_bounds(#[trigger] abs[j]) && cell(g, abs[j])
        == Tile::Empty by {
        assert(placed_cell_free(g, cells[j], pos));
    }
}

/// A cell occupied by a registered ship shows the ship itself, a hit on
/// it, or the sunken ship; in particular it lies on the board and is not
/// empty.
proof fn lemma_ship_part_cell(b: BoardModel, i: int, c: Point)
    requires
        board_wf(b),
        0 <= i < b.ships.len(),
        b.ships[i].parts.contains(c),
    ensures
        in_bounds(c),
        cell(b.grid, c) == Tile::Ship(b.ships[i].id) || cell(b.grid, c) == Tile::Hit || cell(
            b.grid,
            c,
        ) == Tile::SunkenShip,
{
    let k = choose|k: int| 0 <= k < b.ships[i].parts.len() && b.ships[i].parts[k] == c;
    assert(ship_cell_ok(b, i, k));
}

/// Registering a validated ship preserves the board invariant.
proof fn lemma_place_preserves_wf(b0: BoardModel, b1: BoardModel, name: Seq<char>, abs: Seq<Point>)
    requires
        board_wf(b0),
        b0.ships.len() < 255,
        forall|j: int|
            0 <= j < abs.len() ==> in_bounds(#[trigger] abs[j]) && cell(b0.grid, abs[j])
                == Tile::Empty,
        b1.ships == b0.ships.push(
            ShipModel {
                id: b0.ships.len() as u8,
                name: name,
                parts_alive: abs.len(),
                parts: abs,
            },
        ),
        b1.grid == grid_mark(b0.grid, abs, Tile::Ship(b0.ships.len() as u8)),
    ensures
        board_wf(b1),
{
    let n = b0.ships.len() as int;
    let idt = Tile::Ship(n as u8);
    let sm = ShipModel { id: n as u8, name: name, parts_alive: abs.len(), parts: abs };
    assert(grid_wf(b1.grid));
    // an occupied-by-another-ship or already-shot cell is never empty, so
    // the new ship's cells belong to no old ship
    assert forall|q: Point| abs.contains(q) implies in_bounds(q) && cell(b0.grid, q)
        == Tile::Empty by {
        let j = choose|j: int| 0 <= j < abs.len() && abs[j] == q;
    }
    // how each cell changed
    assert forall|q: Point| in_bounds(q) implies cell(b1.grid, q) == if abs.contains(q) {
        idt
    } else {
        cell(b0.grid, q)
    } by {
        assert(b1.grid[q.y as int][q.x as int] == if abs.contains(q) {
            idt
        } else {
            b0.grid[q.y as int][q.x as int]
        });
    }
    // ids stay the position in the list
    assert forall|i: int| 0 <= i < b1.ships.len() implies (#[trigger] b1.ships[i]).id
        == i as u8 by {
        if i < n {
            assert(b0.ships[i].id == i as u8);
        }
    }
    // every ship cell still shows its ship, a hit or the sunken ship
    assert forall|i: int, k: int|
        0 <= i < b1.ships.len() && 0 <= k < b1.ships[i].parts.len() implies #[trigger] ship_cell_ok(
        b1,
        i,
        k,
    ) by {
        if i < n {
            assert(ship_cell_ok(b0, i, k));
            let c = b0.ships[i].parts[k];
            assert(!abs.contains(c));
            assert(cell(b1.grid, c) == cell(b0.grid, c));
        } else {
            let c = abs[k];
            assert(abs.contains(c));
        }
    }
    // no two ships share a cell
    assert forall|i: int, j: int, c: Point|
        0 <= i < b1.ships.len() && 0 <= j < b1.ships.len() && i != j && #[trigger] b1.ships[i].parts.contains(
            c,
        ) implies !(#[trigger] b1.ships[j].parts.contains(c)) by {
        if i < n && j < n {
            assert(b0.ships[i].parts.contains(c) ==> !b0.ships[j].parts.contains(c));
        } else if i == n {
            if b1.ships[j].parts.contains(c) {
                lemma_ship_part_cell(b0, j, c);
            }
        } else {
            if b1.ships[j].parts.contains(c) {
                lemma_ship_part_cell(b0, i, c);
            }
        }
    }
    // occupied cells point back at their ship
    assert forall|x: int, y: int| 0 <= x < WIDTH && 0 <= y < HEIGHT implies #[trigger] grid_cell_ok(
        b1,
        x,
        y,
    ) by {
        let q = Point { x: x as usize, y: y as usize };
        assert(grid_cell_ok(b0, x, y));
        assert(cell(b1.grid, q) == b1.grid[y][x]);
        if abs.contains(q) {
            assert(b1.grid[y][x] == idt);
        } else {
            assert(b1.grid[y][x] == b0.grid[y][x]);
        }
    }
    // alive counts match the grid
    assert forall|i: int| 0 <= i < b1.ships.len() implies #[trigger] ship_alive_ok(b1, i) by {
        if i < n {
            assert(ship_alive_ok(b0, i));
            let s = b0.ships[i];
            assert(hit_cells(b1.grid, s) =~= hit_cells(b0.grid, s)) by {
                assert forall|c: Point| s.parts.to_set().contains(c) implies cell(b1.grid, c)
                    == cell(b0.grid, c) by {
                    assert(s.parts.contains(c));
                    lemma_ship_part_cell(b0, i, c);
                    assert(!abs.contains(c));
                }
            }
            assert(b1.ships[i] == s);
        } else {
            assert(hit_cells(b1.grid, sm) =~= Set::<Point>::empty()) by {
                assert forall|c: Point| sm.parts.to_set().contains(c) implies cell(b1.grid, c)
                    == Tile::Ship(sm.id) by {
                    assert(abs.contains(c));
                }
            }
            assert(Set::<Point>::empty().len() == 0);
            assert(b1.ships[i] == sm);
        }
    }
}

/// Writes `t` at every listed (in-bounds) point.
fn mark_cells(grid: &mut Vec<Vec<Tile>>, cells: &Vec<Point>, t: Tile)
    requires
        grid_wf(grid_view(old(grid)@)),
        forall|i: int| 0 <= i < cells@.len() ==> in_bounds(#[trigger] cells@[i]),
    ensures
        grid_view(final(grid)@) == grid_mark(grid_view(old(grid)@), cells@, t),
{
    let ghost g0 = grid_view(grid@);
    proof {
        assert(grid_mark(g0, cells@.take(0), t) =~~= g0);
    }
    for i in 0..cells.len()
        invariant
            grid_wf(g0),
            forall|j: int| 0 <= j < cells@.len() ==> in_bounds(#[trigger] cells@[j]),
            grid_view(grid@) == grid_mark(g0, cells@.take(i as int), t),
    {
        proof {
            lemma_grid_mark_wf(g0, cells@.take(i as int), t);
        }
        set_cell(grid, cells[i], t);
        proof {
            lemma_grid_mark_step(g0, cells@, i as int, t);
        }
    }
    proof {
        assert(cells@.take(cells@.len() as int) =~= cells@);
    }
}

/// Marking preserves the grid's shape.
proof fn lemma_grid_mark_wf(g: Seq<Seq<Tile>>, cells: Seq<Point>, t: Tile)
    requires
        grid_wf(g),
    ensures
        grid_wf(grid_mark(g, cells, t)),
{
}

/// Marking one more cell on top of a partial marking equals the longer
/// partial marking.
proof fn lemma_grid_mark_step(g: Seq<Seq<Tile>>, cells: Seq<Point>, i: int, t: Tile)
    requires
        grid_wf(g),
        0 <= i < cells.len(),
        in_bounds(cells[i]),
    ensures
        grid_set(grid_mark(g, cells.take(i), t), cells[i], t) == grid_mark(g, cells.take(i + 1), t),
{
    let lhs = grid_set(grid_mark(g, cells.take(i), t), cells[i], t);
    let rhs = grid_mark(g, cells.take(i + 1), t);
    assert forall|y: int| 0 <= y < lhs.len() implies lhs[y] =~= rhs[y] by {
        assert forall|x: int| 0 <= x < lhs[y].len() implies lhs[y][x] == rhs[y][x] by {
            let q = Point { x: x as usize, y: y as usize };
            if cells.take(i + 1).contains(q) {
                let k = choose|k: int| 0 <= k < i + 1 && #[trigger] cells.take(i + 1)[k] == q;
                if k < i {
                    assert(cells.take(i)[k] == q);
                    assert(cells.take(i).contains(q));
                }
            } else {
                assert(!cells.take(i).contains(q)) by {
                    if cells.take(i).contains(q) {
                        let k = choose|k: int| 0 <= k < i && #[trigger] cells.take(i)[k] == q;
                        assert(cells.take(i + 1)[k] == q);
                    }
                }
                assert(cells.take(i + 1)[i] == cells[i]);
                assert(q != cells[i]);
            }
        }
    }
    assert(lhs =~= rhs);
}

} // verus!
