use vstd::prelude::*;

use crate::game::player_board::{
    all_ships_sunk, in_bounds, placed_at, placement_check, shot_next, shot_result,
    shot_result_view, uniform_grid, BoardError, BoardModel, PlayerBoard, ShotResult, HEIGHT,
    WIDTH,
};
use crate::game::players::gameplayer::GamePlayer;
use crate::game::point::Point;
use crate::game::rotation::Rotation;
use crate::game::ship::{rotated_parts, ShipBlueprint};
use crate::game::tile::Tile;
use crate::game::Setup;

verus! {

/// Relies on rand::random_range: a draw from the non-empty range `0..n`
/// always lies strictly below `n`.
#[verifier::external_body]
fn random_below(n: usize) -> (r: usize)
    requires
        n > 0,
    ensures
        r < n,
{
    rand::random_range(0..n)
}

/// A random coordinate on the board.
pub fn random_point() -> (p: Point)
    ensures
        in_bounds(p),
{
    let x = random_below(WIDTH);
    let y = random_below(HEIGHT);
    Point::new(x, y)
}

/// Tries a bounded number of random anchors for the blueprint, then every
/// anchor in order, and places the ship (unrotated) at the first anchor
/// that fits.  On success exactly one ship — the blueprint's footprint at
/// an anchor the old board admitted — has been added.  The ship is not
/// placed, and the board left unchanged, only when the ship id space is
/// already full or no anchor at all admits the blueprint.
pub fn place_randomly(board: &mut PlayerBoard, bp: &ShipBlueprint) -> (placed: bool)
    requires
        old(board).wf(),
    ensures
        final(board).wf(),
        placed ==> final(board)@.ships.len() == old(board)@.ships.len() + 1,
        placed ==> exists|pos: Point|
            placed_at(old(board)@, final(board)@, bp.parts@, bp.name@, pos),
        !placed ==> final(board)@ == old(board)@,
        !placed && old(board)@.ships.len() < 255 ==> forall|pos: Point|
            !((#[trigger] placement_check(old(board)@.grid, bp.parts@, pos)) is Ok),
{
    if board.ship_count() >= 255 {
        return false;
    }
    let mut i: usize = 0;
    while i < 200
        invariant
            board.wf(),
            board@ == old(board)@,
            board@.ships.len() < 255,
            i <= 200,
        decreases 200 - i,
    {
        let p = random_point();
        match board.can_place_ship(bp, p, Rotation::Zero) {
            Ok(()) => {
                let _ = board.place_ship(bp, p, Rotation::Zero);
                proof {
                    assert(rotated_parts(bp.parts@, Rotation::Zero) == bp.parts@);
                    assert(placed_at(old(board)@, board@, bp.parts@, bp.name@, p));
                }
                return true;
            },
            Err(_) => {},
        }
        i += 1;
    }
    let mut y: usize = 0;
    while y < HEIGHT
        invariant
            board.wf(),
            board@ == old(board)@,
            board@.ships.len() < 255,
            y <= HEIGHT,
            forall|q: Point|
                in_bounds(q) && q.y < y ==> !((#[trigger] placement_check(
                    old(board)@.grid,
                    bp.parts@,
                    q,
                )) is Ok),
        decreases HEIGHT - y,
    {
        let mut x: usize = 0;
        while x < WIDTH
            invariant
                board.wf(),
                board@ == old(board)@,
                board@.ships.len() < 255,
                x <= WIDTH,
                y < HEIGHT,
                forall|q: Point|
                    in_bounds(q) && q.y < y ==> !((#[trigger] placement_check(
                        old(board)@.grid,
                        bp.parts@,
                        q,
                    )) is Ok),
                forall|q: Point|
                    in_bounds(q) && q.y == y && q.x < x ==> !((#[trigger] placement_check(
                        old(board)@.grid,
                        bp.parts@,
                        q,
                    )) is Ok),
            decreases WIDTH - x,
        {
            let p = Point::new(x, y);
            match board.can_place_ship(bp, p, Rotation::Zero) {
                Ok(()) => {
                    let _ = board.place_ship(bp, p, Rotation::Zero);
                    proof {
                        assert(rotated_parts(bp.parts@, Rotation::Zero) == bp.parts@);
                        assert(placed_at(old(board)@, board@, bp.parts@, bp.name@, p));
                    }
                    return true;
                },
                Err(_) => {
                    proof {
                        assert(rotated_parts(bp.parts@, Rotation::Zero) == bp.parts@);
                        assert(!(placement_check(old(board)@.grid, bp.parts@, p) is Ok));
                    }
                },
            }
            x += 1;
        }
        y += 1;
    }
    proof {
        // an empty footprint is admitted everywhere, so the scan would
        // have placed it at the very first anchor
        if bp.parts@.len() == 0 {
            assert(placement_check(old(board)@.grid, bp.parts@, Point { x: 0, y: 0 }) is Ok);
            assert(false);
        }
        assert forall|q: Point| !((#[trigger] placement_check(
            old(board)@.grid,
            bp.parts@,
            q,
        )) is Ok) by {
            if !in_bounds(q) {
                assert(bp.parts@[0].x + q.x >= WIDTH || bp.parts@[0].y + q.y >= HEIGHT);
            }
        }
    }
    false
}

/// Relates a board before and after the machine's setup pass over a fleet
/// list: each blueprint in order is either placed — its unrotated
/// footprint anchored somewhere the board at that point admitted — or
/// skipped, the latter only when the ship id space is full or no anchor
/// at all admits the blueprint.
pub open spec fn fleet_setup_ok(b0: BoardModel, b1: BoardModel, ships: Seq<ShipBlueprint>) -> bool
    decreases ships.len(),
{
    if ships.len() == 0 {
        b1 == b0
    } else {
        ||| exists|mid: BoardModel, pos: Point|
            #![trigger placed_at(b0, mid, ships[0].parts@, ships[0].name@, pos)]
            placed_at(b0, mid, ships[0].parts@, ships[0].name@, pos) && fleet_setup_ok(
                mid,
                b1,
                ships.drop_first(),
            )
        ||| ((b0.ships.len() >= 255 || forall|pos: Point|
            !((#[trigger] placement_check(b0.grid, ships[0].parts@, pos)) is Ok))
            && fleet_setup_ok(b0, b1, ships.drop_first()))
    }
}

/// One more setup step extends a setup pass by one blueprint.
proof fn lemma_fleet_setup_extend(
    b0: BoardModel,
    b1: BoardModel,
    b2: BoardModel,
    ships: Seq<ShipBlueprint>,
    bp: ShipBlueprint,
)
    requires
        fleet_setup_ok(b0, b1, ships),
        (exists|pos: Point| placed_at(b1, b2, bp.parts@, bp.name@, pos)) || ((b1.ships.len() >= 255
            || forall|pos: Point| !((#[trigger] placement_check(b1.grid, bp.parts@, pos)) is Ok))
            && b2 == b1),
    ensures
        fleet_setup_ok(b0, b2, ships.push(bp)),
    decreases ships.len(),
{
    let s2 = ships.push(bp);
    if ships.len() == 0 {
        assert(b1 == b0);
        assert(s2[0] == bp);
        assert(s2.drop_first() =~= Seq::<ShipBlueprint>::empty());
        if exists|pos: Point| placed_at(b1, b2, bp.parts@, bp.name@, pos) {
            let pos = choose|pos: Point| placed_at(b1, b2, bp.parts@, bp.name@, pos);
            assert(fleet_setup_ok(b2, b2, s2.drop_first()));
            assert(placed_at(b0, b2, s2[0].parts@, s2[0].name@, pos));
        } else {
            assert(b2 == b1);
            assert(fleet_setup_ok(b0, b2, s2.drop_first()));
        }
    } else {
        assert(s2[0] == ships[0]);
        assert(s2.drop_first() =~= ships.drop_first().push(bp));
        if exists|mid: BoardModel, pos: Point|
            #![trigger placed_at(b0, mid, ships[0].parts@, ships[0].name@, pos)]
            placed_at(b0, mid, ships[0].parts@, ships[0].name@, pos) && fleet_setup_ok(
                mid,
                b1,
                ships.drop_first(),
            ) {
            let (mid, pos) = choose|mid: BoardModel, pos: Point|
                placed_at(b0, mid, ships[0].parts@, ships[0].name@, pos) && fleet_setup_ok(
                    mid,
                    b1,
                    ships.drop_first(),
                );
            lemma_fleet_setup_extend(mid, b1, b2, ships.drop_first(), bp);
            assert(placed_at(b0, mid, s2[0].parts@, s2[0].name@, pos) && fleet_setup_ok(
                mid,
                b2,
                s2.drop_first(),
            ));
        } else {
            assert((b0.ships.len() >= 255 || forall|pos: Point|
                !((#[trigger] placement_check(b0.grid, ships[0].parts@, pos)) is Ok))
                && fleet_setup_ok(b0, b1, ships.drop_first()));
            lemma_fleet_setup_extend(b0, b1, b2, ships.drop_first(), bp);
        }
    }
}

/// The machine side: it owns a fleet board, places its ships at random
/// free anchors, and fires at random coordinates, keeping no memory of
/// earlier shots.
pub struct Computer {
    board: PlayerBoard,
    name: String,
}

impl View for Computer {
    type V = BoardModel;

    closed spec fn view(&self) -> BoardModel {
        self.board@
    }
}

impl Computer {
    #[verifier::type_invariant]
    spec fn inv(self) -> bool {
        self.board.wf()
    }

    /// A machine side with an empty fleet board.
    pub fn new() -> (c: Computer)
        ensures
            c@.ships.len() == 0,
            c@.grid == uniform_grid(Tile::Empty),
    {
        Self { board: PlayerBoard::new(), name: "Computer".to_owned() }
    }
}

impl Setup<Vec<ShipBlueprint>> for Computer {
    /// Places each blueprint in order at a random free anchor, falling
    /// back to a scan of every anchor; a blueprint is skipped only when
    /// nothing on the board admits it (or the id space is full), so the
    /// fleet only grows.
    fn setup(&mut self, ships: Vec<ShipBlueprint>)
        ensures
            fleet_setup_ok(old(self)@, final(self)@, ships@),
            final(self)@.ships.len() >= old(self)@.ships.len(),
    {
        proof {
            use_type_invariant(&*self);
        }
        let ghost b_start = self@;
        // take the board out to work on it; the stand-in keeps the
        // invariant while it is out
        let mut board = PlayerBoard::new();
        core::mem::swap(&mut board, &mut self.board);
        proof {
            assert(ships@.take(0) =~= Seq::<ShipBlueprint>::empty());
        }
        let mut i: usize = 0;
        while i < ships.len()
            invariant
                board.wf(),
                i <= ships@.len(),
                fleet_setup_ok(b_start, board@, ships@.take(i as int)),
                board@.ships.len() >= b_start.ships.len(),
            decreases ships@.len() - i,
        {
            let ghost mid0 = board@;
            let placed = place_randomly(&mut board, &ships[i]);
            proof {
                let bp = ships@[i as int];
                lemma_fleet_setup_extend(b_start, mid0, board@, ships@.take(i as int), bp);
                assert(ships@.take(i as int).push(bp) =~= ships@.take(i as int + 1));
            }
            i += 1;
        }
        proof {
            assert(ships@.take(ships@.len() as int) =~= ships@);
        }
        core::mem::swap(&mut board, &mut self.board);
    }
}

impl GamePlayer for Computer {
    /// A random target; always on the board.
    fn choose_point(&mut self) -> (p: Point)
        ensures
            in_bounds(p),
    {
        random_point()
    }

    fn is_game_over(&self) -> (r: bool)
        ensures
            r == all_ships_sunk(self@),
    {
        self.board.is_game_over()
    }

    /// Exactly the fleet board's shot resolution.
    fn process_shot(&mut self, p: Point) -> (r: Result<ShotResult, BoardError>)
        ensures
            shot_result_view(r) == shot_result(old(self)@, p),
            final(self)@ == shot_next(old(self)@, p),
    {
        proof {
            use_type_invariant(&*self);
        }
        // take the board out to work on it; the stand-in keeps the
        // invariant while it is out
        let mut board = PlayerBoard::new();
        core::mem::swap(&mut board, &mut self.board);
        let r = board.process_shot(p);
        core::mem::swap(&mut board, &mut self.board);
        r
    }

    /// The machine chooses fresh random targets each turn and keeps no
    /// view of the opponent.
    fn update_view_board(&mut self, _shot: ShotResult, _p: Point) -> (r: Result<(), BoardError>)
        ensures
            r is Ok,
            final(self)@ == old(self)@,
    {
        Ok(())
    }

    fn get_name(&self) -> &String {
        &self.name
    }
}

} // verus!
