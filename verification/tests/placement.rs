use battleship::game::player_board::{BoardError, PlacementError, PlayerBoard};
use battleship::game::point::Point;
use battleship::game::rotation::Rotation;
use battleship::game::ship::ShipBlueprint;
use battleship::game::tile::Tile;

fn default_setup() -> (PlayerBoard, ShipBlueprint) {
    let board: PlayerBoard = PlayerBoard::new();
    let blueprint: ShipBlueprint = ShipBlueprint::new(vec![Point::new(0, 0)], String::from("dot"));
    (board, blueprint)
}

fn big_ship_setup() -> (PlayerBoard, ShipBlueprint) {
    let board = PlayerBoard::new();
    let bp = ShipBlueprint::new(
        vec![
            Point::new(0, 0),
            Point::new(1, 0),
            Point::new(0, 1),
            Point::new(1, 1),
        ],
        String::from("BigDih"),
    );
    (board, bp)
}

#[test]
fn can_place_ship() {
    let (mut board, blueprint) = default_setup();
    let res = board.place_ship(&blueprint, Point::new(0, 0), Rotation::Zero);
    assert!(res.is_ok())
}

#[test]
fn can_place_bigger_ship() {
    let (mut board, bp) = big_ship_setup();
    let res = board.place_ship(&bp, Point::new(0, 0), Rotation::Zero);
    assert!(res.is_ok())
}

#[test]
fn cannot_place_bigger_ship_out_of_bounds() {
    let (mut board, bp) = big_ship_setup();
    let res = board.place_ship(&bp, Point::new(9, 0), Rotation::Zero);
    assert_eq!(
        res.expect_err("should be err"),
        BoardError::ShipPlacementError(PlacementError::OutOfBounds)
    );
    let res2 = board.place_ship(&bp, Point::new(9, 0), Rotation::Zero);
    assert_eq!(
        res2.expect_err("should be err"),
        BoardError::ShipPlacementError(PlacementError::OutOfBounds)
    );
}

#[test]
fn cannot_place_ship_out_of_bounds_x() {
    let (mut board, blueprint) = default_setup();
    let res = board.place_ship(&blueprint, Point::new(10, 0), Rotation::Zero);
    assert_eq!(
        res.expect_err("should be err"),
        BoardError::ShipPlacementError(PlacementError::OutOfBounds)
    );
}

#[test]
fn cannot_place_ship_out_of_bounds_y() {
    let (mut board, blueprint) = default_setup();
    let res = board.place_ship(&blueprint, Point::new(0, 10), Rotation::Zero);
    assert_eq!(
        res.expect_err("should be err"),
        BoardError::ShipPlacementError(PlacementError::OutOfBounds)
    );
}

#[test]
fn cannot_place_ship_on_another_ship() {
    let (mut board, blueprint) = default_setup();
    let res = board.place_ship(&blueprint, Point::new(0, 0), Rotation::Zero);
    let res2 = board.place_ship(&blueprint, Point::new(0, 0), Rotation::Zero);
    assert!(res.is_ok());
    assert_eq!(
        res2.expect_err("should be err"),
        BoardError::ShipPlacementError(PlacementError::ShipOverlap)
    );
}

#[test]
fn cannot_place_bigger_ship_on_ship() {
    let (mut board, bp) = big_ship_setup();
    let (_, sm) = default_setup();
    let res = board.place_ship(&sm, Point::new(1, 1), Rotation::Zero);
    assert!(res.is_ok());
    let res2 = board.place_ship(&bp, Point::new(0, 0), Rotation::Zero);
    assert_eq!(
        res2.expect_err("should be err"),
        BoardError::ShipPlacementError(PlacementError::ShipOverlap)
    );
}

#[test]
fn placed_cells_read_occupied_and_block_overlap() {
    let (mut board, bp) = big_ship_setup();
    let id = board
        .place_ship(&bp, Point::new(4, 5), Rotation::Zero)
        .expect("should fit");
    let grid = board.get_grid();
    assert_eq!(grid[5][4], Tile::Ship(id));
    assert_eq!(grid[5][5], Tile::Ship(id));
    assert_eq!(grid[6][4], Tile::Ship(id));
    assert_eq!(grid[6][5], Tile::Ship(id));
    // any placement touching one of those cells overlaps
    let (_, dot) = default_setup();
    let res = board.place_ship(&dot, Point::new(5, 6), Rotation::Zero);
    assert_eq!(
        res.expect_err("should be err"),
        BoardError::ShipPlacementError(PlacementError::ShipOverlap)
    );
}

#[test]
fn failed_placement_leaves_grid_unchanged() {
    let (mut board, bp) = big_ship_setup();
    let before = board.get_grid().clone();
    let res = board.place_ship(&bp, Point::new(9, 9), Rotation::Zero);
    assert_eq!(
        res.expect_err("should be err"),
        BoardError::ShipPlacementError(PlacementError::OutOfBounds)
    );
    assert_eq!(board.get_grid(), &before);
    assert_eq!(board.ship_count(), 0);
}

#[test]
fn can_validate_without_mutating() {
    let (mut board, bp) = big_ship_setup();
    let before = board.get_grid().clone();
    // validation is pure: repeated calls agree and the grid stays as it is
    let first = board.can_place_ship(&bp, Point::new(0, 0), Rotation::Zero);
    for _ in 0..5 {
        assert_eq!(
            board.can_place_ship(&bp, Point::new(0, 0), Rotation::Zero),
            first
        );
    }
    assert_eq!(board.get_grid(), &before);
    assert!(board.place_ship(&bp, Point::new(0, 0), Rotation::Zero).is_ok());
}

#[test]
fn full_row_ship_fits_only_at_the_left_edge() {
    let mut parts = Vec::new();
    for x in 0..10 {
        parts.push(Point::new(x, 0));
    }
    let bp = ShipBlueprint::new(parts, String::from("wall"));
    let mut board = PlayerBoard::new();
    assert_eq!(
        board
            .place_ship(&bp, Point::new(1, 0), Rotation::Zero)
            .expect_err("should be err"),
        BoardError::ShipPlacementError(PlacementError::OutOfBounds)
    );
    assert!(board.place_ship(&bp, Point::new(0, 0), Rotation::Zero).is_ok());
}
