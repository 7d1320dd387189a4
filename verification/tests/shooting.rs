use battleship::game::player_board::{
    BoardError, PlayerBoard, ShotError, ShotResult, ViewBoard,
};
use battleship::game::point::Point;
use battleship::game::rotation::Rotation;
use battleship::game::ship::ShipBlueprint;
use battleship::game::tile::Tile;

fn dot() -> ShipBlueprint {
    ShipBlueprint::new(vec![Point::new(0, 0)], String::from("dot"))
}

fn same_cells(got: &[Point], want: &[Point]) -> bool {
    got.len() == want.len() && want.iter().all(|w| got.contains(w))
}

#[test]
fn shot_sinks_ship() {
    let mut board = PlayerBoard::new();
    let sm = dot();
    let p = Point::new(0, 0);
    board
        .place_ship(&sm, p, Rotation::Zero)
        .expect("should be ok to place");
    let res = board.process_shot(p).expect("should be ok");
    let _ = res;
}

#[test]
fn single_cell_ship_sinks_and_ends_the_game() {
    let mut board = PlayerBoard::new();
    board
        .place_ship(&dot(), Point::new(0, 0), Rotation::Zero)
        .expect("should fit");
    assert!(!board.is_game_over());
    match board.process_shot(Point::new(0, 0)).expect("should land") {
        ShotResult::ShipSunk(cells) => {
            assert!(same_cells(&cells, &[Point::new(0, 0)]));
        }
        other => panic!("expected a sinking shot, got {:?}", other),
    }
    assert!(board.is_game_over());
}

#[test]
fn same_coordinate_cannot_be_shot_twice() {
    let mut board = PlayerBoard::new();
    board
        .place_ship(&dot(), Point::new(2, 2), Rotation::Zero)
        .expect("should fit");
    // a miss, then the same cell again
    assert!(matches!(
        board.process_shot(Point::new(7, 7)),
        Ok(ShotResult::Miss)
    ));
    assert_eq!(
        board
            .process_shot(Point::new(7, 7))
            .expect_err("should be err"),
        BoardError::Shot(ShotError::AlreadyShot)
    );
    // a hit, then the same cell again
    assert!(board.process_shot(Point::new(2, 2)).is_ok());
    assert_eq!(
        board
            .process_shot(Point::new(2, 2))
            .expect_err("should be err"),
        BoardError::Shot(ShotError::AlreadyShot)
    );
}

#[test]
fn shot_outside_the_board_is_rejected() {
    let mut board = PlayerBoard::new();
    assert_eq!(
        board
            .process_shot(Point::new(10, 0))
            .expect_err("should be err"),
        BoardError::Shot(ShotError::OutOfBounds)
    );
    assert_eq!(
        board
            .process_shot(Point::new(0, 10))
            .expect_err("should be err"),
        BoardError::Shot(ShotError::OutOfBounds)
    );
}

#[test]
fn l_shaped_ship_takes_three_hits() {
    // 3-cell L-shape anchored at (2,2): occupies (2,2), (2,3), (3,3)
    let bp = ShipBlueprint::new(
        vec![Point::new(0, 0), Point::new(0, 1), Point::new(1, 1)],
        String::from("ell"),
    );
    let mut board = PlayerBoard::new();
    board
        .place_ship(&bp, Point::new(2, 2), Rotation::Zero)
        .expect("should fit");
    let grid = board.get_grid().clone();
    assert_eq!(grid[2][2], Tile::Ship(0));
    assert_eq!(grid[3][2], Tile::Ship(0));
    assert_eq!(grid[3][3], Tile::Ship(0));
    assert!(matches!(
        board.process_shot(Point::new(2, 2)),
        Ok(ShotResult::Hit)
    ));
    assert!(matches!(
        board.process_shot(Point::new(2, 3)),
        Ok(ShotResult::Hit)
    ));
    assert!(!board.is_game_over());
    match board.process_shot(Point::new(3, 3)).expect("should land") {
        ShotResult::ShipSunk(cells) => {
            assert!(same_cells(
                &cells,
                &[Point::new(2, 2), Point::new(2, 3), Point::new(3, 3)]
            ));
        }
        other => panic!("expected a sinking shot, got {:?}", other),
    }
    assert!(board.is_game_over());
    // after the sink every cell of the ship reads SunkenShip
    let grid = board.get_grid();
    assert_eq!(grid[2][2], Tile::SunkenShip);
    assert_eq!(grid[3][2], Tile::SunkenShip);
    assert_eq!(grid[3][3], Tile::SunkenShip);
}

#[test]
fn miss_leaves_ships_untouched() {
    // two non-overlapping two-cell ships
    let bar = ShipBlueprint::new(
        vec![Point::new(0, 0), Point::new(1, 0)],
        String::from("bar"),
    );
    let mut board = PlayerBoard::new();
    board
        .place_ship(&bar, Point::new(0, 0), Rotation::Zero)
        .expect("should fit");
    board
        .place_ship(&bar, Point::new(5, 5), Rotation::Zero)
        .expect("should fit");
    assert!(matches!(
        board.process_shot(Point::new(9, 9)),
        Ok(ShotResult::Miss)
    ));
    assert!(!board.is_game_over());
    // had the miss cost either ship a cell, this first hit would sink one
    assert!(matches!(
        board.process_shot(Point::new(0, 0)),
        Ok(ShotResult::Hit)
    ));
    assert!(matches!(
        board.process_shot(Point::new(5, 5)),
        Ok(ShotResult::Hit)
    ));
    assert!(!board.is_game_over());
}

#[test]
fn game_over_needs_every_ship_sunk() {
    let mut board = PlayerBoard::new();
    board
        .place_ship(&dot(), Point::new(0, 0), Rotation::Zero)
        .expect("should fit");
    board
        .place_ship(&dot(), Point::new(9, 9), Rotation::Zero)
        .expect("should fit");
    assert!(matches!(
        board.process_shot(Point::new(0, 0)),
        Ok(ShotResult::ShipSunk(_))
    ));
    assert!(!board.is_game_over());
    assert!(matches!(
        board.process_shot(Point::new(9, 9)),
        Ok(ShotResult::ShipSunk(_))
    ));
    assert!(board.is_game_over());
}

#[test]
fn board_with_no_ships_is_trivially_over() {
    let board = PlayerBoard::new();
    assert!(board.is_game_over());
}

#[test]
fn duplicate_offsets_make_an_unsinkable_cell() {
    // both offsets land on the same cell: the ship starts with two lives
    // but only one cell can ever be hit, so it never sinks
    let bp = ShipBlueprint::new(
        vec![Point::new(0, 0), Point::new(0, 0)],
        String::from("ghost"),
    );
    let mut board = PlayerBoard::new();
    board
        .place_ship(&bp, Point::new(4, 4), Rotation::Zero)
        .expect("should fit");
    assert!(matches!(
        board.process_shot(Point::new(4, 4)),
        Ok(ShotResult::Hit)
    ));
    assert_eq!(
        board
            .process_shot(Point::new(4, 4))
            .expect_err("should be err"),
        BoardError::Shot(ShotError::AlreadyShot)
    );
    assert!(!board.is_game_over());
}

#[test]
fn view_board_records_shot_outcomes() {
    let mut view = ViewBoard::new();
    assert_eq!(view.get_grid()[0][0], Tile::Hidden);
    view.register_shot(ShotResult::Hit, Point::new(1, 2))
        .expect("in bounds");
    view.register_shot(ShotResult::Miss, Point::new(4, 5))
        .expect("in bounds");
    let grid = view.get_grid();
    assert_eq!(grid[2][1], Tile::Hit);
    assert_eq!(grid[5][4], Tile::Miss);
    assert_eq!(grid[0][0], Tile::Hidden);
}

#[test]
fn sunk_report_reveals_the_whole_ship() {
    let mut view = ViewBoard::new();
    view.register_shot(ShotResult::Hit, Point::new(2, 2))
        .expect("in bounds");
    let cells = vec![Point::new(2, 2), Point::new(2, 3), Point::new(3, 3)];
    view.register_shot(ShotResult::ShipSunk(cells), Point::new(3, 3))
        .expect("in bounds");
    let grid = view.get_grid();
    assert_eq!(grid[2][2], Tile::SunkenShip);
    assert_eq!(grid[3][2], Tile::SunkenShip);
    assert_eq!(grid[3][3], Tile::SunkenShip);
}

#[test]
fn view_board_rejects_an_off_board_mark() {
    let mut view = ViewBoard::new();
    let before = view.get_grid().clone();
    assert_eq!(
        view.register_shot(ShotResult::Miss, Point::new(10, 3))
            .expect_err("should be err"),
        BoardError::ShotRegisterError
    );
    assert_eq!(view.get_grid(), &before);
}
