use battleship::game::player_board::board_builder::BoardBuilder;
use battleship::game::player_board::board_view::BoardView;
use battleship::game::player_board::{BoardError, PlacementError, PlayerBoard};
use battleship::game::cursor::Cursor;
use battleship::game::point::Point;
use battleship::game::rotation::Rotation;
use battleship::game::ship::ShipBlueprint;

fn bar() -> ShipBlueprint {
    ShipBlueprint::new(
        vec![Point::new(0, 0), Point::new(1, 0), Point::new(2, 0)],
        String::from("bar"),
    )
}

#[test]
fn builder_moves_rotates_and_validates() {
    let board = PlayerBoard::new();
    let bp = bar();
    let mut builder = BoardBuilder::new(&board, &bp);
    assert!(matches!(builder.rotation, Rotation::Horizontal));
    builder.rotate_ship();
    assert!(matches!(builder.rotation, Rotation::VerticalAndHorizontal));
    builder.rotate_ship();
    builder.rotate_ship();
    builder.rotate_ship();
    assert!(matches!(builder.rotation, Rotation::Horizontal));

    // a move off the board is ignored
    builder.move_cursor(-1, 0);
    let p = builder.cursor.pos();
    assert_eq!((p.x, p.y), (0, 0));
    builder.move_cursor(8, 0);
    let p = builder.cursor.pos();
    assert_eq!((p.x, p.y), (8, 0));

    // the bar turned a quarter is a column: it fits at (8, 0)
    let placement = builder.place_ship().expect("should fit");
    assert_eq!(placement, Some((Point::new(8, 0), Rotation::Horizontal)));

    // unrotated at (8, 0) it would leave the board
    builder.rotation = Rotation::Zero;
    assert_eq!(
        builder.place_ship().expect_err("should be err"),
        BoardError::ShipPlacementError(PlacementError::OutOfBounds)
    );
}

#[test]
fn view_selects_under_its_cursor() {
    let board = PlayerBoard::new();
    let grid = board.get_grid();
    let mut view = BoardView::new(grid, Some(Cursor::new(0, 0, 10, 10)), "choose a point");
    view.move_cursor(3, 4);
    view.move_cursor(0, -9);
    assert_eq!(view.select().expect("has a cursor"), Some(Point::new(3, 4)));
}

#[test]
fn view_without_cursor_selects_nothing() {
    let board = PlayerBoard::new();
    let view = BoardView::new(board.get_grid(), None, "Your ships");
    assert!(view.select().is_err());
}
