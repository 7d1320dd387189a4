use battleship::game::player_board::PlayerBoard;
use battleship::game::point::Point;
use battleship::game::rotation::Rotation;
use battleship::game::ship::ShipBlueprint;
use battleship::game::tile::Tile;

fn ell() -> ShipBlueprint {
    ShipBlueprint::new(
        vec![Point::new(0, 0), Point::new(0, 1), Point::new(1, 1)],
        String::from("ell"),
    )
}

#[test]
fn rotation_cycle_returns_after_four_steps() {
    let r0 = Rotation::Zero;
    let r1 = r0.next();
    let r2 = r1.next();
    let r3 = r2.next();
    let r4 = r3.next();
    assert!(matches!(r1, Rotation::Vertical));
    assert!(matches!(r2, Rotation::Horizontal));
    assert!(matches!(r3, Rotation::VerticalAndHorizontal));
    assert!(matches!(r4, Rotation::Zero));
}

#[test]
fn rotate_by_zero_returns_the_parts_unchanged() {
    let bp = ell();
    let r = bp.rotate(Rotation::Zero);
    assert_eq!(r, bp.parts);
}

#[test]
fn empty_blueprint_rotates_to_itself() {
    let bp = ShipBlueprint::new(Vec::new(), String::from("nothing"));
    assert!(bp.rotate(Rotation::Horizontal).is_empty());
    assert!(bp.rotate(Rotation::Zero).is_empty());
}

#[test]
fn quarter_turn_of_the_l_shape() {
    let bp = ell();
    let r = bp.rotate(Rotation::Horizontal);
    assert_eq!(r, vec![Point::new(1, 0), Point::new(0, 0), Point::new(0, 1)]);
}

#[test]
fn half_turn_of_the_l_shape() {
    let bp = ell();
    let r = bp.rotate(Rotation::Vertical);
    assert_eq!(r, vec![Point::new(1, 1), Point::new(1, 0), Point::new(0, 0)]);
}

#[test]
fn three_quarter_turn_of_the_l_shape() {
    let bp = ell();
    let r = bp.rotate(Rotation::VerticalAndHorizontal);
    assert_eq!(r, vec![Point::new(0, 1), Point::new(1, 1), Point::new(1, 0)]);
}

#[test]
fn four_quarter_turns_compose_to_the_identity() {
    let bp0 = ell();
    let name = String::from("ell");
    let r1 = ShipBlueprint::new(bp0.rotate(Rotation::Horizontal), name.clone());
    let r2 = ShipBlueprint::new(r1.rotate(Rotation::Horizontal), name.clone());
    let r3 = ShipBlueprint::new(r2.rotate(Rotation::Horizontal), name.clone());
    let r4 = r3.rotate(Rotation::Horizontal);
    assert_eq!(r4, bp0.parts);
}

#[test]
fn four_quarter_turns_normalize_a_translated_shape() {
    // the same L-shape pushed away from the origin comes back normalized
    let bp0 = ShipBlueprint::new(
        vec![Point::new(4, 7), Point::new(4, 8), Point::new(5, 8)],
        String::from("far ell"),
    );
    let name = String::from("far ell");
    let r1 = ShipBlueprint::new(bp0.rotate(Rotation::Horizontal), name.clone());
    let r2 = ShipBlueprint::new(r1.rotate(Rotation::Horizontal), name.clone());
    let r3 = ShipBlueprint::new(r2.rotate(Rotation::Horizontal), name.clone());
    let r4 = r3.rotate(Rotation::Horizontal);
    assert_eq!(
        r4,
        vec![Point::new(0, 0), Point::new(0, 1), Point::new(1, 1)]
    );
}

#[test]
fn rotation_is_deterministic() {
    let bp = ell();
    assert_eq!(bp.rotate(Rotation::Horizontal), bp.rotate(Rotation::Horizontal));
    assert_eq!(bp.rotate(Rotation::Vertical), bp.rotate(Rotation::Vertical));
    assert_eq!(
        bp.rotate(Rotation::VerticalAndHorizontal),
        bp.rotate(Rotation::VerticalAndHorizontal)
    );
}

#[test]
fn placement_uses_the_rotated_shape() {
    // a 1x3 bar turned a quarter becomes a 3x1 column
    let bar = ShipBlueprint::new(
        vec![Point::new(0, 0), Point::new(1, 0), Point::new(2, 0)],
        String::from("bar"),
    );
    let mut board = PlayerBoard::new();
    let id = board
        .place_ship(&bar, Point::new(7, 7), Rotation::Horizontal)
        .expect("the rotated bar fits");
    let grid = board.get_grid();
    assert_eq!(grid[7][7], Tile::Ship(id));
    assert_eq!(grid[8][7], Tile::Ship(id));
    assert_eq!(grid[9][7], Tile::Ship(id));
    // unrotated at x = 8 it would run off the right edge
    let mut board2 = PlayerBoard::new();
    assert!(board2
        .place_ship(&bar, Point::new(8, 7), Rotation::Zero)
        .is_err());
    assert!(board2
        .place_ship(&bar, Point::new(8, 7), Rotation::Horizontal)
        .is_ok());
}
