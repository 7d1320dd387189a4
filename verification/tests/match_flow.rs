use battleship::game::player_board::{BoardError, ShotError, ShotResult};
use battleship::game::player_board::PlayerBoard;
use battleship::game::players::computer::{place_randomly, random_point};
use battleship::game::players::{Computer, GamePlayer};
use battleship::game::point::Point;
use battleship::game::rotation::Rotation;
use battleship::game::ship::ShipBlueprint;
use battleship::game::tile::Tile;
use battleship::game::{CurrentPlayer, PlayerState, Setup, SinglePlayer, TurnOutcome};

fn dot() -> ShipBlueprint {
    ShipBlueprint::new(vec![Point::new(0, 0)], String::from("dot"))
}

fn side_with_dot(name: &str, at: Point) -> PlayerState {
    let mut s = PlayerState::new(String::from(name));
    s.board
        .place_ship(&dot(), at, Rotation::Zero)
        .expect("should fit");
    s
}

#[test]
fn sinking_the_last_ship_ends_the_match() {
    let p1 = side_with_dot("alice", Point::new(0, 0));
    let p2 = side_with_dot("bob", Point::new(5, 5));
    let mut game = SinglePlayer::new(p1, p2);
    match game.turn(Point::new(5, 5)) {
        TurnOutcome::Finished(result) => {
            assert_eq!(result.winner, CurrentPlayer::First);
            assert_eq!(result.winner_name, "alice");
        }
        other => panic!("expected the match to end, got {:?}", other),
    }
}

#[test]
fn rejected_shot_keeps_the_turn() {
    let p1 = side_with_dot("alice", Point::new(0, 0));
    let p2 = side_with_dot("bob", Point::new(5, 5));
    let mut game = SinglePlayer::new(p1, p2);
    match game.turn(Point::new(10, 0)) {
        TurnOutcome::Rejected(e) => {
            assert_eq!(e, BoardError::Shot(ShotError::OutOfBounds));
        }
        other => panic!("expected a rejected shot, got {:?}", other),
    }
    // still the first side's turn: its shot ends the match in its favour
    match game.turn(Point::new(5, 5)) {
        TurnOutcome::Finished(result) => {
            assert_eq!(result.winner, CurrentPlayer::First);
        }
        other => panic!("expected the match to end, got {:?}", other),
    }
}

#[test]
fn landed_shot_switches_sides_and_marks_the_view() {
    // two-cell fleets so that one hit does not end the match
    let bar = ShipBlueprint::new(
        vec![Point::new(0, 0), Point::new(1, 0)],
        String::from("bar"),
    );
    let mut p1 = PlayerState::new(String::from("alice"));
    p1.board
        .place_ship(&bar, Point::new(0, 0), Rotation::Zero)
        .expect("should fit");
    let mut p2 = PlayerState::new(String::from("bob"));
    p2.board
        .place_ship(&bar, Point::new(5, 5), Rotation::Zero)
        .expect("should fit");
    let mut game = SinglePlayer::new(p1, p2);
    match game.turn(Point::new(5, 5)) {
        TurnOutcome::Switched => {}
        other => panic!("expected the turn to pass, got {:?}", other),
    }
    // the shooter's fog-of-war view now shows the hit, nothing else
    assert_eq!(game.player1.view.get_grid()[5][5], Tile::Hit);
    assert_eq!(game.player1.view.get_grid()[0][0], Tile::Hidden);
    // and the opponent's own board shows it too
    assert_eq!(game.player2.board.get_grid()[5][5], Tile::Hit);
    // it is now the second side's turn
    match game.turn(Point::new(9, 9)) {
        TurnOutcome::Switched => {}
        other => panic!("expected the turn to pass, got {:?}", other),
    }
    assert_eq!(game.player2.view.get_grid()[9][9], Tile::Miss);
}

#[test]
fn random_points_stay_on_the_board() {
    for _ in 0..200 {
        let p = random_point();
        assert!(p.x < 10 && p.y < 10);
    }
}

#[test]
fn computer_places_its_fleet_and_can_be_sunk() {
    let mut computer = Computer::new();
    let fleet = vec![
        ShipBlueprint::new(
            vec![Point::new(0, 0), Point::new(0, 1), Point::new(1, 1)],
            String::from("new"),
        ),
        ShipBlueprint::new(
            vec![
                Point::new(0, 0),
                Point::new(1, 0),
                Point::new(2, 0),
                Point::new(3, 0),
            ],
            String::from("long boy"),
        ),
    ];
    computer.setup(fleet);
    assert!(!computer.is_game_over());
    // raze the whole board: exactly two ships must go down
    let mut sunk = 0;
    let mut hits = 0;
    for x in 0..10 {
        for y in 0..10 {
            match computer.process_shot(Point::new(x, y)) {
                Ok(ShotResult::ShipSunk(cells)) => {
                    sunk += 1;
                    hits += cells.len();
                }
                Ok(ShotResult::Hit) => {}
                Ok(ShotResult::Miss) => {}
                Err(e) => panic!("a fresh cell was rejected: {:?}", e),
            }
        }
    }
    assert_eq!(sunk, 2);
    assert_eq!(hits, 7);
    assert!(computer.is_game_over());
}

#[test]
fn random_placement_places_what_fits_and_skips_what_cannot() {
    let mut board = PlayerBoard::new();
    // an 11-cell row fits nowhere on a 10-wide board
    let mut parts = Vec::new();
    for x in 0..11 {
        parts.push(Point::new(x, 0));
    }
    let too_long = ShipBlueprint::new(parts, String::from("too long"));
    assert!(!place_randomly(&mut board, &too_long));
    assert_eq!(board.ship_count(), 0);
    assert_eq!(board.get_grid(), PlayerBoard::new().get_grid());
    // a single cell always fits on a fresh board
    assert!(place_randomly(&mut board, &dot()));
    assert_eq!(board.ship_count(), 1);
}

#[test]
fn computer_chooses_points_on_the_board() {
    let mut computer = Computer::new();
    assert_eq!(computer.get_name(), "Computer");
    for _ in 0..100 {
        let p = computer.choose_point();
        assert!(p.x < 10 && p.y < 10);
    }
    assert!(computer
        .update_view_board(ShotResult::Miss, Point::new(0, 0))
        .is_ok());
}
