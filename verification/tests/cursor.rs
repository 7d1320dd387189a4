use battleship::game::cursor::{Cursor, CursorError};

#[test]
fn cannot_move_outside_of_bounds() {
    let mut c = Cursor::new(0, 0, 10, 10);
    let res = c.move_by(10, 2);
    assert_eq!(res, Err(CursorError::OutOfBounds))
}

#[test]
fn can_move_inside_bounds() {
    let mut c1 = Cursor::new(0, 0, 10, 10);
    let res = c1.move_by(9, 9);
    assert!(res.is_ok());
    let mut c2 = Cursor::new(2, 5, 5, 6);
    let res2 = c2.move_by(-2, -5);
    assert!(res2.is_ok());
}

#[test]
fn rejected_move_keeps_position() {
    let mut c = Cursor::new(3, 4, 10, 10);
    assert_eq!(c.move_by(-4, 0), Err(CursorError::OutOfBounds));
    let p = c.pos();
    assert_eq!((p.x, p.y), (3, 4));
    assert!(c.move_by(6, 5).is_ok());
    let p2 = c.pos();
    assert_eq!((p2.x, p2.y), (9, 9));
}
