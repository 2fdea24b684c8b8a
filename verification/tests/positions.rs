use soundcalc::pos::{CharPos, Pos};

#[test]
fn test_add() {
    let left = || Pos::new(CharPos::new(2, 3), CharPos::new(2, 6));
    let right = || Pos::new(CharPos::new(5, 1), CharPos::new(5, 4));

    assert_eq!((left() + right()).into_inner(), ((2, 3), (5, 4)));
    assert_eq!((left() + Some(right())).into_inner(), ((2, 3), (5, 4)));
    assert_eq!((Some(left()) + right()).into_inner(), ((2, 3), (5, 4)));

    assert_eq!((left() + None).into_inner(), ((2, 3), (2, 6)));
    assert_eq!((None + right()).into_inner(), ((5, 1), (5, 4)));
}

#[test]
fn char_pos_into_inner_gives_line_and_column() {
    assert_eq!(CharPos::new(7, 9).into_inner(), (7, 9));
}

#[test]
fn positions_are_ordered_by_line_then_column() {
    assert!(CharPos::new(1, 9) < CharPos::new(2, 0));
    assert!(CharPos::new(2, 0) < CharPos::new(2, 1));
    assert_eq!(CharPos::new(3, 4), CharPos::new(3, 4));
}
