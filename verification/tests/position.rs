use text_coords::Position;
use tree_sitter::Point;

#[test]
fn test_ordering() {
    // (0, 5) is less than (1, 0)
    assert!(Position::new(0, 5) < Position::new(1, 0));
}

#[test]
fn ordering_is_by_row_then_column() {
    let rows = vec![0usize, 1, 7, usize::MAX - 1];
    let cols = vec![0usize, 1, 5, usize::MAX];
    for r in rows {
        for a in &cols {
            for b in &cols {
                assert_eq!(Position::new(r, *a) < Position::new(r, *b), a < b);
                assert!(Position::new(r, *a) < Position::new(r + 1, *b));
                assert!(Position::new(r + 1, *b) > Position::new(r, *a));
                assert_eq!(Position::new(r, *a) == Position::new(r, *b), a == b);
                assert_eq!(
                    Position::new(r, *a).partial_cmp(&Position::new(r, *b)),
                    Some(Position::new(r, *a).cmp(&Position::new(r, *b)))
                );
            }
        }
    }
}

#[test]
fn new_default_and_is_zero() {
    let pos = Position::new(3, 4);
    assert_eq!(pos.row, 3);
    assert_eq!(pos.col, 4);
    assert!(!pos.is_zero());
    assert!(Position::new(0, 0).is_zero());
    assert!(!Position::new(0, 1).is_zero());
    assert!(!Position::new(1, 0).is_zero());
    assert_eq!(Position::default(), Position::new(0, 0));
    assert!(Position::default().is_zero());
}

#[test]
fn from_a_pair() {
    let pos: Position = (2, 9).into();
    assert_eq!(pos, Position::new(2, 9));
    assert_eq!(Position::from((0, 0)), Position::default());
}

#[test]
fn into_a_tree_sitter_point() {
    let point = Point::from(Position::new(3, 4));
    assert_eq!(point.row, 3);
    assert_eq!(point.column, 4);
    let point: Point = Position::new(0, 17).into();
    assert_eq!(point, Point::new(0, 17));
}

#[test]
fn traverse_counts_characters() {
    assert_eq!(Position::new(2, 3).traverse(""), Position::new(2, 3));
    assert_eq!(Position::new(2, 3).traverse("abc"), Position::new(2, 6));
    // Columns are characters, not display widths.
    assert_eq!(Position::new(0, 0).traverse("今日"), Position::new(0, 2));
    assert_eq!(Position::new(0, 1).traverse("e\u{301}"), Position::new(0, 3));
}

#[test]
fn traverse_line_breaks() {
    assert_eq!(Position::new(2, 3).traverse("\n"), Position::new(3, 0));
    assert_eq!(Position::new(2, 3).traverse("a\nbc"), Position::new(3, 2));
    assert_eq!(Position::new(2, 3).traverse("\r\n"), Position::new(3, 0));
    assert_eq!(Position::new(2, 3).traverse("a\r\nb"), Position::new(3, 1));
    assert_eq!(Position::new(2, 3).traverse("a\rb"), Position::new(3, 1));
    assert_eq!(Position::new(2, 3).traverse("a\r"), Position::new(3, 0));
    assert_eq!(Position::new(2, 3).traverse("\r\r\n"), Position::new(4, 0));
    assert_eq!(Position::new(2, 3).traverse("\n\r"), Position::new(4, 0));
    assert_eq!(Position::new(0, 0).traverse("one\ntwo\r\nthree\rfour"), Position::new(3, 4));
}

#[test]
fn traverse_at_the_limits() {
    assert_eq!(
        Position::new(usize::MAX - 1, usize::MAX).traverse("\nab"),
        Position::new(usize::MAX, 2)
    );
    assert_eq!(
        Position::new(0, usize::MAX).traverse("\r\n"),
        Position::new(1, 0)
    );
    assert_eq!(
        Position::new(0, usize::MAX - 2).traverse("ab"),
        Position::new(0, usize::MAX)
    );
}
