use minesweeper::coordinates::CoordinateU16;

#[test]
fn coordinates_add_and_subtract() {
    let a = CoordinateU16 { x: 3, y: 4 };
    let b = CoordinateU16 { x: 1, y: 2 };
    assert_eq!(a + b, CoordinateU16 { x: 4, y: 6 });
    assert_eq!(a - b, CoordinateU16 { x: 2, y: 2 });
}

#[test]
fn coordinates_move_by_signed_offsets() {
    let a = CoordinateU16 { x: 3, y: 4 };
    assert_eq!(a + (-1i8, 1i8), CoordinateU16 { x: 2, y: 5 });
    assert_eq!(a - (-1i8, 1i8), CoordinateU16 { x: 4, y: 3 });
    let far = CoordinateU16 { x: 40000, y: 65534 };
    assert_eq!(far + (1i8, 1i8), CoordinateU16 { x: 40001, y: 65535 });
}

#[test]
fn checked_shift_refuses_to_leave_the_range() {
    let origin = CoordinateU16 { x: 0, y: 0 };
    assert_eq!(origin.checked_shift(-1, 0), None);
    assert_eq!(origin.checked_shift(0, -1), None);
    assert_eq!(origin.checked_shift(1, 1), Some(CoordinateU16 { x: 1, y: 1 }));
    let end = CoordinateU16 { x: 65535, y: 65535 };
    assert_eq!(end.checked_shift(1, 0), None);
    assert_eq!(end.checked_shift(0, 1), None);
    assert_eq!(end.checked_shift(-1, -1), Some(CoordinateU16 { x: 65534, y: 65534 }));
    let middle = CoordinateU16 { x: 32767, y: 32768 };
    assert_eq!(middle.checked_shift(1, -1), Some(CoordinateU16 { x: 32768, y: 32767 }));
}

#[test]
fn coordinates_are_ordered_by_column_then_row() {
    assert!(CoordinateU16 { x: 1, y: 9 } < CoordinateU16 { x: 2, y: 0 });
    assert!(CoordinateU16 { x: 1, y: 1 } < CoordinateU16 { x: 1, y: 2 });
    assert_eq!(CoordinateU16 { x: 1, y: 1 }, CoordinateU16 { x: 1, y: 1 });
}

#[test]
fn coordinates_are_shown_in_brackets() {
    assert_eq!(CoordinateU16 { x: 3, y: 14 }.to_string(), "(3;14)");
    assert_eq!(CoordinateU16 { x: 0, y: 0 }.to_string(), "(0;0)");
    assert_eq!(CoordinateU16 { x: 65535, y: 10000 }.to_string(), "(65535;10000)");
    assert_eq!(CoordinateU16 { x: 907, y: 60 }.to_string(), "(907;60)");
}
