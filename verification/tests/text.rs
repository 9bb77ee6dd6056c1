use minesweeper::text::{digit_text, push_decimal, push_repeated};

#[test]
fn digits_are_written_as_text() {
    let all: Vec<&str> = (0u8..10).map(digit_text).collect();
    assert_eq!(all, vec!["0", "1", "2", "3", "4", "5", "6", "7", "8", "9"]);
}

#[test]
fn numbers_are_written_without_leading_zeros() {
    for (n, text) in [(0u16, "0"), (7, "7"), (10, "10"), (305, "305"), (65535, "65535")] {
        let mut out = String::from(">");
        push_decimal(&mut out, n);
        assert_eq!(out, format!(">{}", text));
    }
    for n in 0..=u16::MAX {
        let mut out = String::new();
        push_decimal(&mut out, n);
        assert_eq!(out, n.to_string());
    }
}

#[test]
fn a_character_is_repeated() {
    let mut out = String::from("a");
    push_repeated(&mut out, "-", 3);
    assert_eq!(out, "a---");
    push_repeated(&mut out, "x", 0);
    assert_eq!(out, "a---");
}
