use tictactoe::parse_move;

fn chars_of(s: &str) -> Vec<char> {
    s.chars().collect()
}

#[test]
fn parse_digit_then_letter() {
    assert_eq!(parse_move(&chars_of("1a")), Some((0, 0)));
    assert_eq!(parse_move(&chars_of("3c")), Some((2, 2)));
}

#[test]
fn parse_letter_then_digit() {
    assert_eq!(parse_move(&chars_of("b2")), Some((1, 1)));
    assert_eq!(parse_move(&chars_of("c1")), Some((0, 2)));
}

#[test]
fn parse_rejects_out_of_range() {
    assert_eq!(parse_move(&chars_of("0a")), None);
    assert_eq!(parse_move(&chars_of("4a")), None);
    assert_eq!(parse_move(&chars_of("9c")), None);
    assert_eq!(parse_move(&chars_of("1d")), None);
    assert_eq!(parse_move(&chars_of("1A")), None);
}

#[test]
fn parse_rejects_wrong_shape() {
    assert_eq!(parse_move(&chars_of("")), None);
    assert_eq!(parse_move(&chars_of("1")), None);
    assert_eq!(parse_move(&chars_of("1a2")), None);
    assert_eq!(parse_move(&chars_of("12")), None);
    assert_eq!(parse_move(&chars_of("ab")), None);
}
