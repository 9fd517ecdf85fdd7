use focus::coords::parse_pair;
use focus::Coords;

#[test]
fn accessors_return_components() {
    let c = Coords(12, 34);
    assert_eq!(c.w(), 12);
    assert_eq!(c.h(), 34);
}

#[test]
fn parses_plain_pair() {
    assert_eq!(parse_pair("640,480"), Ok(Coords(640, 480)));
}

#[test]
fn parses_parenthesised_pair_with_spaces() {
    assert_eq!(parse_pair("(640, 480)"), Ok(Coords(640, 480)));
    assert_eq!(parse_pair(" ( 100 , 50 ) "), Ok(Coords(100, 50)));
}

#[test]
fn single_number_fills_both_components() {
    assert_eq!(parse_pair("800"), Ok(Coords(800, 800)));
    assert_eq!(parse_pair("(800)"), Ok(Coords(800, 800)));
}

#[test]
fn three_fields_are_rejected() {
    assert_eq!(parse_pair("1,2,3"), Err("valid sizes: 1 and 2"));
}

#[test]
fn non_numeric_field_is_rejected() {
    assert_eq!(parse_pair("abc"), Err("number must be a positive integer"));
    assert_eq!(parse_pair("12,cd"), Err("number must be a positive integer"));
    assert_eq!(parse_pair(""), Err("number must be a positive integer"));
    assert_eq!(parse_pair("()"), Err("number must be a positive integer"));
    assert_eq!(parse_pair("-3,4"), Err("number must be a positive integer"));
    assert_eq!(parse_pair("1 2"), Err("number must be a positive integer"));
}

#[test]
fn overflowing_number_is_rejected() {
    assert_eq!(
        parse_pair("99999999999999999999999999999999"),
        Err("number must be a positive integer")
    );
}

#[test]
fn largest_value_is_kept() {
    let s = usize::MAX.to_string();
    assert_eq!(parse_pair(&s), Ok(Coords(usize::MAX, usize::MAX)));
}

#[test]
fn zero_parses() {
    assert_eq!(parse_pair("0,0"), Ok(Coords(0, 0)));
}
