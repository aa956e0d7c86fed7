use arch_installer::text::{parse_flag, parse_number, trim_bounds};

#[test]
fn numbers_between_whitespace_are_read() {
    assert_eq!(parse_number(b"209715200\n"), Some(209715200));
    assert_eq!(parse_number(b"  42 \t\r\n"), Some(42));
    assert_eq!(parse_number(b"0"), Some(0));
    assert_eq!(parse_number(b"007"), Some(7));
}

#[test]
fn non_numbers_are_refused() {
    assert_eq!(parse_number(b""), None);
    assert_eq!(parse_number(b" \n"), None);
    assert_eq!(parse_number(b"12a"), None);
    assert_eq!(parse_number(b"1 2"), None);
    assert_eq!(parse_number(b"-1"), None);
}

#[test]
fn numbers_past_usize_are_refused() {
    let max = usize::MAX.to_string();
    assert_eq!(parse_number(max.as_bytes()), Some(usize::MAX));
    let over = format!("{}0", usize::MAX);
    assert_eq!(parse_number(over.as_bytes()), None);
    let over_then_letter = format!("{}0x", usize::MAX);
    assert_eq!(parse_number(over_then_letter.as_bytes()), None);
}

#[test]
fn flags_are_set_only_by_one() {
    assert!(parse_flag(b"1\n"));
    assert!(parse_flag(b" 1 "));
    assert!(!parse_flag(b"0\n"));
    assert!(!parse_flag(b"11"));
    assert!(!parse_flag(b""));
}

#[test]
fn trim_bounds_cut_whitespace() {
    assert_eq!(trim_bounds(b"  true\n"), (2, 6));
    assert_eq!(trim_bounds(b"   "), (3, 3));
}
