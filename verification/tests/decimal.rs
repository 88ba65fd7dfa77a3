use pathtracer::decimal::{parse_usize, push_decimal};

fn decimal(n: usize) -> String {
    let mut out = Vec::new();
    push_decimal(&mut out, n);
    String::from_utf8(out).unwrap()
}

#[test]
fn decimal_digits() {
    assert_eq!(decimal(0), "0");
    assert_eq!(decimal(9), "9");
    assert_eq!(decimal(10), "10");
    assert_eq!(decimal(255), "255");
    assert_eq!(decimal(1002003), "1002003");
    assert_eq!(decimal(usize::MAX), format!("{}", usize::MAX));
}

#[test]
fn decimal_goes_behind_what_is_there() {
    let mut out = vec![b'x', b'='];
    push_decimal(&mut out, 42);
    assert_eq!(out, b"x=42".to_vec());
}

#[test]
fn numbers_in_decimal() {
    assert_eq!(parse_usize("0"), Some(0));
    assert_eq!(parse_usize("7"), Some(7));
    assert_eq!(parse_usize("640"), Some(640));
    assert_eq!(parse_usize("007"), Some(7));
    assert_eq!(parse_usize("+12"), Some(12));
    assert_eq!(parse_usize("1000000"), Some(1000000));
}

#[test]
fn texts_that_are_no_numbers() {
    assert_eq!(parse_usize(""), None);
    assert_eq!(parse_usize("+"), None);
    assert_eq!(parse_usize("-"), None);
    assert_eq!(parse_usize("-5"), None);
    assert_eq!(parse_usize("++5"), None);
    assert_eq!(parse_usize("5+"), None);
    assert_eq!(parse_usize("12a"), None);
    assert_eq!(parse_usize("a12"), None);
    assert_eq!(parse_usize(" 12"), None);
    assert_eq!(parse_usize("12 "), None);
    assert_eq!(parse_usize("1.5"), None);
    assert_eq!(parse_usize("\u{0661}\u{0662}"), None);
}

#[test]
fn numbers_at_the_limit_of_the_machine() {
    let max = format!("{}", usize::MAX);
    assert_eq!(parse_usize(&max), Some(usize::MAX));
    assert_eq!(parse_usize(&format!("+000{}", max)), Some(usize::MAX));
    let beyond = format!("{}", usize::MAX as u128 + 1);
    assert_eq!(parse_usize(&beyond), None);
    assert_eq!(parse_usize(&format!("{}0", max)), None);
    assert_eq!(parse_usize("99999999999999999999999999999999999999999"), None);
    // beyond the machine, and no number either
    assert_eq!(parse_usize("99999999999999999999999999999999999999999x"), None);
}

#[test]
fn numbers_as_the_standard_library_reads_them() {
    for text in ["0", "1", "+1", "-1", "", "+", "00", "18446744073709551615", "18446744073709551616", "1_000", "0x10", "٣"] {
        assert_eq!(parse_usize(text), text.parse::<usize>().ok());
    }
}

#[test]
fn written_numbers_read_back() {
    for n in [0usize, 1, 9, 10, 99, 100, 255, 640, 65535, 1 << 40, usize::MAX - 1, usize::MAX] {
        assert_eq!(parse_usize(&decimal(n)), Some(n));
    }
    for n in 0..3000usize {
        assert_eq!(parse_usize(&decimal(n)), Some(n));
        assert_eq!(decimal(n), format!("{}", n));
    }
}
