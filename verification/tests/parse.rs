use snap2zombie::parse::{decimal_text, hash};

#[test]
fn hash_strips_0x_and_keeps_the_digits() {
    assert_eq!(hash("0xabcdef"), Ok(String::from("abcdef")));
    assert_eq!(hash("abcdef"), Ok(String::from("abcdef")));
    assert_eq!(hash("0x0123456789abcdefABCDEF"), Ok(String::from("0123456789abcdefABCDEF")));
    assert_eq!(hash("0x"), Ok(String::new()));
    assert_eq!(hash(""), Ok(String::new()));
    assert_eq!(hash("0"), Ok(String::from("0")));
    assert_eq!(hash("abc"), Ok(String::from("abc")));
}

#[test]
fn hash_reports_the_first_illegal_character() {
    let message = |position: usize| {
        Err(format!(
            "Expected block hash, found illegal hex character at position: {}",
            position
        ))
    };
    assert_eq!(hash("0x1g"), message(3));
    assert_eq!(hash("1g"), message(1));
    assert_eq!(hash("g"), message(0));
    assert_eq!(hash("0xg"), message(2));
    assert_eq!(hash("0x0x12"), message(3));
    assert_eq!(hash("0X12"), message(1));
    assert_eq!(hash("x0"), message(0));
    assert_eq!(hash("12 34"), message(2));
    assert_eq!(hash("0xab\u{e9}zz"), message(4));
    assert_eq!(hash("\u{e9}\u{e9}g"), message(0));
    assert_eq!(hash("0123456789z"), message(10));
    assert_eq!(hash(&format!("0x{}!", "a".repeat(1234))), message(1236));
}

#[test]
fn decimal_text_writes_decimal_digits() {
    for n in [0usize, 1, 9, 10, 11, 99, 100, 101, 1234567890, usize::MAX] {
        assert_eq!(decimal_text(n), format!("{}", n));
    }
}
