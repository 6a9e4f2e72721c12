use mac_led_tray::text::{chars_of, decimal, is_whitespace, trimmed};

#[test]
fn whitespace_agrees_with_std_for_every_char() {
    for u in 0..=0x10FFFFu32 {
        if let Some(c) = char::from_u32(u) {
            assert_eq!(is_whitespace(c), c.is_whitespace(), "U+{:04X}", u);
        }
    }
}

#[test]
fn trimmed_agrees_with_str_trim() {
    let cases = ["", " ", " a ", "\u{3000}x y\u{85}", "abc", "\t\n OK \r\n", "\u{200b}z\u{200b}"];
    for s in cases {
        assert_eq!(trimmed(s), s.trim());
    }
}

#[test]
fn chars_of_keeps_every_char() {
    let s = "a\u{e9}\u{1F4A1}z";
    assert_eq!(chars_of(s), s.chars().collect::<Vec<char>>());
}

#[test]
fn decimal_agrees_with_to_string() {
    for n in [0, 7, 10, -1, 42, -536870206, i32::MAX, i32::MIN, 1000000] {
        assert_eq!(decimal(n), n.to_string());
    }
}
