use mac_led_tray::protocol::{
    parse_command, reply_is_ok, reply_is_pong, reply_line, write_led_command, Command, HexError,
    Reply,
};
use mac_led_tray::smc::SmcError;
use std::num::IntErrorKind;

fn write(key: &str, data: &[u8]) -> Command {
    Command::Write { key: key.to_string(), data: data.to_vec() }
}

#[test]
fn ping_is_recognised() {
    assert_eq!(parse_command("PING"), Command::Ping);
    assert_eq!(parse_command("  PING \n"), Command::Ping);
    assert_eq!(parse_command("\tPING\r\n"), Command::Ping);
}

#[test]
fn ping_with_more_is_unknown() {
    assert_eq!(parse_command("PING now"), Command::Unknown);
    assert_eq!(parse_command("ping"), Command::Unknown);
    assert_eq!(parse_command("PINGS"), Command::Unknown);
}

#[test]
fn empty_line_is_unknown() {
    assert_eq!(parse_command(""), Command::Unknown);
    assert_eq!(parse_command("   "), Command::Unknown);
}

#[test]
fn write_with_two_bytes() {
    assert_eq!(parse_command("WRITE LS0C ff ff"), write("LS0C", &[0xff, 0xff]));
    assert_eq!(parse_command("WRITE LS0C 00 00\n"), write("LS0C", &[0, 0]));
}

#[test]
fn write_hex_part_splits_on_any_whitespace() {
    assert_eq!(parse_command("WRITE LS0C  7f\t80 \u{a0}1 "), write("LS0C", &[0x7f, 0x80, 1]));
    assert_eq!(parse_command("WRITE key A +B 0f"), write("key", &[0xa, 0xb, 0xf]));
    assert_eq!(parse_command("WRITE key 000ff"), write("key", &[0xff]));
}

#[test]
fn write_with_no_data_field_is_unknown() {
    assert_eq!(parse_command("WRITE LS0C"), Command::Unknown);
    assert_eq!(parse_command("WRITE"), Command::Unknown);
    assert_eq!(parse_command("WRITE LS0C   "), Command::Unknown);
}

#[test]
fn write_with_blank_data_is_unknown() {
    // trimming takes the blank data field away with the line's end
    assert_eq!(parse_command("WRITE LS0C \u{a0}"), Command::Unknown);
}

#[test]
fn write_with_double_space_has_empty_key() {
    assert_eq!(parse_command("WRITE  ff"), write("", &[0xff]));
}

#[test]
fn write_key_is_taken_verbatim() {
    assert_eq!(parse_command("WRITE k\u{e9}y 01"), write("k\u{e9}y", &[1]));
    assert_eq!(parse_command("WRITE a\tb 01"), write("a\tb", &[1]));
}

#[test]
fn write_bad_hex_reports_first_error() {
    assert_eq!(parse_command("WRITE LS0C zz"), Command::BadHex(HexError::InvalidDigit));
    assert_eq!(parse_command("WRITE LS0C 100"), Command::BadHex(HexError::PosOverflow));
    assert_eq!(parse_command("WRITE LS0C ff 1g 100"), Command::BadHex(HexError::InvalidDigit));
    assert_eq!(parse_command("WRITE LS0C ff 100 1g"), Command::BadHex(HexError::PosOverflow));
    assert_eq!(parse_command("WRITE LS0C +"), Command::BadHex(HexError::InvalidDigit));
    assert_eq!(parse_command("WRITE LS0C -1"), Command::BadHex(HexError::InvalidDigit));
    assert_eq!(parse_command("WRITE LS0C 10z"), Command::BadHex(HexError::InvalidDigit));
    assert_eq!(parse_command("WRITE LS0C 100z"), Command::BadHex(HexError::PosOverflow));
}

fn kind_of(e: HexError) -> IntErrorKind {
    match e {
        HexError::Empty => IntErrorKind::Empty,
        HexError::InvalidDigit => IntErrorKind::InvalidDigit,
        HexError::PosOverflow => IntErrorKind::PosOverflow,
    }
}

#[test]
fn hex_tokens_agree_with_from_str_radix() {
    let alphabet = ['0', '1', '9', 'a', 'f', 'F', 'g', '+', '-', '_', '\u{e9}'];
    let mut tokens: Vec<String> = vec![String::new()];
    for _ in 0..4 {
        let mut next = Vec::new();
        for t in &tokens {
            for c in alphabet {
                let mut u = t.clone();
                u.push(c);
                next.push(u);
            }
        }
        tokens.extend(next.into_iter().filter(|t| t.chars().count() <= 4));
        tokens.sort();
        tokens.dedup();
    }
    for tok in tokens.iter().filter(|t| !t.is_empty()) {
        let line = format!("WRITE k {}", tok);
        let expected = u8::from_str_radix(tok, 16);
        match (parse_command(&line), expected) {
            (Command::Write { data, .. }, Ok(v)) => assert_eq!(data, vec![v], "token {:?}", tok),
            (Command::BadHex(e), Err(err)) => assert_eq!(&kind_of(e), err.kind(), "token {:?}", tok),
            (got, want) => panic!("token {:?}: {:?} vs {:?}", tok, got, want),
        }
    }
}

#[test]
fn led_command_is_formatted_as_two_hex_bytes() {
    for v in 0..=255u8 {
        assert_eq!(write_led_command(v), format!("WRITE LS0C {:02x} {:02x}", v, v));
    }
    assert_eq!(write_led_command(0xab), "WRITE LS0C ab ab");
}

#[test]
fn led_command_round_trips_through_the_helper_parser() {
    for v in 0..=255u8 {
        assert_eq!(parse_command(&write_led_command(v)), write("LS0C", &[v, v]));
    }
}

#[test]
fn reply_lines() {
    assert_eq!(reply_line(Reply::Pong), "PONG");
    assert_eq!(reply_line(Reply::Written), "OK");
    assert_eq!(reply_line(Reply::UnknownCommand), "ERR unknown command");
    assert_eq!(reply_line(Reply::Failed(SmcError::CallFailed(-536870206))), "ERR call failed: -536870206");
    assert_eq!(reply_line(Reply::BadHex(HexError::InvalidDigit)), "ERR bad hex: invalid digit found in string");
}

#[test]
fn hex_error_text_matches_std() {
    let cases = [("", HexError::Empty), ("x", HexError::InvalidDigit), ("1ff", HexError::PosOverflow)];
    for (tok, e) in cases {
        let std_err = u8::from_str_radix(tok, 16).unwrap_err();
        assert_eq!(reply_line(Reply::BadHex(e)), format!("ERR bad hex: {}", std_err));
    }
}

#[test]
fn replies_are_recognised() {
    assert!(reply_is_ok("OK"));
    assert!(reply_is_ok("OK extra"));
    assert!(!reply_is_ok("ERR call failed: 1"));
    assert!(!reply_is_ok("O"));
    assert!(!reply_is_ok(""));
    assert!(reply_is_pong("PONG"));
    assert!(!reply_is_pong("PON"));
    assert!(!reply_is_pong("pong"));
    assert!(reply_is_ok(&reply_line(Reply::Written)));
    assert!(reply_is_pong(&reply_line(Reply::Pong)));
    assert!(!reply_is_ok(&reply_line(Reply::Failed(SmcError::CallFailed(5)))));
}
