//! The line protocol between the tray and the privileged helper.
//!
//! The tray sends one command per line and reads one reply line:
//!
//! ```text
//! PING                     -> PONG
//! WRITE <key> <hex bytes>  -> OK / ERR <msg>
//! ```
//!
//! This module parses a command line as the helper does, builds the LED
//! write command as the tray does, and recognises the replies.

use vstd::prelude::*;
use vstd::string::StrSliceExecFns;
use vstd::string::StringExecFns;

use crate::text::decimal_text;
use crate::smc::{SmcError, smc_error_text, error_text};
use crate::text::{join_fields, lemma_split3_fields, hex_digit_str, lower_hex, chars_of, is_space_char, lemma_find_char_at, lemma_find_space_at, lemma_trim_end_at, lemma_trim_start_at, find_char_in, find_space_in, lemma_find_space_bounds, range_equals, skip_spaces_in, split3, trim, trim_bounds, words};

verus! {

/// Why a whitespace-separated token is not a hexadecimal byte; the three
/// kinds that `u8::from_str_radix(token, 16)` reports.
#[derive(Clone, Copy, Debug, PartialEq, Eq, Structural)]
pub enum HexError {
    /// The token is empty.
    Empty,
    /// The token holds a character that is not a hexadecimal digit.
    InvalidDigit,
    /// The token's value does not fit in a byte.
    PosOverflow,
}

/// Value of a hexadecimal digit (either case), or -1 for any other character.
pub open spec fn hex_digit_value(c: char) -> int {
    let u = c as u32;
    if 0x30 <= u <= 0x39 {
        u - 0x30
    } else if 0x61 <= u <= 0x66 {
        u - 0x61 + 10
    } else if 0x41 <= u <= 0x46 {
        u - 0x41 + 10
    } else {
        -1
    }
}

/// Reads the digits `d` after the value `acc` already read: the first
/// character that is no digit is an invalid digit, a digit that takes the
/// value past 255 is an overflow, whichever comes first.
pub open spec fn hex_digits_from(d: Seq<char>, acc: int) -> Result<u8, HexError>
    decreases d.len(),
{
    if d.len() == 0 {
        Ok(acc as u8)
    } else if hex_digit_value(d[0]) < 0 {
        Err(HexError::InvalidDigit)
    } else if acc * 16 + hex_digit_value(d[0]) > 255 {
        Err(HexError::PosOverflow)
    } else {
        hex_digits_from(d.drop_first(), acc * 16 + hex_digit_value(d[0]))
    }
}

/// A byte written in hexadecimal: an optional `+` and at least one digit.
/// A lone sign is an invalid digit; `-` is no sign for an unsigned byte.
pub open spec fn parse_hex_byte(s: Seq<char>) -> Result<u8, HexError> {
    if s.len() == 0 {
        Err(HexError::Empty)
    } else if s.len() == 1 && (s[0] == '+' || s[0] == '-') {
        Err(HexError::InvalidDigit)
    } else if s[0] == '+' {
        hex_digits_from(s.drop_first(), 0)
    } else {
        hex_digits_from(s, 0)
    }
}

/// The bytes of the tokens `ws`, or the error of the first token that is no byte.
pub open spec fn parse_hex_list(ws: Seq<Seq<char>>) -> Result<Seq<u8>, HexError>
    decreases ws.len(),
{
    if ws.len() == 0 {
        Ok(seq![])
    } else {
        match parse_hex_byte(ws[0]) {
            Err(e) => Err(e),
            Ok(b) => match parse_hex_list(ws.drop_first()) {
                Err(e) => Err(e),
                Ok(rest) => Ok(seq![b] + rest),
            },
        }
    }
}

/// `r` with the bytes `p` put in front of its bytes.
pub open spec fn prepend_bytes(p: Seq<u8>, r: Result<Seq<u8>, HexError>) -> Result<
    Seq<u8>,
    HexError,
> {
    match r {
        Ok(x) => Ok(p + x),
        Err(e) => Err(e),
    }
}

/// The view of a byte-list result.
pub open spec fn bytes_result_view(r: Result<Vec<u8>, HexError>) -> Result<Seq<u8>, HexError> {
    match r {
        Ok(v) => Ok(v@),
        Err(e) => Err(e),
    }
}

/// The value of a hexadecimal digit, or -1.
pub fn hex_value(c: char) -> (r: i32)
    ensures
        r == hex_digit_value(c),
{
    let u = c as u32;
    if 0x30 <= u && u <= 0x39 {
        (u - 0x30) as i32
    } else if 0x61 <= u && u <= 0x66 {
        (u - 0x61 + 10) as i32
    } else if 0x41 <= u && u <= 0x46 {
        (u - 0x41 + 10) as i32
    } else {
        -1
    }
}

/// Parses the token `cs[lo..hi]` as a hexadecimal byte.
pub fn parse_hex_token(cs: &Vec<char>, lo: usize, hi: usize) -> (r: Result<u8, HexError>)
    requires
        lo <= hi <= cs@.len(),
    ensures
        r == parse_hex_byte(cs@.subrange(lo as int, hi as int)),
{
    let ghost s = cs@.subrange(lo as int, hi as int);
    if lo == hi {
        return Err(HexError::Empty);
    }
    assert(s[0] == cs@[lo as int]);
    if hi - lo == 1 && (cs[lo] == '+' || cs[lo] == '-') {
        return Err(HexError::InvalidDigit);
    }
    let mut i = if cs[lo] == '+' {
        lo + 1
    } else {
        lo
    };
    assert(parse_hex_byte(s) == hex_digits_from(cs@.subrange(i as int, hi as int), 0)) by {
        if cs@[lo as int] == '+' {
            assert(s.drop_first() =~= cs@.subrange(i as int, hi as int));
        } else {
            assert(s =~= cs@.subrange(i as int, hi as int));
        }
    }
    let mut acc: u32 = 0;
    while i < hi
        invariant
            lo <= i <= hi <= cs@.len(),
            acc <= 255,
            s == cs@.subrange(lo as int, hi as int),
            parse_hex_byte(s) == hex_digits_from(cs@.subrange(i as int, hi as int), acc as int),
        decreases hi - i,
    {
        let ghost d = cs@.subrange(i as int, hi as int);
        assert(d[0] == cs@[i as int]);
        let v = hex_value(cs[i]);
        if v < 0 {
            return Err(HexError::InvalidDigit);
        }
        if acc * 16 + (v as u32) > 255 {
            return Err(HexError::PosOverflow);
        }
        acc = acc * 16 + (v as u32);
        i = i + 1;
        assert(d.drop_first() =~= cs@.subrange(i as int, hi as int));
    }
    Ok(acc as u8)
}

/// Parses the whitespace-separated hexadecimal bytes of `cs[lo..hi]`,
/// stopping at the first token that is no byte.
pub fn parse_hex_bytes(cs: &Vec<char>, lo: usize, hi: usize) -> (r: Result<Vec<u8>, HexError>)
    requires
        lo <= hi <= cs@.len(),
    ensures
        bytes_result_view(r) == parse_hex_list(words(cs@.subrange(lo as int, hi as int))),
{
    let mut out: Vec<u8> = Vec::new();
    let mut pos = lo;
    assert(parse_hex_list(words(cs@.subrange(lo as int, hi as int))) == prepend_bytes(
        out@,
        parse_hex_list(words(cs@.subrange(pos as int, hi as int))),
    )) by {
        match parse_hex_list(words(cs@.subrange(lo as int, hi as int))) {
            Ok(x) => {
                assert(out@ + x =~= x);
            },
            Err(_) => {},
        }
    }
    loop
        invariant
            lo <= pos <= hi <= cs@.len(),
            parse_hex_list(words(cs@.subrange(lo as int, hi as int))) == prepend_bytes(
                out@,
                parse_hex_list(words(cs@.subrange(pos as int, hi as int))),
            ),
        decreases hi - pos,
    {
        let ghost rest = cs@.subrange(pos as int, hi as int);
        let a = skip_spaces_in(cs, pos, hi);
        if a == hi {
            assert(words(rest) =~= seq![]);
            assert(out@ + seq![] =~= out@);
            return Ok(out);
        }
        let b = find_space_in(cs, a, hi);
        proof {
            let t = cs@.subrange(a as int, hi as int);
            assert(t[0] == cs@[a as int]);
            lemma_find_space_bounds(t);
            assert(t.take(b - a) =~= cs@.subrange(a as int, b as int));
            assert(t.skip(b - a) =~= cs@.subrange(b as int, hi as int));
            assert(words(rest) == seq![cs@.subrange(a as int, b as int)] + words(
                cs@.subrange(b as int, hi as int),
            ));
            let w = words(rest);
            assert(w[0] == cs@.subrange(a as int, b as int));
            assert(w.drop_first() =~= words(cs@.subrange(b as int, hi as int)));
        }
        match parse_hex_token(cs, a, b) {
            Err(e) => {
                return Err(e);
            },
            Ok(v) => {
                let ghost before = out@;
                out.push(v);
                proof {
                    match parse_hex_list(words(cs@.subrange(b as int, hi as int))) {
                        Ok(x) => {
                            assert(before + (seq![v] + x) =~= out@ + x);
                        },
                        Err(_) => {},
                    }
                }
                pos = b;
            },
        }
    }
}

/// A command line as the helper reads it.
#[derive(Debug, PartialEq, Eq)]
pub enum Command {
    /// `PING`: a liveness check.
    Ping,
    /// `WRITE <key> <hex bytes>`: write `data` to the SMC key `key`.
    Write { key: String, data: Vec<u8> },
    /// `WRITE` with a token that is no hexadecimal byte.
    BadHex(HexError),
    /// Any other line.
    Unknown,
}

/// The mathematical form of a [`Command`].
pub enum CommandView {
    Ping,
    Write { key: Seq<char>, data: Seq<u8> },
    BadHex(HexError),
    Unknown,
}

impl View for Command {
    type V = CommandView;

    open spec fn view(&self) -> CommandView {
        match self {
            Command::Ping => CommandView::Ping,
            Command::Write { key, data } => CommandView::Write { key: key@, data: data@ },
            Command::BadHex(e) => CommandView::BadHex(*e),
            Command::Unknown => CommandView::Unknown,
        }
    }
}

/// The word `PING`.
pub open spec fn ping_word() -> Seq<char> {
    seq!['P', 'I', 'N', 'G']
}

/// The word `WRITE`.
pub open spec fn write_word() -> Seq<char> {
    seq!['W', 'R', 'I', 'T', 'E']
}

/// The reply `PONG`.
pub open spec fn pong_word() -> Seq<char> {
    seq!['P', 'O', 'N', 'G']
}

/// The reply `OK`.
pub open spec fn ok_word() -> Seq<char> {
    seq!['O', 'K']
}

/// The SMC key of the Mac mini's front LED, `LS0C`.
pub open spec fn led_key() -> Seq<char> {
    seq!['L', 'S', '0', 'C']
}

/// What a command line means: the line is trimmed and split at its first
/// two spaces; `PING` alone is a ping, `WRITE` with two more fields writes
/// the second field's whitespace-separated hexadecimal bytes to the key in
/// the first, and anything else is unknown.
pub open spec fn command_of(line: Seq<char>) -> CommandView {
    let parts = split3(trim(line));
    if parts.len() == 1 && parts[0] == ping_word() {
        CommandView::Ping
    } else if parts.len() == 3 && parts[0] == write_word() {
        match parse_hex_list(words(parts[2])) {
            Ok(d) => CommandView::Write { key: parts[1], data: d },
            Err(e) => CommandView::BadHex(e),
        }
    } else {
        CommandView::Unknown
    }
}

fn ping_chars() -> (v: Vec<char>)
    ensures
        v@ == ping_word(),
{
    let v = vec!['P', 'I', 'N', 'G'];
    assert(v@ =~= ping_word());
    v
}

fn write_chars() -> (v: Vec<char>)
    ensures
        v@ == write_word(),
{
    let v = vec!['W', 'R', 'I', 'T', 'E'];
    assert(v@ =~= write_word());
    v
}

/// Parses one command line as the helper does.
pub fn parse_command(line: &str) -> (c: Command)
    ensures
        c@ == command_of(line@),
{
    let cs = chars_of(line);
    let n = cs.len();
    let (a, b) = trim_bounds(&cs, 0, n);
    assert(cs@.subrange(0, n as int) =~= line@);
    let ghost t = cs@.subrange(a as int, b as int);
    let i1 = find_char_in(&cs, a, b, ' ');
    if i1 == b {
        assert(split3(t) == seq![t]);
        if range_equals(&cs, a, b, &ping_chars()) {
            return Command::Ping;
        } else {
            return Command::Unknown;
        }
    }
    let ghost rest = t.skip(i1 - a + 1);
    assert(rest =~= cs@.subrange(i1 + 1, b as int));
    let i2 = find_char_in(&cs, i1 + 1, b, ' ');
    if i2 == b {
        assert(split3(t).len() == 2);
        return Command::Unknown;
    }
    assert(t.take(i1 - a) =~= cs@.subrange(a as int, i1 as int));
    assert(rest.take(i2 - (i1 + 1)) =~= cs@.subrange(i1 + 1, i2 as int));
    assert(rest.skip(i2 - (i1 + 1) + 1) =~= cs@.subrange(i2 + 1, b as int));
    let ghost parts = split3(t);
    assert(parts.len() == 3);
    assert(parts[0] == cs@.subrange(a as int, i1 as int));
    assert(parts[1] == cs@.subrange(i1 + 1, i2 as int));
    assert(parts[2] == cs@.subrange(i2 + 1, b as int));
    if !range_equals(&cs, a, i1, &write_chars()) {
        return Command::Unknown;
    }
    match parse_hex_bytes(&cs, i2 + 1, b) {
        Ok(data) => {
            let key = String::from_str(line.substring_char(i1 + 1, i2));
            Command::Write { key, data }
        },
        Err(e) => Command::BadHex(e),
    }
}

/// Whether `s` begins with the characters `word`.
pub open spec fn begins_with(s: Seq<char>, word: Seq<char>) -> bool {
    word.len() <= s.len() && s.take(word.len() as int) == word
}

fn begins_with_chars(s: &str, word: &Vec<char>) -> (r: bool)
    ensures
        r == begins_with(s@, word@),
{
    let cs = chars_of(s);
    if word.len() > cs.len() {
        return false;
    }
    let r = range_equals(&cs, 0, word.len(), word);
    assert(cs@.subrange(0, word@.len() as int) =~= s@.take(word@.len() as int));
    r
}

/// Whether the helper answered a ping: its reply line begins with `PONG`.
pub fn reply_is_pong(reply: &str) -> (r: bool)
    ensures
        r == begins_with(reply@, pong_word()),
{
    let w = vec!['P', 'O', 'N', 'G'];
    assert(w@ =~= pong_word());
    begins_with_chars(reply, &w)
}

/// Whether the helper accepted a write: its reply line begins with `OK`.
pub fn reply_is_ok(reply: &str) -> (r: bool)
    ensures
        r == begins_with(reply@, ok_word()),
{
    let w = vec!['O', 'K'];
    assert(w@ =~= ok_word());
    begins_with_chars(reply, &w)
}

/// A byte as two lowercase hexadecimal digits (`format!("{:02x}", v)`).
pub open spec fn hex_pair(v: u8) -> Seq<char> {
    seq![lower_hex(v as int / 16), lower_hex(v as int % 16)]
}

/// The line the tray sends to set the LED to `v`:
/// `WRITE LS0C <vv> <vv>`, the value written to both bytes of the key.
pub open spec fn write_line(v: u8) -> Seq<char> {
    write_word() + seq![' '] + led_key() + seq![' '] + hex_pair(v) + seq![' '] + hex_pair(v)
}

/// The command line that sets the LED to `value` (`Helper::write_led`).
pub fn write_led_command(value: u8) -> (line: String)
    ensures
        line@ == write_line(value),
{
    proof {
        reveal_strlit("WRITE LS0C ");
        reveal_strlit(" ");
    }
    let mut line = String::from_str("WRITE LS0C ");
    let high = hex_digit_str(value / 16);
    let low = hex_digit_str(value % 16);
    line.append(high);
    line.append(low);
    line.append(" ");
    line.append(high);
    line.append(low);
    assert(line@ =~= write_line(value));
    line
}

proof fn lemma_lower_hex(d: int)
    requires
        0 <= d < 16,
    ensures
        !is_space_char(lower_hex(d)),
        lower_hex(d) != ' ',
        lower_hex(d) != '+',
        lower_hex(d) != '-',
        hex_digit_value(lower_hex(d)) == d,
{
}

/// What the helper reads from the tray's LED command is a write of the value
/// to both bytes of the LED key: the tray's encoding and the helper's
/// grammar agree on every byte value.
pub proof fn lemma_write_line_parses(v: u8)
    ensures
        command_of(write_line(v)) == (CommandView::Write { key: led_key(), data: seq![v, v] }),
{
    let hp = hex_pair(v);
    let h0 = v as int / 16;
    let h1 = v as int % 16;
    lemma_lower_hex(h0);
    lemma_lower_hex(h1);
    let l = write_line(v);
    assert(l.len() == 16);
    assert(l[0] == 'W' && l[1] == 'R' && l[2] == 'I' && l[3] == 'T' && l[4] == 'E');
    assert(l[5] == ' ' && l[6] == 'L' && l[7] == 'S' && l[8] == '0' && l[9] == 'C');
    assert(l[10] == ' ' && l[11] == hp[0] && l[12] == hp[1] && l[13] == ' ');
    assert(l[14] == hp[0] && l[15] == hp[1]);
    // trimming leaves the line as it is
    lemma_trim_start_at(l, 0);
    assert(l.skip(0) =~= l);
    lemma_trim_end_at(l, 16);
    assert(l.take(16) =~= l);
    assert(trim(l) == l);
    // the fields
    lemma_find_char_at(l, ' ', 5);
    let rest = l.skip(6);
    assert(rest[0] == 'L' && rest[1] == 'S' && rest[2] == '0' && rest[3] == 'C' && rest[4]
        == ' ');
    lemma_find_char_at(rest, ' ', 4);
    let p2 = rest.skip(5);
    assert(l.take(5) =~= write_word());
    assert(rest.take(4) =~= led_key());
    assert(p2 =~= hp + seq![' '] + hp);
    assert(split3(l) == seq![write_word(), led_key(), p2]);
    // the words of the last field
    assert(p2[0] == hp[0] && p2[1] == hp[1] && p2[2] == ' ' && p2[3] == hp[0] && p2[4] == hp[1]);
    lemma_trim_start_at(p2, 0);
    assert(p2.skip(0) =~= p2);
    lemma_find_space_at(p2, 2);
    let q = p2.skip(2);
    assert(q[0] == ' ' && q[1] == hp[0] && q[2] == hp[1]);
    lemma_trim_start_at(q, 1);
    let q1 = q.skip(1);
    assert(q1 =~= hp);
    lemma_find_space_at(q1, 2);
    let e = q1.skip(2);
    assert(e.len() == 0);
    lemma_trim_start_at(e, 0);
    assert(e.skip(0) =~= e);
    assert(words(e) == Seq::<Seq<char>>::empty());
    assert(q1.take(2) =~= hp);
    assert(words(q) == seq![hp] + words(e));
    assert(p2.take(2) =~= hp);
    assert(words(p2) == seq![hp] + words(q));
    assert(words(p2) =~= seq![hp, hp]);
    // the bytes
    assert(hp.drop_first() =~= seq![hp[1]]);
    assert(seq![hp[1]].drop_first() =~= Seq::<char>::empty());
    assert(h0 * 16 + h1 == v);
    assert(hex_digits_from(Seq::<char>::empty(), v as int) == Ok::<u8, HexError>(v));
    assert(hex_digits_from(seq![hp[1]], h0) == Ok::<u8, HexError>(v));
    assert(hex_digits_from(hp, 0) == Ok::<u8, HexError>(v));
    assert(parse_hex_byte(hp) == Ok::<u8, HexError>(v));
    let ws = seq![hp, hp];
    assert(ws.drop_first() =~= seq![hp]);
    assert(seq![hp].drop_first() =~= Seq::<Seq<char>>::empty());
    assert(parse_hex_list(Seq::<Seq<char>>::empty()) == Ok::<Seq<u8>, HexError>(seq![]));
    assert(parse_hex_list(seq![hp]) == Ok::<Seq<u8>, HexError>(seq![v] + seq![]));
    assert(seq![v] + Seq::<u8>::empty() =~= seq![v]);
    assert(parse_hex_list(ws) == Ok::<Seq<u8>, HexError>(seq![v] + seq![v]));
    assert(seq![v] + seq![v] =~= seq![v, v]);
}

/// The helper's answer to one command line.
#[derive(Clone, Copy, Debug, PartialEq, Eq, Structural)]
pub enum Reply {
    /// The answer to `PING`.
    Pong,
    /// The key was written.
    Written,
    /// The key write failed.
    Failed(SmcError),
    /// A `WRITE` held a token that is no hexadecimal byte.
    BadHex(HexError),
    /// The line was no command.
    UnknownCommand,
}

/// How a hexadecimal parse failure reads (as `ParseIntError` shows it).
pub open spec fn hex_error_text(e: HexError) -> Seq<char> {
    match e {
        HexError::Empty => "cannot parse integer from empty string"@,
        HexError::InvalidDigit => "invalid digit found in string"@,
        HexError::PosOverflow => "number too large to fit in target type"@,
    }
}

/// The reply line the helper writes: `PONG`, `OK`, or `ERR` and the reason.
pub open spec fn reply_text(r: Reply) -> Seq<char> {
    match r {
        Reply::Pong => "PONG"@,
        Reply::Written => "OK"@,
        Reply::Failed(e) => "ERR "@ + smc_error_text(e),
        Reply::BadHex(e) => "ERR bad hex: "@ + hex_error_text(e),
        Reply::UnknownCommand => "ERR unknown command"@,
    }
}

/// The reply line for `r`.
pub fn reply_line(r: Reply) -> (line: String)
    ensures
        line@ == reply_text(r),
{
    match r {
        Reply::Pong => String::from_str("PONG"),
        Reply::Written => String::from_str("OK"),
        Reply::Failed(e) => String::from_str("ERR ").concat(error_text(e).as_str()),
        Reply::BadHex(e) => {
            let reason = match e {
                HexError::Empty => "cannot parse integer from empty string",
                HexError::InvalidDigit => "invalid digit found in string",
                HexError::PosOverflow => "number too large to fit in target type",
            };
            String::from_str("ERR bad hex: ").concat(reason)
        },
        Reply::UnknownCommand => String::from_str("ERR unknown command"),
    }
}

/// The tray takes a reply for a successful write exactly when the helper
/// wrote the key, and for a live helper exactly when it answered a ping.
pub proof fn lemma_replies_understood(r: Reply)
    ensures
        begins_with(reply_text(r), ok_word()) <==> r == Reply::Written,
        begins_with(reply_text(r), pong_word()) <==> r == Reply::Pong,
{
    reveal_strlit("PONG");
    reveal_strlit("OK");
    reveal_strlit("ERR ");
    reveal_strlit("ERR bad hex: ");
    reveal_strlit("ERR unknown command");
    let t = reply_text(r);
    match r {
        Reply::Pong => {
            assert(t.take(4) =~= pong_word());
            assert(t[0] != 'O');
        },
        Reply::Written => {
            assert(t.take(2) =~= ok_word());
            assert(t.len() < 4);
        },
        Reply::Failed(e) => {
            assert(t[0] == 'E');
        },
        Reply::BadHex(e) => {
            assert(t[0] == 'E');
        },
        Reply::UnknownCommand => {
            assert(t[0] == 'E');
        },
    }
    if begins_with(t, ok_word()) {
        assert(t.take(2)[0] == t[0]);
    }
    if begins_with(t, pong_word()) {
        assert(t.take(4)[0] == t[0]);
    }
}

/// The bytes of a token list come in the order of the tokens, one per token:
/// the list parses exactly when every token does, and a failure is the
/// failure of the first token that is no byte.
pub proof fn lemma_hex_list_in_order(ws: Seq<Seq<char>>)
    ensures
        (parse_hex_list(ws) is Ok) <==> (forall|i: int|
            0 <= i < ws.len() ==> (#[trigger] parse_hex_byte(ws[i])) is Ok),
        parse_hex_list(ws) matches Ok(d) ==> {
            &&& d.len() == ws.len()
            &&& forall|i: int|
                0 <= i < ws.len() ==> #[trigger] parse_hex_byte(ws[i]) == Ok::<u8, HexError>(d[i])
        },
        parse_hex_list(ws) matches Err(e) ==> exists|i: int|
            {
                &&& 0 <= i < ws.len()
                &&& #[trigger] parse_hex_byte(ws[i]) == Err::<u8, HexError>(e)
                &&& forall|j: int| 0 <= j < i ==> (#[trigger] parse_hex_byte(ws[j])) is Ok
            },
    decreases ws.len(),
{
    if ws.len() > 0 {
        let t = ws.drop_first();
        lemma_hex_list_in_order(t);
        assert forall|i: int| 1 <= i < ws.len() implies #[trigger] parse_hex_byte(ws[i])
            == parse_hex_byte(t[i - 1]) by {
            assert(ws[i] == t[i - 1]);
        }
        match parse_hex_byte(ws[0]) {
            Err(e) => {
                assert(parse_hex_byte(ws[0]) == Err::<u8, HexError>(e));
            },
            Ok(b) => {
                match parse_hex_list(t) {
                    Ok(rest) => {
                        let d = seq![b] + rest;
                        assert forall|i: int| 0 <= i < ws.len() implies #[trigger] parse_hex_byte(
                            ws[i],
                        ) == Ok::<u8, HexError>(d[i]) by {
                            if i > 0 {
                                assert(parse_hex_byte(t[i - 1]) == Ok::<u8, HexError>(rest[i - 1]));
                            }
                        }
                    },
                    Err(e) => {
                        let i = choose|i: int|
                            {
                                &&& 0 <= i < t.len()
                                &&& #[trigger] parse_hex_byte(t[i]) == Err::<u8, HexError>(e)
                                &&& forall|j: int|
                                    0 <= j < i ==> (#[trigger] parse_hex_byte(t[j])) is Ok
                            };
                        assert(parse_hex_byte(ws[i + 1]) == Err::<u8, HexError>(e));
                        assert forall|j: int| 0 <= j < i + 1 implies (#[trigger] parse_hex_byte(
                            ws[j],
                        )) is Ok by {
                            if j > 0 {
                                assert(parse_hex_byte(ws[j]) == parse_hex_byte(t[j - 1]));
                            }
                        }
                        assert(!(parse_hex_byte(ws[i + 1]) is Ok));
                    },
                }
            },
        }
    }
}

/// A command line is a write exactly when it reads `WRITE`, a key and a
/// data field whose every word is a hexadecimal byte; the written data is
/// then those bytes, one per word, in the order of the words, and the key is
/// the field between the first two spaces.
pub proof fn lemma_write_data_in_word_order(line: Seq<char>)
    ensures
        ({
            let parts = split3(trim(line));
            let ws = words(parts[2]);
            &&& command_of(line) is Write <==> (parts.len() == 3 && parts[0] == write_word()
                && forall|i: int| 0 <= i < ws.len() ==> (#[trigger] parse_hex_byte(ws[i])) is Ok)
            &&& command_of(line) is BadHex <==> (parts.len() == 3 && parts[0] == write_word()
                && !forall|i: int| 0 <= i < ws.len() ==> (#[trigger] parse_hex_byte(ws[i])) is Ok)
            &&& command_of(line) matches CommandView::Write { key, data } ==> {
                &&& key == parts[1]
                &&& data.len() == ws.len()
                &&& forall|i: int|
                    0 <= i < ws.len() ==> #[trigger] parse_hex_byte(ws[i]) == Ok::<u8, HexError>(
                        data[i],
                    )
            }
            &&& command_of(line) matches CommandView::BadHex(e) ==> exists|i: int|
                {
                    &&& 0 <= i < ws.len()
                    &&& #[trigger] parse_hex_byte(ws[i]) == Err::<u8, HexError>(e)
                    &&& forall|j: int| 0 <= j < i ==> (#[trigger] parse_hex_byte(ws[j])) is Ok
                }
        }),
{
    let parts = split3(trim(line));
    lemma_hex_list_in_order(words(parts[2]));
    lemma_split3_fields(trim(line));
}

/// A two-digit hexadecimal token is the byte sixteen times its first digit
/// plus its second, in either case.
pub proof fn lemma_two_digit_token(s: Seq<char>)
    requires
        s.len() == 2,
        hex_digit_value(s[0]) >= 0,
        hex_digit_value(s[1]) >= 0,
    ensures
        parse_hex_byte(s) == Ok::<u8, HexError>((hex_digit_value(s[0]) * 16 + hex_digit_value(s[1])) as u8),
{
    let a = hex_digit_value(s[0]);
    let b = hex_digit_value(s[1]);
    assert(a <= 15 && b <= 15);
    assert(s[0] != '+' && s[0] != '-');
    assert(s.drop_first() =~= seq![s[1]]);
    assert(seq![s[1]].drop_first() =~= Seq::<char>::empty());
    assert(hex_digits_from(Seq::<char>::empty(), a * 16 + b) == Ok::<u8, HexError>((a * 16 + b) as u8));
    assert(hex_digits_from(seq![s[1]], a) == Ok::<u8, HexError>((a * 16 + b) as u8));
    assert(hex_digits_from(s, 0) == Ok::<u8, HexError>((a * 16 + b) as u8));
}

proof fn lemma_digits_push(d: Seq<char>, acc: int, c: char)
    requires
        0 <= acc <= 255,
        hex_digit_value(c) >= 0,
    ensures
        hex_digits_from(d, acc) matches Ok(v) ==> hex_digits_from(d.push(c), acc) == (if v * 16
            + hex_digit_value(c) > 255 {
            Err::<u8, HexError>(HexError::PosOverflow)
        } else {
            Ok::<u8, HexError>((v * 16 + hex_digit_value(c)) as u8)
        }),
        hex_digits_from(d, acc) matches Err(e) ==> hex_digits_from(d.push(c), acc) == Err::<
            u8,
            HexError,
        >(e),
    decreases d.len(),
{
    let dc = hex_digit_value(c);
    assert(dc <= 15);
    if d.len() == 0 {
        assert(d.push(c) =~= seq![c]);
        assert(seq![c].drop_first() =~= Seq::<char>::empty());
        assert(hex_digits_from(d, acc) == Ok::<u8, HexError>(acc as u8));
        assert((acc as u8) as int == acc);
        if acc * 16 + dc <= 255 {
            assert(hex_digits_from(Seq::<char>::empty(), acc * 16 + dc) == Ok::<u8, HexError>(
                (acc * 16 + dc) as u8,
            ));
            assert(hex_digits_from(seq![c], acc) == Ok::<u8, HexError>((acc * 16 + dc) as u8));
        } else {
            assert(hex_digits_from(seq![c], acc) == Err::<u8, HexError>(HexError::PosOverflow));
        }
    } else {
        assert(d.push(c)[0] == d[0]);
        assert(d.push(c).drop_first() =~= d.drop_first().push(c));
        let x = hex_digit_value(d[0]);
        assert(x <= 15);
        if x >= 0 && acc * 16 + x <= 255 {
            lemma_digits_push(d.drop_first(), acc * 16 + x, c);
        }
    }
}

/// How a hexadecimal byte token is read, digit by digit: a lone digit is
/// its value, each further digit multiplies by sixteen and adds, and a value
/// past 255 overflows. An empty token, a lone sign, and a token whose
/// characters after an optional `+` are not all digits are no byte.
pub proof fn lemma_hex_token_reading(s: Seq<char>, c: char)
    ensures
        hex_digit_value(c) >= 0 ==> parse_hex_byte(seq![c]) == Ok::<u8, HexError>(
            hex_digit_value(c) as u8,
        ),
        hex_digit_value(c) >= 0 ==> parse_hex_byte(seq!['+', c]) == Ok::<u8, HexError>(
            hex_digit_value(c) as u8,
        ),
        hex_digit_value(c) >= 0 ==> (parse_hex_byte(s) matches Ok(v) ==> parse_hex_byte(s.push(c))
            == (if v * 16 + hex_digit_value(c) > 255 {
            Err::<u8, HexError>(HexError::PosOverflow)
        } else {
            Ok::<u8, HexError>((v * 16 + hex_digit_value(c)) as u8)
        })),
        parse_hex_byte(Seq::<char>::empty()) == Err::<u8, HexError>(HexError::Empty),
        parse_hex_byte(seq!['+']) == Err::<u8, HexError>(HexError::InvalidDigit),
        parse_hex_byte(seq!['-']) == Err::<u8, HexError>(HexError::InvalidDigit),
        hex_digit_value(c) < 0 && c != '+' ==> parse_hex_byte(seq![c].add(s)) == Err::<
            u8,
            HexError,
        >(HexError::InvalidDigit),
{
    let dc = hex_digit_value(c);
    if dc >= 0 {
        assert(dc <= 15);
        assert(c != '+' && c != '-');
        assert(seq![c].drop_first() =~= Seq::<char>::empty());
        assert(seq!['+', c].drop_first() =~= seq![c]);
        assert(hex_digits_from(Seq::<char>::empty(), dc) == Ok::<u8, HexError>(dc as u8));
        assert(hex_digits_from(seq![c], 0) == Ok::<u8, HexError>(dc as u8));
        if parse_hex_byte(s) is Ok {
            assert(s.len() > 0);
            assert(s.push(c)[0] == s[0]);
            assert(s.push(c).len() >= 2);
            if s[0] == '+' {
                assert(s.push(c).drop_first() =~= s.drop_first().push(c));
                lemma_digits_push(s.drop_first(), 0, c);
            } else {
                lemma_digits_push(s, 0, c);
            }
        }
    }
    let t = seq![c].add(s);
    assert(t[0] == c);
    if dc < 0 && c != '+' {
        if t.len() == 1 && c == '-' {
        } else {
            assert(hex_digits_from(t, 0) == Err::<u8, HexError>(HexError::InvalidDigit));
        }
    }
}

/// Recognising a ping: a line is `PING` exactly when, trimmed, it is the
/// word `PING` and nothing else.
pub proof fn lemma_ping_exactly(line: Seq<char>)
    ensures
        (command_of(line) == CommandView::Ping) <==> trim(line) == ping_word(),
{
    let t = trim(line);
    lemma_split3_fields(t);
    let parts = split3(t);
    if t == ping_word() {
        lemma_find_char_at(t, ' ', 4);
        assert(parts == seq![t]);
    }
    if command_of(line) == CommandView::Ping {
        assert(parts.len() == 1);
        assert(join_fields(parts) == parts[0]);
    }
}

/// The tray's LED command is `WRITE LS0C ` followed by the value in two
/// lowercase hexadecimal digits, a space and the same two digits again.
pub proof fn lemma_led_command_shape(v: u8)
    ensures
        ({
            let l = write_line(v);
            let is_lower_digit = |c: char|
                (0x30 <= (c as u32) <= 0x39) || (0x61 <= (c as u32) <= 0x66);
            &&& l.len() == 16
            &&& l.take(11) == seq!['W', 'R', 'I', 'T', 'E', ' ', 'L', 'S', '0', 'C', ' ']
            &&& is_lower_digit(l[11]) && is_lower_digit(l[12])
            &&& hex_digit_value(l[11]) * 16 + hex_digit_value(l[12]) == v
            &&& l[13] == ' '
            &&& l[14] == l[11] && l[15] == l[12]
        }),
{
    let l = write_line(v);
    assert(l.take(11) =~= seq!['W', 'R', 'I', 'T', 'E', ' ', 'L', 'S', '0', 'C', ' ']);
    assert(hex_digit_value(lower_hex(v as int / 16)) == v as int / 16);
    assert(hex_digit_value(lower_hex(v as int % 16)) == v as int % 16);
}

/// Every reply but `PONG` and `OK` is an error line beginning `ERR `; a
/// failed driver call names its kernel code in decimal.
pub proof fn lemma_error_replies(r: Reply, k: i32)
    ensures
        r != Reply::Pong && r != Reply::Written ==> reply_text(r).len() >= 4 && reply_text(r).take(4)
            == seq!['E', 'R', 'R', ' '],
        reply_text(Reply::Failed(SmcError::CallFailed(k))).take(17) == seq![
            'E',
            'R',
            'R',
            ' ',
            'c',
            'a',
            'l',
            'l',
            ' ',
            'f',
            'a',
            'i',
            'l',
            'e',
            'd',
            ':',
            ' ',
        ],
        reply_text(Reply::Failed(SmcError::CallFailed(k))).skip(17) == decimal_text(k as int),
{
    reveal_strlit("ERR ");
    reveal_strlit("ERR bad hex: ");
    reveal_strlit("ERR unknown command");
    reveal_strlit("call failed: ");
    let f = reply_text(Reply::Failed(SmcError::CallFailed(k)));
    let p = "ERR "@ + "call failed: "@;
    assert(f =~= p + decimal_text(k as int));
    assert(f.take(17) =~= p);
    assert(p =~= seq!['E', 'R', 'R', ' ', 'c', 'a', 'l', 'l', ' ', 'f', 'a', 'i', 'l', 'e', 'd', ':', ' ']);
    assert(f.skip(17) =~= decimal_text(k as int));
    match r {
        Reply::Failed(e) => {
            assert(reply_text(r).take(4) =~= "ERR "@);
        },
        Reply::BadHex(e) => {
            assert(reply_text(r).take(4) =~= "ERR bad hex: "@.take(4));
        },
        Reply::UnknownCommand => {
            assert(reply_text(r).take(4) =~= "ERR unknown command"@.take(4));
        },
        _ => {},
    }
}

} // verus!
