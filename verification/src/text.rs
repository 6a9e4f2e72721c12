//! Character-level text handling shared by the helper protocol and the tray:
//! Unicode whitespace, trimming, and splitting into fields and words, each
//! stated over the character sequence of a string.

use vstd::prelude::*;
use vstd::string::StrSliceExecFns;
use vstd::string::StringExecFns;

verus! {

/// The Unicode `White_Space` property, the whitespace that `str::trim` and
/// `str::split_whitespace` remove.
pub open spec fn is_space_char(c: char) -> bool {
    let u = c as u32;
    ||| 0x09 <= u <= 0x0d
    ||| u == 0x20
    ||| u == 0x85
    ||| u == 0xa0
    ||| u == 0x1680
    ||| 0x2000 <= u <= 0x200a
    ||| u == 0x2028
    ||| u == 0x2029
    ||| u == 0x202f
    ||| u == 0x205f
    ||| u == 0x3000
}

/// `s` without its leading whitespace.
pub open spec fn trim_start(s: Seq<char>) -> Seq<char>
    decreases s.len(),
{
    if s.len() > 0 && is_space_char(s[0]) {
        trim_start(s.drop_first())
    } else {
        s
    }
}

/// `s` without its trailing whitespace.
pub open spec fn trim_end(s: Seq<char>) -> Seq<char>
    decreases s.len(),
{
    if s.len() > 0 && is_space_char(s.last()) {
        trim_end(s.drop_last())
    } else {
        s
    }
}

/// `s` without leading and trailing whitespace (`str::trim`).
pub open spec fn trim(s: Seq<char>) -> Seq<char> {
    trim_end(trim_start(s))
}

/// Index of the first occurrence of `c` in `s`, or `s.len()` if there is none.
pub open spec fn find_char(s: Seq<char>, c: char) -> int
    decreases s.len(),
{
    if s.len() == 0 {
        0
    } else if s[0] == c {
        0
    } else {
        1 + find_char(s.drop_first(), c)
    }
}

/// Index of the first whitespace character in `s`, or `s.len()` if there is none.
pub open spec fn find_space(s: Seq<char>) -> int
    decreases s.len(),
{
    if s.len() == 0 {
        0
    } else if is_space_char(s[0]) {
        0
    } else {
        1 + find_space(s.drop_first())
    }
}

/// At most three fields of `s` separated by the space character, the last
/// one keeping any further spaces (`str::splitn(3, ' ')`).
pub open spec fn split3(s: Seq<char>) -> Seq<Seq<char>> {
    let i = find_char(s, ' ');
    if i == s.len() {
        seq![s]
    } else {
        let rest = s.skip(i + 1);
        let j = find_char(rest, ' ');
        if j == rest.len() {
            seq![s.take(i), rest]
        } else {
            seq![s.take(i), rest.take(j), rest.skip(j + 1)]
        }
    }
}

/// The non-empty runs of non-whitespace characters of `s`, in order
/// (`str::split_whitespace`).
pub open spec fn words(s: Seq<char>) -> Seq<Seq<char>>
    decreases s.len(),
{
    let t = trim_start(s);
    if t.len() == 0 {
        seq![]
    } else {
        proof {
            lemma_trim_start_shrinks(s);
            lemma_find_space_bounds(t);
        }
        seq![t.take(find_space(t))] + words(t.skip(find_space(t)))
    }
}

pub proof fn lemma_trim_start_shrinks(s: Seq<char>)
    ensures
        trim_start(s).len() <= s.len(),
        trim_start(s).len() == 0 || !is_space_char(trim_start(s)[0]),
        trim_start(s) == s.skip(s.len() - trim_start(s).len()),
    decreases s.len(),
{
    if s.len() > 0 && is_space_char(s[0]) {
        lemma_trim_start_shrinks(s.drop_first());
        assert(s.drop_first().skip(s.drop_first().len() - trim_start(s.drop_first()).len())
            =~= s.skip(s.len() - trim_start(s).len()));
    } else {
        assert(s.skip(0) =~= s);
    }
}

pub proof fn lemma_find_space_bounds(s: Seq<char>)
    ensures
        0 <= find_space(s) <= s.len(),
        s.len() > 0 && !is_space_char(s[0]) ==> find_space(s) >= 1,
        find_space(s) < s.len() ==> is_space_char(s[find_space(s)]),
        forall|k: int| 0 <= k < find_space(s) ==> !is_space_char(#[trigger] s[k]),
    decreases s.len(),
{
    if s.len() > 0 && !is_space_char(s[0]) {
        lemma_find_space_bounds(s.drop_first());
        assert forall|k: int| 0 <= k < find_space(s) implies !is_space_char(#[trigger] s[k]) by {
            if k > 0 {
                assert(s[k] == s.drop_first()[k - 1]);
            }
        }
    }
}

/// `trim_start` drops exactly the whitespace before index `i` when `i` is the
/// first non-whitespace position.
pub proof fn lemma_trim_start_at(s: Seq<char>, i: int)
    requires
        0 <= i <= s.len(),
        forall|k: int| 0 <= k < i ==> is_space_char(#[trigger] s[k]),
        i == s.len() || !is_space_char(s[i]),
    ensures
        trim_start(s) == s.skip(i),
    decreases i,
{
    if i == 0 {
        assert(s.skip(0) =~= s);
    } else {
        assert(is_space_char(s[0]));
        let t = s.drop_first();
        assert forall|k: int| 0 <= k < i - 1 implies is_space_char(#[trigger] t[k]) by {
            assert(t[k] == s[k + 1]);
        }
        if i < s.len() {
            assert(t[i - 1] == s[i]);
        }
        lemma_trim_start_at(t, i - 1);
        assert(t.skip(i - 1) =~= s.skip(i));
    }
}

/// `trim_end` drops exactly the whitespace from index `j` on when `j` is one
/// past the last non-whitespace position.
pub proof fn lemma_trim_end_at(s: Seq<char>, j: int)
    requires
        0 <= j <= s.len(),
        forall|k: int| j <= k < s.len() ==> is_space_char(#[trigger] s[k]),
        j == 0 || !is_space_char(s[j - 1]),
    ensures
        trim_end(s) == s.take(j),
    decreases s.len() - j,
{
    if j == s.len() {
        assert(s.take(j) =~= s);
    } else {
        assert(is_space_char(s.last()));
        let t = s.drop_last();
        assert forall|k: int| j <= k < t.len() implies is_space_char(#[trigger] t[k]) by {
            assert(t[k] == s[k]);
        }
        if j > 0 {
            assert(t[j - 1] == s[j - 1]);
        }
        lemma_trim_end_at(t, j);
        assert(t.take(j) =~= s.take(j));
    }
}

/// `find_char` is the first index holding `c`.
pub proof fn lemma_find_char_at(s: Seq<char>, c: char, i: int)
    requires
        0 <= i <= s.len(),
        forall|k: int| 0 <= k < i ==> #[trigger] s[k] != c,
        i == s.len() || s[i] == c,
    ensures
        find_char(s, c) == i,
    decreases i,
{
    if i > 0 {
        let t = s.drop_first();
        assert forall|k: int| 0 <= k < i - 1 implies #[trigger] t[k] != c by {
            assert(t[k] == s[k + 1]);
        }
        if i < s.len() {
            assert(t[i - 1] == s[i]);
        }
        lemma_find_char_at(t, c, i - 1);
    }
}

/// `find_space` is the first whitespace index.
pub proof fn lemma_find_space_at(s: Seq<char>, i: int)
    requires
        0 <= i <= s.len(),
        forall|k: int| 0 <= k < i ==> !is_space_char(#[trigger] s[k]),
        i == s.len() || is_space_char(s[i]),
    ensures
        find_space(s) == i,
    decreases i,
{
    if i > 0 {
        let t = s.drop_first();
        assert forall|k: int| 0 <= k < i - 1 implies !is_space_char(#[trigger] t[k]) by {
            assert(t[k] == s[k + 1]);
        }
        if i < s.len() {
            assert(t[i - 1] == s[i]);
        }
        lemma_find_space_at(t, i - 1);
    }
}

/// Whether `c` has the Unicode `White_Space` property (`char::is_whitespace`).
pub fn is_whitespace(c: char) -> (r: bool)
    ensures
        r == is_space_char(c),
{
    let u = c as u32;
    (0x09 <= u && u <= 0x0d) || u == 0x20 || u == 0x85 || u == 0xa0 || u == 0x1680 || (0x2000
        <= u && u <= 0x200a) || u == 0x2028 || u == 0x2029 || u == 0x202f || u == 0x205f || u
        == 0x3000
}

/// The characters of `s`, in order.
pub fn chars_of(s: &str) -> (v: Vec<char>)
    ensures
        v@ == s@,
{
    let n = s.unicode_len();
    let mut v: Vec<char> = Vec::new();
    let mut i: usize = 0;
    while i < n
        invariant
            n == s@.len(),
            i <= n,
            v@ == s@.take(i as int),
        decreases n - i,
    {
        v.push(s.get_char(i));
        i = i + 1;
        assert(v@ =~= s@.take(i as int));
    }
    assert(s@.take(n as int) =~= s@);
    v
}

/// The bounds `(start, end)` within `cs[lo..hi]` of that range with its
/// leading and trailing whitespace removed.
pub fn trim_bounds(cs: &Vec<char>, lo: usize, hi: usize) -> (r: (usize, usize))
    requires
        lo <= hi <= cs@.len(),
    ensures
        lo <= r.0 <= r.1 <= hi,
        cs@.subrange(r.0 as int, r.1 as int) == trim(cs@.subrange(lo as int, hi as int)),
{
    let ghost s = cs@.subrange(lo as int, hi as int);
    let mut a = lo;
    while a < hi && is_whitespace(cs[a])
        invariant
            lo <= a <= hi <= cs@.len(),
            forall|k: int| lo <= k < a ==> is_space_char(#[trigger] cs@[k]),
        decreases hi - a,
    {
        a = a + 1;
    }
    proof {
        assert forall|k: int| 0 <= k < a - lo implies is_space_char(#[trigger] s[k]) by {
            assert(s[k] == cs@[lo + k]);
        }
        if a < hi {
            assert(s[a - lo] == cs@[a as int]);
        }
        lemma_trim_start_at(s, a - lo);
        assert(s.skip(a - lo) =~= cs@.subrange(a as int, hi as int));
    }
    let mut b = hi;
    while b > a && is_whitespace(cs[b - 1])
        invariant
            lo <= a <= b <= hi <= cs@.len(),
            forall|k: int| b <= k < hi ==> is_space_char(#[trigger] cs@[k]),
        decreases b - a,
    {
        b = b - 1;
    }
    proof {
        let t = cs@.subrange(a as int, hi as int);
        assert forall|k: int| b - a <= k < t.len() implies is_space_char(#[trigger] t[k]) by {
            assert(t[k] == cs@[a + k]);
        }
        if b > a {
            assert(t[b - a - 1] == cs@[b - 1]);
        }
        lemma_trim_end_at(t, b - a);
        assert(t.take(b - a) =~= cs@.subrange(a as int, b as int));
    }
    (a, b)
}

/// The first index in `cs[lo..hi]` holding `c`, or `hi`.
pub fn find_char_in(cs: &Vec<char>, lo: usize, hi: usize, c: char) -> (r: usize)
    requires
        lo <= hi <= cs@.len(),
    ensures
        lo <= r <= hi,
        r - lo == find_char(cs@.subrange(lo as int, hi as int), c),
{
    let mut i = lo;
    while i < hi && cs[i] != c
        invariant
            lo <= i <= hi <= cs@.len(),
            forall|k: int| lo <= k < i ==> #[trigger] cs@[k] != c,
        decreases hi - i,
    {
        i = i + 1;
    }
    proof {
        let s = cs@.subrange(lo as int, hi as int);
        assert forall|k: int| 0 <= k < i - lo implies #[trigger] s[k] != c by {
            assert(s[k] == cs@[lo + k]);
        }
        if i < hi {
            assert(s[i - lo] == cs@[i as int]);
        }
        lemma_find_char_at(s, c, i - lo);
    }
    i
}

/// The first whitespace index in `cs[lo..hi]`, or `hi`.
pub fn find_space_in(cs: &Vec<char>, lo: usize, hi: usize) -> (r: usize)
    requires
        lo <= hi <= cs@.len(),
    ensures
        lo <= r <= hi,
        r - lo == find_space(cs@.subrange(lo as int, hi as int)),
{
    let mut i = lo;
    while i < hi && !is_whitespace(cs[i])
        invariant
            lo <= i <= hi <= cs@.len(),
            forall|k: int| lo <= k < i ==> !is_space_char(#[trigger] cs@[k]),
        decreases hi - i,
    {
        i = i + 1;
    }
    proof {
        let s = cs@.subrange(lo as int, hi as int);
        assert forall|k: int| 0 <= k < i - lo implies !is_space_char(#[trigger] s[k]) by {
            assert(s[k] == cs@[lo + k]);
        }
        if i < hi {
            assert(s[i - lo] == cs@[i as int]);
        }
        lemma_find_space_at(s, i - lo);
    }
    i
}

/// The first non-whitespace index in `cs[lo..hi]`, or `hi`, with what that
/// says of `words`: the range's words are those from that index on.
pub fn skip_spaces_in(cs: &Vec<char>, lo: usize, hi: usize) -> (r: usize)
    requires
        lo <= hi <= cs@.len(),
    ensures
        lo <= r <= hi,
        r == hi || !is_space_char(cs@[r as int]),
        trim_start(cs@.subrange(lo as int, hi as int)) == cs@.subrange(r as int, hi as int),
{
    let mut a = lo;
    while a < hi && is_whitespace(cs[a])
        invariant
            lo <= a <= hi <= cs@.len(),
            forall|k: int| lo <= k < a ==> is_space_char(#[trigger] cs@[k]),
        decreases hi - a,
    {
        a = a + 1;
    }
    proof {
        let s = cs@.subrange(lo as int, hi as int);
        assert forall|k: int| 0 <= k < a - lo implies is_space_char(#[trigger] s[k]) by {
            assert(s[k] == cs@[lo + k]);
        }
        if a < hi {
            assert(s[a - lo] == cs@[a as int]);
        }
        lemma_trim_start_at(s, a - lo);
        assert(s.skip(a - lo) =~= cs@.subrange(a as int, hi as int));
    }
    a
}

/// Whether `cs[lo..hi]` is exactly `word`.
pub fn range_equals(cs: &Vec<char>, lo: usize, hi: usize, word: &Vec<char>) -> (r: bool)
    requires
        lo <= hi <= cs@.len(),
    ensures
        r == (cs@.subrange(lo as int, hi as int) == word@),
{
    if hi - lo != word.len() {
        return false;
    }
    let mut i: usize = 0;
    while i < word.len()
        invariant
            lo <= hi <= cs@.len(),
            hi - lo == word@.len(),
            i <= word@.len(),
            forall|k: int| 0 <= k < i ==> cs@[lo + k] == #[trigger] word@[k],
        decreases word@.len() - i,
    {
        if cs[lo + i] != word[i] {
            assert(cs@.subrange(lo as int, hi as int)[i as int] != word@[i as int]);
            return false;
        }
        i = i + 1;
    }
    assert(cs@.subrange(lo as int, hi as int) =~= word@);
    true
}

/// `s` without leading and trailing whitespace (`str::trim`).
pub fn trimmed(s: &str) -> (r: String)
    ensures
        r@ == trim(s@),
{
    let cs = chars_of(s);
    let (a, b) = trim_bounds(&cs, 0, cs.len());
    assert(cs@.subrange(0, cs@.len() as int) =~= s@);
    String::from_str(s.substring_char(a, b))
}

/// A lowercase hexadecimal digit for `0 <= d < 16`.
pub open spec fn lower_hex(d: int) -> char {
    if d < 10 {
        (48 + d) as char
    } else {
        (87 + d) as char
    }
}

pub fn hex_digit_str(d: u8) -> (s: &'static str)
    requires
        d < 16,
    ensures
        s@ == seq![lower_hex(d as int)],
{
    let digits = "0123456789abcdef";
    proof {
        reveal_strlit("0123456789abcdef");
    }
    let s = digits.substring_char(d as usize, d as usize + 1);
    assert(s@ =~= seq![lower_hex(d as int)]);
    s
}


/// The decimal digits of `n`, without leading zeros.
pub open spec fn decimal_digits(n: nat) -> Seq<char>
    decreases n,
{
    if n < 10 {
        seq![lower_hex(n as int)]
    } else {
        decimal_digits(n / 10).push(lower_hex((n % 10) as int))
    }
}

/// `n` in decimal, with a minus sign when negative (`n.to_string()`).
pub open spec fn decimal_text(n: int) -> Seq<char> {
    if n < 0 {
        seq!['-'] + decimal_digits((-n) as nat)
    } else {
        decimal_digits(n as nat)
    }
}

/// `n` in decimal (`n.to_string()`).
pub fn decimal(n: i32) -> (s: String)
    ensures
        s@ == decimal_text(n as int),
{
    let neg = n < 0;
    let mut q: u32 = if neg {
        (0i64 - n as i64) as u32
    } else {
        n as u32
    };
    let ghost m: nat = q as nat;
    let mut rest: Vec<u8> = Vec::new();
    let ghost tail: Seq<char> = seq![];
    while q >= 10
        invariant
            decimal_digits(m) == decimal_digits(q as nat) + tail,
            tail == rest@.map_values(|d: u8| lower_hex(d as int)),
            forall|k: int| 0 <= k < rest@.len() ==> #[trigger] rest@[k] < 10,
        decreases q,
    {
        let d = (q % 10) as u8;
        proof {
            tail = seq![lower_hex(d as int)] + tail;
        }
        rest.insert(0, d);
        assert(decimal_digits(q as nat) == decimal_digits((q / 10) as nat).push(
            lower_hex((q % 10) as int),
        ));
        q = q / 10;
        assert(tail =~= rest@.map_values(|d: u8| lower_hex(d as int)));
        assert(decimal_digits(m) =~= decimal_digits(q as nat) + tail);
    }
    let mut s = if neg {
        proof {
            reveal_strlit("-");
        }
        String::from_str("-")
    } else {
        String::from_str("")
    };
    let ghost sign: Seq<char> = if neg {
        seq!['-']
    } else {
        seq![]
    };
    proof {
        reveal_strlit("");
        assert(s@ =~= sign);
    }
    s.append(hex_digit_str(q as u8));
    let mut i: usize = 0;
    while i < rest.len()
        invariant
            i <= rest@.len(),
            forall|k: int| 0 <= k < rest@.len() ==> #[trigger] rest@[k] < 10,
            tail == rest@.map_values(|d: u8| lower_hex(d as int)),
            s@ == sign + decimal_digits(q as nat) + tail.take(i as int),
        decreases rest@.len() - i,
    {
        let d = rest[i];
        s.append(hex_digit_str(d));
        i = i + 1;
        assert(tail.take(i as int) =~= tail.take(i - 1).push(lower_hex(d as int)));
        assert(s@ =~= sign + decimal_digits(q as nat) + tail.take(i as int));
    }
    assert(tail.take(rest@.len() as int) =~= tail);
    assert(decimal_digits(q as nat) =~= seq![lower_hex(q as int)]);
    assert(s@ =~= sign + decimal_digits(m));
    s
}

pub proof fn lemma_find_char_bounds(s: Seq<char>, c: char)
    ensures
        0 <= find_char(s, c) <= s.len(),
        find_char(s, c) < s.len() ==> s[find_char(s, c)] == c,
        forall|k: int| 0 <= k < find_char(s, c) ==> #[trigger] s[k] != c,
    decreases s.len(),
{
    if s.len() > 0 && s[0] != c {
        lemma_find_char_bounds(s.drop_first(), c);
        assert forall|k: int| 0 <= k < find_char(s, c) implies #[trigger] s[k] != c by {
            if k > 0 {
                assert(s[k] == s.drop_first()[k - 1]);
            }
        }
    }
}

proof fn lemma_trim_start_drops_spaces(s: Seq<char>) -> (a: int)
    ensures
        0 <= a <= s.len(),
        trim_start(s) == s.skip(a),
        forall|k: int| 0 <= k < a ==> is_space_char(#[trigger] s[k]),
        a == s.len() || !is_space_char(s[a]),
    decreases s.len(),
{
    if s.len() > 0 && is_space_char(s[0]) {
        let t = s.drop_first();
        let a1 = lemma_trim_start_drops_spaces(t);
        assert forall|k: int| 0 <= k < a1 + 1 implies is_space_char(#[trigger] s[k]) by {
            if k > 0 {
                assert(s[k] == t[k - 1]);
            }
        }
        if a1 < t.len() {
            assert(s[a1 + 1] == t[a1]);
        }
        assert(t.skip(a1) =~= s.skip(a1 + 1));
        a1 + 1
    } else {
        assert(s.skip(0) =~= s);
        0
    }
}

proof fn lemma_trim_end_drops_spaces(s: Seq<char>) -> (b: int)
    ensures
        0 <= b <= s.len(),
        trim_end(s) == s.take(b),
        forall|k: int| b <= k < s.len() ==> is_space_char(#[trigger] s[k]),
        b == 0 || !is_space_char(s[b - 1]),
    decreases s.len(),
{
    if s.len() > 0 && is_space_char(s.last()) {
        let t = s.drop_last();
        let b1 = lemma_trim_end_drops_spaces(t);
        assert forall|k: int| b1 <= k < s.len() implies is_space_char(#[trigger] s[k]) by {
            if k < t.len() {
                assert(s[k] == t[k]);
            }
        }
        if b1 > 0 {
            assert(s[b1 - 1] == t[b1 - 1]);
        }
        assert(t.take(b1) =~= s.take(b1));
        b1
    } else {
        assert(s.take(s.len() as int) =~= s);
        s.len() as int
    }
}

/// Trimming takes away exactly the whitespace at both ends: what is left is
/// a contiguous part of `s`, everything before and after it is whitespace,
/// and it neither begins nor ends with whitespace.
pub proof fn lemma_trim_strips_whitespace(s: Seq<char>)
    ensures
        exists|a: int, b: int|
            {
                &&& 0 <= a <= b <= s.len()
                &&& trim(s) == s.subrange(a, b)
                &&& forall|k: int| 0 <= k < a ==> is_space_char(#[trigger] s[k])
                &&& forall|k: int| b <= k < s.len() ==> is_space_char(#[trigger] s[k])
                &&& a < b ==> !is_space_char(s[a]) && !is_space_char(s[b - 1])
            },
{
    let a = lemma_trim_start_drops_spaces(s);
    let t = s.skip(a);
    let b1 = lemma_trim_end_drops_spaces(t);
    let b = a + b1;
    assert(trim(s) == t.take(b1));
    assert(t.take(b1) =~= s.subrange(a, b));
    assert forall|k: int| b <= k < s.len() implies is_space_char(#[trigger] s[k]) by {
        assert(s[k] == t[k - a]);
    }
    if a < b {
        assert(s[a] == t[0]);
        assert(s[b - 1] == t[b1 - 1]);
        if b1 == 0 {
        }
    }
    assert(forall|k: int| 0 <= k < a ==> is_space_char(#[trigger] s[k]));
}

/// The fields of a line joined again with single spaces.
pub open spec fn join_fields(parts: Seq<Seq<char>>) -> Seq<char>
    decreases parts.len(),
{
    if parts.len() == 0 {
        seq![]
    } else if parts.len() == 1 {
        parts[0]
    } else {
        parts[0] + seq![' '] + join_fields(parts.drop_first())
    }
}

/// Splitting into at most three fields loses nothing: the fields joined with
/// spaces give the line back, and every field but the last holds no space.
pub proof fn lemma_split3_fields(s: Seq<char>)
    ensures
        1 <= split3(s).len() <= 3,
        join_fields(split3(s)) == s,
        forall|i: int| 0 <= i < split3(s).len() - 1 ==> !(#[trigger] split3(s)[i]).contains(' '),
{
    let i = find_char(s, ' ');
    lemma_find_char_bounds(s, ' ');
    let p = split3(s);
    if i == s.len() {
        assert(!s.contains(' ')) by {
            if s.contains(' ') {
                let k = choose|k: int| 0 <= k < s.len() && s[k] == ' ';
                assert(s[k] != ' ');
            }
        }
    } else {
        let rest = s.skip(i + 1);
        let j = find_char(rest, ' ');
        lemma_find_char_bounds(rest, ' ');
        let first = s.take(i);
        assert(!first.contains(' ')) by {
            if first.contains(' ') {
                let k = choose|k: int| 0 <= k < first.len() && first[k] == ' ';
                assert(first[k] == s[k]);
            }
        }
        if j == rest.len() {
            assert(p.drop_first() =~= seq![rest]);
            assert(join_fields(p.drop_first()) == rest);
            assert(first + seq![' '] + rest =~= s);
        } else {
            let second = rest.take(j);
            let third = rest.skip(j + 1);
            assert(!second.contains(' ')) by {
                if second.contains(' ') {
                    let k = choose|k: int| 0 <= k < second.len() && second[k] == ' ';
                    assert(second[k] == rest[k]);
                }
            }
            let q = p.drop_first();
            assert(q =~= seq![second, third]);
            assert(q.drop_first() =~= seq![third]);
            assert(join_fields(q.drop_first()) == third);
            assert(join_fields(q) == second + seq![' '] + third);
            assert(second + seq![' '] + third =~= rest);
            assert(first + seq![' '] + rest =~= s);
        }
    }
}

/// Every word is a non-empty run of characters none of which is whitespace.
pub proof fn lemma_words_are_runs(s: Seq<char>)
    ensures
        forall|i: int|
            0 <= i < words(s).len() ==> (#[trigger] words(s)[i]).len() > 0 && forall|k: int|
                0 <= k < words(s)[i].len() ==> !is_space_char(words(s)[i][k]),
    decreases s.len(),
{
    let t = trim_start(s);
    if t.len() > 0 {
        lemma_trim_start_shrinks(s);
        lemma_find_space_bounds(t);
        let k = find_space(t);
        lemma_words_are_runs(t.skip(k));
        let w = words(s);
        assert(w == seq![t.take(k)] + words(t.skip(k)));
        assert forall|i: int| 0 <= i < w.len() implies (#[trigger] w[i]).len() > 0 && forall|
            m: int,
        | 0 <= m < w[i].len() ==> !is_space_char(w[i][m]) by {
            if i > 0 {
                assert(w[i] == words(t.skip(k))[i - 1]);
            } else {
                assert(w[0] == t.take(k));
                assert forall|m: int| 0 <= m < w[0].len() implies !is_space_char(w[0][m]) by {
                    assert(w[0][m] == t[m]);
                }
            }
        }
    }
}

/// The number that decimal digits `d` stand for.
pub open spec fn digits_value(d: Seq<char>) -> int
    decreases d.len(),
{
    if d.len() == 0 {
        0
    } else {
        digits_value(d.drop_last()) * 10 + (d.last() as u32 - 0x30)
    }
}

/// Decimal text is a minus sign for negative numbers, then decimal digits
/// that stand for the number's magnitude, with no leading zero.
pub proof fn lemma_decimal_reads_back(n: nat)
    ensures
        decimal_digits(n).len() > 0,
        n >= 10 ==> decimal_digits(n).len() >= 2,
        forall|i: int|
            0 <= i < decimal_digits(n).len() ==> 0x30 <= (#[trigger] decimal_digits(n)[i]) as u32
                <= 0x39,
        digits_value(decimal_digits(n)) == n,
        decimal_digits(n).len() > 1 ==> decimal_digits(n)[0] != '0',
        decimal_text(n as int) == decimal_digits(n),
        n > 0 ==> decimal_text(-(n as int)) == seq!['-'] + decimal_digits(n),
    decreases n,
{
    let d = decimal_digits(n);
    let r = (n % 10) as int;
    assert((lower_hex(r) as u32) == 0x30 + r);
    if n >= 10 {
        lemma_decimal_reads_back(n / 10);
        let p = decimal_digits(n / 10);
        assert(d == p.push(lower_hex(r)));
        assert(d.last() == lower_hex(r));
        assert(d.drop_last() =~= p);
        assert(digits_value(d) == digits_value(p) * 10 + r);
        assert(d.drop_last() =~= p);
        assert forall|i: int| 0 <= i < d.len() implies 0x30 <= (#[trigger] d[i]) as u32 <= 0x39 by {
            if i < p.len() {
                assert(d[i] == p[i]);
            }
        }
        assert(d[0] == p[0]);
        if n / 10 < 10 {
            assert(p == seq![lower_hex((n / 10) as int)]);
            assert((lower_hex((n / 10) as int) as u32) == 0x30 + n / 10);
            assert(p[0] != '0');
        }
    } else {
        assert(d == seq![lower_hex(n as int)]);
        assert((lower_hex(n as int) as u32) == 0x30 + n);
        assert(d.drop_last() =~= Seq::<char>::empty());
        assert(digits_value(d) == digits_value(d.drop_last()) * 10 + (d.last() as u32 - 0x30));
    }
}

/// What words are, piece by piece: a run without whitespace is one word,
/// whitespace in front adds none, and a run followed by whitespace is the
/// first word of whatever it is followed by.
pub proof fn lemma_words_split(w: Seq<char>, c: char, rest: Seq<char>)
    requires
        w.len() > 0,
        forall|k: int| 0 <= k < w.len() ==> !is_space_char(#[trigger] w[k]),
        is_space_char(c),
    ensures
        words(w) == seq![w],
        words(seq![c] + rest) == words(rest),
        words(w + seq![c] + rest) == seq![w] + words(rest),
        words(Seq::<char>::empty()) == Seq::<Seq<char>>::empty(),
{
    let e = Seq::<char>::empty();
    lemma_trim_start_at(e, 0);
    assert(e.skip(0) =~= e);
    assert(words(e) =~= Seq::<Seq<char>>::empty());
    lemma_trim_start_at(w, 0);
    assert(w.skip(0) =~= w);
    lemma_find_space_at(w, w.len() as int);
    assert(w.take(w.len() as int) =~= w);
    assert(w.skip(w.len() as int) =~= e);
    assert(words(w) =~= seq![w]);
    let cr = seq![c] + rest;
    assert(cr.drop_first() =~= rest);
    assert(trim_start(cr) == trim_start(rest));
    assert(words(cr) == words(rest));
    let s = w + cr;
    assert(w + seq![c] + rest =~= s);
    lemma_trim_start_at(s, 0);
    assert(s.skip(0) =~= s);
    assert forall|k: int| 0 <= k < w.len() implies !is_space_char(#[trigger] s[k]) by {
        assert(s[k] == w[k]);
    }
    assert(s[w.len() as int] == c);
    lemma_find_space_at(s, w.len() as int);
    assert(s.take(w.len() as int) =~= w);
    assert(s.skip(w.len() as int) =~= cr);
}

} // verus!
