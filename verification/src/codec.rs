//! The wire encoding of room events: the tagged JSON frames the server
//! sends, built and proved character by character.

use vstd::prelude::*;

use crate::assoc::str_eq;
use crate::hub::JointEvent;
use crate::slug::push_char;

verus! {

/// A client-to-server room frame.
pub enum JointClientEvent {
    Chat { text: String },
    Ping,
}

/// The decimal digits of `n`, most significant first.
pub open spec fn dec_digits(n: nat) -> Seq<char>
    decreases n,
{
    if n < 10 {
        seq![digit_char(n)]
    } else {
        dec_digits(n / 10).push(digit_char(n % 10))
    }
}

/// The character for one decimal digit.
pub open spec fn digit_char(d: nat) -> char {
    if d == 0 {
        '0'
    } else if d == 1 {
        '1'
    } else if d == 2 {
        '2'
    } else if d == 3 {
        '3'
    } else if d == 4 {
        '4'
    } else if d == 5 {
        '5'
    } else if d == 6 {
        '6'
    } else if d == 7 {
        '7'
    } else if d == 8 {
        '8'
    } else {
        '9'
    }
}

/// The decimal rendering of an integer, with a leading minus sign when it
/// is negative.
pub open spec fn int_str(n: int) -> Seq<char> {
    if n < 0 {
        seq!['-'] + dec_digits((-n) as nat)
    } else {
        dec_digits(n as nat)
    }
}

/// The character for one hexadecimal digit.
pub open spec fn hex_char(d: nat) -> char {
    if d < 10 {
        digit_char(d)
    } else if d == 10 {
        'a'
    } else if d == 11 {
        'b'
    } else if d == 12 {
        'c'
    } else if d == 13 {
        'd'
    } else if d == 14 {
        'e'
    } else {
        'f'
    }
}

/// How one character appears inside a JSON string literal: quotes and
/// backslashes escaped, control codes as `\u00XX`, everything else as is.
pub open spec fn escape_char(c: char) -> Seq<char> {
    if c == '"' {
        seq!['\\', '"']
    } else if c == '\\' {
        seq!['\\', '\\']
    } else if (c as u32) < 0x20 {
        seq!['\\', 'u', '0', '0', hex_char((c as u32 / 16) as nat), hex_char((c as u32 % 16) as nat)]
    } else {
        seq![c]
    }
}

/// A character sequence escaped for a JSON string literal.
pub open spec fn escape_seq(s: Seq<char>) -> Seq<char>
    decreases s.len(),
{
    if s.len() == 0 {
        Seq::empty()
    } else {
        escape_seq(s.drop_last()) + escape_char(s.last())
    }
}

/// A JSON string literal: the escaped characters between quotes.
pub open spec fn json_string(s: Seq<char>) -> Seq<char> {
    seq!['"'] + escape_seq(s) + seq!['"']
}

/// The frame an event is sent as.
pub open spec fn encode_event_spec(e: JointEvent) -> Seq<char> {
    match e {
        JointEvent::Chat { name, text, ts } => "{\"type\":\"chat\",\"name\":"@ + json_string(name@)
            + ",\"text\":"@ + json_string(text@) + ",\"ts\":"@ + int_str(ts as int) + "}"@,
        JointEvent::System { text, ts } => "{\"type\":\"system\",\"text\":"@ + json_string(text@)
            + ",\"ts\":"@ + int_str(ts as int) + "}"@,
        JointEvent::Burn { ts } => "{\"type\":\"burn\",\"ts\":"@ + int_str(ts as int) + "}"@,
    }
}

fn digit_of(d: u64) -> (c: char)
    requires
        d < 10,
    ensures
        c == digit_char(d as nat),
{
    match d {
        0 => '0',
        1 => '1',
        2 => '2',
        3 => '3',
        4 => '4',
        5 => '5',
        6 => '6',
        7 => '7',
        8 => '8',
        _ => '9',
    }
}

fn hex_of(d: u32) -> (c: char)
    requires
        d < 16,
    ensures
        c == hex_char(d as nat),
{
    match d {
        0 => '0',
        1 => '1',
        2 => '2',
        3 => '3',
        4 => '4',
        5 => '5',
        6 => '6',
        7 => '7',
        8 => '8',
        9 => '9',
        10 => 'a',
        11 => 'b',
        12 => 'c',
        13 => 'd',
        14 => 'e',
        _ => 'f',
    }
}

fn push_dec(s: &mut String, mag: u64)
    ensures
        final(s)@ == old(s)@ + dec_digits(mag as nat),
    decreases mag,
{
    if mag < 10 {
        push_char(s, digit_of(mag));
        proof {
            assert(old(s)@.push(digit_char(mag as nat)) =~= old(s)@ + dec_digits(mag as nat));
        }
    } else {
        push_dec(s, mag / 10);
        push_char(s, digit_of(mag % 10));
        proof {
            assert((old(s)@ + dec_digits((mag / 10) as nat)).push(digit_char((mag % 10) as nat))
                =~= old(s)@ + dec_digits(mag as nat));
        }
    }
}

fn push_int(s: &mut String, n: i64)
    ensures
        final(s)@ == old(s)@ + int_str(n as int),
{
    if n < 0 {
        push_char(s, '-');
        let mag = (-(n as i128)) as u64;
        proof {
            assert(mag as nat == (-(n as int)) as nat);
        }
        push_dec(s, mag);
        proof {
            assert(old(s)@.push('-') + dec_digits(mag as nat) =~= old(s)@ + int_str(n as int));
        }
    } else {
        push_dec(s, n as u64);
    }
}

fn push_escaped(s: &mut String, c: char)
    ensures
        final(s)@ == old(s)@ + escape_char(c),
{
    if c == '"' {
        push_char(s, '\\');
        push_char(s, '"');
        proof {
            assert(old(s)@.push('\\').push('"') =~= old(s)@ + escape_char(c));
        }
    } else if c == '\\' {
        push_char(s, '\\');
        push_char(s, '\\');
        proof {
            assert(old(s)@.push('\\').push('\\') =~= old(s)@ + escape_char(c));
        }
    } else if (c as u32) < 0x20 {
        let u = c as u32;
        push_char(s, '\\');
        push_char(s, 'u');
        push_char(s, '0');
        push_char(s, '0');
        push_char(s, hex_of(u / 16));
        push_char(s, hex_of(u % 16));
        proof {
            assert(old(s)@.push('\\').push('u').push('0').push('0').push(
                hex_char((u / 16) as nat),
            ).push(hex_char((u % 16) as nat)) =~= old(s)@ + escape_char(c));
        }
    } else {
        push_char(s, c);
        proof {
            assert(old(s)@.push(c) =~= old(s)@ + escape_char(c));
        }
    }
}

fn push_json_string(s: &mut String, t: &str)
    ensures
        final(s)@ == old(s)@ + json_string(t@),
{
    let ghost base = s@;
    push_char(s, '"');
    let n = t.unicode_len();
    let mut i: usize = 0;
    while i < n
        invariant
            n == t@.len(),
            i <= n,
            s@ == base + seq!['"'] + escape_seq(t@.subrange(0, i as int)),
        decreases n - i,
    {
        let c = t.get_char(i);
        proof {
            let p2 = t@.subrange(0, i + 1);
            assert(p2.drop_last() =~= t@.subrange(0, i as int));
            assert(p2.last() == t@[i as int]);
        }
        push_escaped(s, c);
        i += 1;
    }
    push_char(s, '"');
    proof {
        assert(t@.subrange(0, n as int) =~= t@);
        assert((base + seq!['"'] + escape_seq(t@)).push('"') =~= base + json_string(t@));
        assert(base + seq!['"'] =~= base.push('"'));
    }
}

/// A Unicode scalar value: what a `char` may hold.
pub open spec fn valid_scalar(v: int) -> bool {
    0 <= v <= 0x10FFFF && !(0xD800 <= v && v <= 0xDFFF)
}

/// The character `char::from_u32` yields for a scalar value; it depends
/// on the code alone.
pub uninterp spec fn char_of_code(v: int) -> char;

/// Relies on `char::from_u32`: a character for every Unicode scalar value
/// (codes outside the surrogate range and at most `0x10FFFF`), carrying
/// that very code, and nothing for any other input.
#[verifier::external_body]
fn char_from_u32(v: u32) -> (r: Option<char>)
    ensures
        match r {
            Some(c) => c == char_of_code(v as int) && c as u32 == v,
            None => !valid_scalar(v as int),
        },
{
    char::from_u32(v)
}

pub open spec fn is_hex_digit(c: char) -> bool {
    ||| ('0' <= c && c <= '9')
    ||| ('a' <= c && c <= 'f')
    ||| ('A' <= c && c <= 'F')
}

/// The value of one hexadecimal digit.
pub open spec fn hex_val(c: char) -> int {
    if '0' <= c && c <= '9' {
        c as u32 - 0x30
    } else if 'a' <= c && c <= 'f' {
        c as u32 - 0x57
    } else {
        c as u32 - 0x37
    }
}

/// The code four hex digits of a `\u` escape carry.
pub open spec fn hex4(a: char, b: char, c: char, d: char) -> int {
    hex_val(a) * 0x1000 + hex_val(b) * 0x100 + hex_val(c) * 0x10 + hex_val(d)
}

/// JSON whitespace.
pub open spec fn is_json_ws(c: char) -> bool {
    c == ' ' || c == '\t' || c == '\n' || c == '\r'
}

/// How many whitespace characters the input starts with.
pub open spec fn ws_len(s: Seq<char>) -> int
    decreases s.len(),
{
    if s.len() > 0 && is_json_ws(s[0]) {
        1 + ws_len(s.drop_first())
    } else {
        0
    }
}

/// What a short escape denotes inside a JSON string; longer escapes are
/// not part of the frame grammar, so a frame using them is undecodable.
pub open spec fn escape_of(c: char) -> Option<char> {
    if c == '"' {
        Some('"')
    } else if c == '\\' {
        Some('\\')
    } else if c == '/' {
        Some('/')
    } else if c == 'n' {
        Some('\n')
    } else if c == 't' {
        Some('\t')
    } else if c == 'r' {
        Some('\r')
    } else if c == 'b' {
        Some('\u{8}')
    } else if c == 'f' {
        Some('\u{c}')
    } else {
        None
    }
}

/// The rest of a JSON string after its opening quote: the unescaped text
/// and how many input characters it takes, closing quote included.
pub open spec fn str_body(s: Seq<char>) -> Option<(Seq<char>, int)>
    decreases s.len(),
{
    if s.len() == 0 {
        None
    } else if s[0] == '"' {
        Some((Seq::empty(), 1))
    } else if s[0] == '\\' {
        if s.len() >= 2 && escape_of(s[1]) is Some {
            match str_body(s.subrange(2, s.len() as int)) {
                Some((t, n)) => Some((seq![escape_of(s[1])->Some_0] + t, n + 2)),
                None => None,
            }
        } else if s.len() >= 6 && s[1] == 'u' && is_hex_digit(s[2]) && is_hex_digit(s[3])
            && is_hex_digit(s[4]) && is_hex_digit(s[5]) {
            let v = hex4(s[2], s[3], s[4], s[5]);
            if 0xD800 <= v <= 0xDBFF {
                // A high surrogate must pair with a following low one.
                if s.len() >= 12 && s[6] == '\\' && s[7] == 'u' && is_hex_digit(s[8])
                    && is_hex_digit(s[9]) && is_hex_digit(s[10]) && is_hex_digit(s[11]) && 0xDC00
                    <= hex4(s[8], s[9], s[10], s[11]) <= 0xDFFF {
                    let w = hex4(s[8], s[9], s[10], s[11]);
                    let code = 0x10000 + (v - 0xD800) * 0x400 + (w - 0xDC00);
                    match str_body(s.subrange(12, s.len() as int)) {
                        Some((t, n)) => Some((seq![char_of_code(code)] + t, n + 12)),
                        None => None,
                    }
                } else {
                    None
                }
            } else if 0xDC00 <= v <= 0xDFFF {
                None
            } else {
                match str_body(s.subrange(6, s.len() as int)) {
                    Some((t, n)) => Some((seq![char_of_code(v)] + t, n + 6)),
                    None => None,
                }
            }
        } else {
            None
        }
    } else if (s[0] as u32) < 0x20 {
        None
    } else {
        match str_body(s.drop_first()) {
            Some((t, n)) => Some((seq![s[0]] + t, n + 1)),
            None => None,
        }
    }
}

/// A quoted string at the head of the input: the text and the total
/// consumed, both quotes included.
pub open spec fn quoted(s: Seq<char>) -> Option<(Seq<char>, int)> {
    if s.len() > 0 && s[0] == '"' {
        match str_body(s.subrange(1, s.len() as int)) {
            Some((t, n)) => Some((t, n + 1)),
            None => None,
        }
    } else {
        None
    }
}

/// One `"key": "value"` member at the head of the input.
pub open spec fn member(s: Seq<char>) -> Option<((Seq<char>, Seq<char>), int)> {
    match quoted(s) {
        Some((k, n1)) => {
            let i_colon = n1 + ws_len(s.subrange(n1, s.len() as int));
            if 0 <= i_colon < s.len() && s[i_colon] == ':' {
                let i_val = i_colon + 1 + ws_len(s.subrange(i_colon + 1, s.len() as int));
                match quoted(s.subrange(i_val, s.len() as int)) {
                    Some((v, n2)) => Some(((k, v), i_val + n2)),
                    None => None,
                }
            } else {
                None
            }
        },
        None => None,
    }
}

/// What follows a frame's opening brace: one or two string members,
/// comma-separated, then the closing brace; yields the members and the
/// index just past the brace.
pub open spec fn members(s: Seq<char>) -> Option<(Seq<(Seq<char>, Seq<char>)>, int)> {
    let w0 = ws_len(s);
    match member(s.subrange(w0, s.len() as int)) {
        Some((m1, n1)) => {
            let i_sep = w0 + n1 + ws_len(s.subrange(w0 + n1, s.len() as int));
            if 0 <= i_sep < s.len() && s[i_sep] == '}' {
                Some((seq![m1], i_sep + 1))
            } else if 0 <= i_sep < s.len() && s[i_sep] == ',' {
                let i2 = i_sep + 1 + ws_len(s.subrange(i_sep + 1, s.len() as int));
                match member(s.subrange(i2, s.len() as int)) {
                    Some((m2, n2)) => {
                        let i_close = i2 + n2 + ws_len(s.subrange(i2 + n2, s.len() as int));
                        if 0 <= i_close < s.len() && s[i_close] == '}' {
                            Some((seq![m1, m2], i_close + 1))
                        } else {
                            None
                        }
                    },
                    None => None,
                }
            } else {
                None
            }
        },
        None => None,
    }
}

/// The member list of a whole frame: whitespace, an object of one or two
/// string members, whitespace, end of input.
pub open spec fn frame_members(s: Seq<char>) -> Option<Seq<(Seq<char>, Seq<char>)>> {
    let w = ws_len(s);
    if 0 <= w < s.len() && s[w] == '{' {
        match members(s.subrange(w + 1, s.len() as int)) {
            Some((ms, n)) => {
                let i_end = w + 1 + n;
                if i_end + ws_len(s.subrange(i_end, s.len() as int)) == s.len() {
                    Some(ms)
                } else {
                    None
                }
            },
            None => None,
        }
    } else {
        None
    }
}

/// Whether the input is a keepalive frame.
pub open spec fn decode_is_ping(s: Seq<char>) -> bool {
    match frame_members(s) {
        Some(ms) => ms.len() == 1 && ms[0].0 == "type"@ && ms[0].1 == "ping"@,
        None => false,
    }
}

/// The text of the input read as a chat frame, member order free.
pub open spec fn decode_chat_text(s: Seq<char>) -> Option<Seq<char>> {
    match frame_members(s) {
        Some(ms) => if ms.len() == 2 && ms[0].0 == "type"@ && ms[0].1 == "chat"@ && ms[1].0
            == "text"@ {
            Some(ms[1].1)
        } else if ms.len() == 2 && ms[1].0 == "type"@ && ms[1].1 == "chat"@ && ms[0].0
            == "text"@ {
            Some(ms[0].1)
        } else {
            None
        },
        None => None,
    }
}

proof fn lemma_ws_len_bounds(s: Seq<char>)
    ensures
        0 <= ws_len(s) <= s.len(),
    decreases s.len(),
{
    if s.len() > 0 && is_json_ws(s[0]) {
        lemma_ws_len_bounds(s.drop_first());
    }
}

proof fn lemma_str_body_bounds(s: Seq<char>)
    ensures
        str_body(s) matches Some((t, n)) ==> 1 <= n <= s.len(),
    decreases s.len(),
{
    if s.len() == 0 {
    } else if s[0] == '"' {
    } else if s[0] == '\\' {
        if s.len() >= 2 && escape_of(s[1]) is Some {
            lemma_str_body_bounds(s.subrange(2, s.len() as int));
        } else if s.len() >= 6 && s[1] == 'u' {
            if s.len() >= 12 {
                lemma_str_body_bounds(s.subrange(12, s.len() as int));
            }
            lemma_str_body_bounds(s.subrange(6, s.len() as int));
        }
    } else if (s[0] as u32) < 0x20 {
    } else {
        lemma_str_body_bounds(s.drop_first());
    }
}

proof fn lemma_quoted_bounds(s: Seq<char>)
    ensures
        quoted(s) matches Some((t, n)) ==> 2 <= n <= s.len(),
{
    if s.len() > 0 && s[0] == '"' {
        lemma_str_body_bounds(s.subrange(1, s.len() as int));
    }
}

fn is_ws(c: char) -> (b: bool)
    ensures
        b == is_json_ws(c),
{
    c == ' ' || c == '\t' || c == '\n' || c == '\r'
}

fn skip_ws_len(s: &str) -> (w: usize)
    ensures
        w as int == ws_len(s@),
        w <= s@.len(),
{
    let len = s.unicode_len();
    proof {
        assert(s@.subrange(0, len as int) =~= s@);
    }
    let mut j: usize = 0;
    while j < len && is_ws(s.get_char(j))
        invariant
            j <= len,
            len == s@.len(),
            ws_len(s@) == j + ws_len(s@.subrange(j as int, len as int)),
        decreases len - j,
    {
        proof {
            let suf = s@.subrange(j as int, len as int);
            assert(suf.drop_first() =~= s@.subrange(j + 1, len as int));
        }
        j += 1;
    }
    proof {
        let suf = s@.subrange(j as int, len as int);
        assert(ws_len(suf) == 0);
        assert(s@.subrange(0, len as int) =~= s@);
    }
    j
}

fn unescape(e: char) -> (r: Option<char>)
    ensures
        r == escape_of(e),
{
    match e {
        '"' => Some('"'),
        '\\' => Some('\\'),
        '/' => Some('/'),
        'n' => Some('\n'),
        't' => Some('\t'),
        'r' => Some('\r'),
        'b' => Some('\u{8}'),
        'f' => Some('\u{c}'),
        _ => None,
    }
}

fn hex_digit_val(c: char) -> (r: Option<u32>)
    ensures
        match r {
            Some(v) => is_hex_digit(c) && v as int == hex_val(c) && v < 16,
            None => !is_hex_digit(c),
        },
{
    let u = c as u32;
    if 0x30 <= u && u <= 0x39 {
        Some(u - 0x30)
    } else if 0x61 <= u && u <= 0x66 {
        Some(u - 0x57)
    } else if 0x41 <= u && u <= 0x46 {
        Some(u - 0x37)
    } else {
        None
    }
}

/// Reads the four hex digits of a `\u` escape starting at `j`.
fn read_hex4(s: &str, j: usize) -> (r: Option<u32>)
    requires
        j + 4 <= s@.len(),
        s@.len() <= usize::MAX,
    ensures
        match r {
            Some(v) => {
                &&& is_hex_digit(s@[j as int]) && is_hex_digit(s@[j + 1]) && is_hex_digit(
                    s@[j + 2],
                ) && is_hex_digit(s@[j + 3])
                &&& v as int == hex4(s@[j as int], s@[j + 1], s@[j + 2], s@[j + 3])
                &&& v < 0x10000
            },
            None => !(is_hex_digit(s@[j as int]) && is_hex_digit(s@[j + 1]) && is_hex_digit(
                s@[j + 2],
            ) && is_hex_digit(s@[j + 3])),
        },
{
    let a = match hex_digit_val(s.get_char(j)) {
        Some(x) => x,
        None => {
            return None;
        },
    };
    let b = match hex_digit_val(s.get_char(j + 1)) {
        Some(x) => x,
        None => {
            return None;
        },
    };
    let c = match hex_digit_val(s.get_char(j + 2)) {
        Some(x) => x,
        None => {
            return None;
        },
    };
    let d = match hex_digit_val(s.get_char(j + 3)) {
        Some(x) => x,
        None => {
            return None;
        },
    };
    Some(a * 0x1000 + b * 0x100 + c * 0x10 + d)
}

/// Reads a quoted string at the head of the input.
fn parse_quoted_str(s: &str) -> (r: Option<(String, usize)>)
    ensures
        match r {
            Some((t, n)) => 2 <= n <= s@.len() && quoted(s@) == Some((t@, n as int)),
            None => quoted(s@) is None,
        },
{
    let len = s.unicode_len();
    if len == 0 || s.get_char(0) != '"' {
        return None;
    }
    let mut acc = String::new();
    let mut j: usize = 1;
    while j < len
        invariant
            1 <= j <= len,
            len == s@.len(),
            s@[0] == '"',
            match str_body(s@.subrange(j as int, len as int)) {
                Some((t2, n2)) => str_body(s@.subrange(1, len as int)) == Some(
                    (acc@ + t2, (j - 1) + n2),
                ),
                None => str_body(s@.subrange(1, len as int)) is None,
            },
        decreases len - j,
    {
        let c = s.get_char(j);
        let ghost suf = s@.subrange(j as int, len as int);
        proof {
            assert(suf[0] == c);
            assert(suf.drop_first() =~= s@.subrange(j + 1, len as int));
            assert(forall|k: int| 0 <= k < suf.len() ==> #[trigger] suf[k] == s@[j + k]);
        }
        if c == '"' {
            proof {
                assert(str_body(suf) == Some((Seq::<char>::empty(), 1int)));
                assert(acc@ + Seq::<char>::empty() =~= acc@);
            }
            return Some((acc, j + 1));
        } else if c == '\\' {
            if j + 1 >= len {
                proof {
                    assert(suf.len() < 2);
                    assert(str_body(suf) is None);
                }
                return None;
            }
            let e = s.get_char(j + 1);
            proof {
                assert(suf[1] == e);
            }
            match unescape(e) {
                Some(u) => {
                    proof {
                        assert(suf.subrange(2, suf.len() as int) =~= s@.subrange(
                            j + 2,
                            len as int,
                        ));
                        if str_body(s@.subrange(j + 2, len as int)) is Some {
                            let t2 = str_body(s@.subrange(j + 2, len as int))->Some_0.0;
                            assert((acc@ + (seq![u] + t2)) =~= (acc@.push(u) + t2));
                        }
                    }
                    push_char(&mut acc, u);
                    j += 2;
                },
                None => {
                    if e != 'u' {
                        proof {
                            assert(str_body(suf) is None);
                        }
                        return None;
                    }
                    if len - j < 6 {
                        proof {
                            assert(suf.len() < 6);
                            assert(str_body(suf) is None);
                        }
                        return None;
                    }
                    let v = match read_hex4(s, j + 2) {
                        Some(v) => v,
                        None => {
                            proof {
                                assert(str_body(suf) is None);
                            }
                            return None;
                        },
                    };
                    if 0xD800 <= v && v <= 0xDBFF {
                        if len - j < 12 {
                            proof {
                                assert(suf.len() < 12);
                                assert(str_body(suf) is None);
                            }
                            return None;
                        }
                        if s.get_char(j + 6) != '\\' || s.get_char(j + 7) != 'u' {
                            proof {
                                assert(str_body(suf) is None);
                            }
                            return None;
                        }
                        let w = match read_hex4(s, j + 8) {
                            Some(w) => w,
                            None => {
                                proof {
                                    assert(str_body(suf) is None);
                                }
                                return None;
                            },
                        };
                        if !(0xDC00 <= w && w <= 0xDFFF) {
                            proof {
                                assert(str_body(suf) is None);
                            }
                            return None;
                        }
                        let code = 0x10000 + (v - 0xD800) * 0x400 + (w - 0xDC00);
                        let ch = match char_from_u32(code) {
                            Some(ch) => ch,
                            None => {
                                proof {
                                    assert(valid_scalar(code as int));
                                    assert(false);
                                }
                                return None;
                            },
                        };
                        proof {
                            assert(char_of_code(code as int) == ch);
                            assert(suf.subrange(12, suf.len() as int) =~= s@.subrange(
                                j + 12,
                                len as int,
                            ));
                            if str_body(s@.subrange(j + 12, len as int)) is Some {
                                let t2 = str_body(s@.subrange(j + 12, len as int))->Some_0.0;
                                assert((acc@ + (seq![ch] + t2)) =~= (acc@.push(ch) + t2));
                            }
                        }
                        push_char(&mut acc, ch);
                        j += 12;
                    } else if 0xDC00 <= v && v <= 0xDFFF {
                        proof {
                            assert(str_body(suf) is None);
                        }
                        return None;
                    } else {
                        let ch = match char_from_u32(v) {
                            Some(ch) => ch,
                            None => {
                                proof {
                                    assert(valid_scalar(v as int));
                                    assert(false);
                                }
                                return None;
                            },
                        };
                        proof {
                            assert(char_of_code(v as int) == ch);
                            assert(suf.subrange(6, suf.len() as int) =~= s@.subrange(
                                j + 6,
                                len as int,
                            ));
                            if str_body(s@.subrange(j + 6, len as int)) is Some {
                                let t2 = str_body(s@.subrange(j + 6, len as int))->Some_0.0;
                                assert((acc@ + (seq![ch] + t2)) =~= (acc@.push(ch) + t2));
                            }
                        }
                        push_char(&mut acc, ch);
                        j += 6;
                    }
                },
            }
        } else {
            let cu = c as u32;
            if cu < 0x20 {
                proof {
                    assert(str_body(suf) is None);
                }
                return None;
            }
            proof {
                if str_body(s@.subrange(j + 1, len as int)) is Some {
                    let t2 = str_body(s@.subrange(j + 1, len as int))->Some_0.0;
                    assert((acc@ + (seq![c] + t2)) =~= (acc@.push(c) + t2));
                }
            }
            push_char(&mut acc, c);
            j += 1;
        }
    }
    proof {
        assert(s@.subrange(j as int, len as int).len() == 0);
        assert(str_body(s@.subrange(j as int, len as int)) is None);
    }
    None
}

/// Reads one `"key": "value"` member at the head of the input.
fn parse_member_str(s: &str) -> (r: Option<(String, String, usize)>)
    ensures
        match r {
            Some((k, v, n)) => n <= s@.len() && member(s@) == Some(((k@, v@), n as int)),
            None => member(s@) is None,
        },
{
    let len = s.unicode_len();
    let (k, n1) = match parse_quoted_str(s) {
        Some(x) => x,
        None => {
            return None;
        },
    };
    let r1 = s.substring_char(n1, len);
    let w1 = skip_ws_len(r1);
    let i_colon = n1 + w1;
    if i_colon >= len || s.get_char(i_colon) != ':' {
        return None;
    }
    let r2 = s.substring_char(i_colon + 1, len);
    let w2 = skip_ws_len(r2);
    let i_val = i_colon + 1 + w2;
    proof {
        lemma_ws_len_bounds(r2@);
    }
    let rv = s.substring_char(i_val, len);
    match parse_quoted_str(rv) {
        Some((v, n2)) => {
            proof {
                lemma_quoted_bounds(rv@);
            }
            Some((k, v, i_val + n2))
        },
        None => None,
    }
}

/// Reads the members of a frame object, after its opening brace.
fn parse_members_str(s: &str) -> (r: Option<((String, String), Option<(String, String)>, usize)>)
    ensures
        match r {
            Some((m1, m2, n)) => n <= s@.len() && members(s@) == Some(
                (
                    match m2 {
                        Some(m2) => seq![(m1.0@, m1.1@), (m2.0@, m2.1@)],
                        None => seq![(m1.0@, m1.1@)],
                    },
                    n as int,
                ),
            ),
            None => members(s@) is None,
        },
{
    let len = s.unicode_len();
    let w0 = skip_ws_len(s);
    let rm = s.substring_char(w0, len);
    let (k1, v1, n1) = match parse_member_str(rm) {
        Some(x) => x,
        None => {
            return None;
        },
    };
    let i1 = w0 + n1;
    let rs = s.substring_char(i1, len);
    let ws = skip_ws_len(rs);
    let i_sep = i1 + ws;
    if i_sep >= len {
        return None;
    }
    let sep = s.get_char(i_sep);
    if sep == '}' {
        return Some(((k1, v1), None, i_sep + 1));
    }
    if sep != ',' {
        return None;
    }
    let r2 = s.substring_char(i_sep + 1, len);
    let w2 = skip_ws_len(r2);
    let i2 = i_sep + 1 + w2;
    let rm2 = s.substring_char(i2, len);
    let (k2, v2, n2) = match parse_member_str(rm2) {
        Some(x) => x,
        None => {
            return None;
        },
    };
    let i3 = i2 + n2;
    let r3 = s.substring_char(i3, len);
    let w3 = skip_ws_len(r3);
    let i_close = i3 + w3;
    if i_close >= len || s.get_char(i_close) != '}' {
        return None;
    }
    Some(((k1, v1), Some((k2, v2)), i_close + 1))
}

/// Reads one client frame: a keepalive `{"type":"ping"}` or a chat
/// `{"type":"chat","text":...}`, member order free, with JSON whitespace
/// and short string escapes.  Anything else is undecodable.
pub fn decode_client_frame(s: &str) -> (r: Option<JointClientEvent>)
    ensures
        match r {
            Some(f) => match f {
                JointClientEvent::Ping => decode_is_ping(s@),
                JointClientEvent::Chat { text } => decode_chat_text(s@) == Some(text@),
            },
            None => !decode_is_ping(s@) && decode_chat_text(s@) is None,
        },
{
    let len = s.unicode_len();
    let w = skip_ws_len(s);
    if w >= len || s.get_char(w) != '{' {
        return None;
    }
    let body = s.substring_char(w + 1, len);
    let (m1, m2, n) = match parse_members_str(body) {
        Some(x) => x,
        None => {
            return None;
        },
    };
    let i_end = w + 1 + n;
    let tail = s.substring_char(i_end, len);
    let w_end = skip_ws_len(tail);
    proof {
        lemma_ws_len_bounds(tail@);
    }
    if i_end + w_end != len {
        return None;
    }
    match m2 {
        None => {
            if str_eq(m1.0.as_str(), "type") && str_eq(m1.1.as_str(), "ping") {
                Some(JointClientEvent::Ping)
            } else {
                None
            }
        },
        Some(m2) => {
            if str_eq(m1.0.as_str(), "type") && str_eq(m1.1.as_str(), "chat") && str_eq(
                m2.0.as_str(),
                "text",
            ) {
                Some(JointClientEvent::Chat { text: m2.1 })
            } else if str_eq(m2.0.as_str(), "type") && str_eq(m2.1.as_str(), "chat") && str_eq(
                m1.0.as_str(),
                "text",
            ) {
                Some(JointClientEvent::Chat { text: m1.1 })
            } else {
                None
            }
        },
    }
}

/// Renders one event as its wire frame.
pub fn encode_event(e: &JointEvent) -> (r: String)
    ensures
        r@ == encode_event_spec(*e),
{
    let mut s = String::new();
    match e {
        JointEvent::Chat { name, text, ts } => {
            s.append("{\"type\":\"chat\",\"name\":");
            push_json_string(&mut s, name.as_str());
            s.append(",\"text\":");
            push_json_string(&mut s, text.as_str());
            s.append(",\"ts\":");
            push_int(&mut s, *ts);
            s.append("}");
            proof {
                assert(s@ =~= encode_event_spec(*e));
            }
        },
        JointEvent::System { text, ts } => {
            s.append("{\"type\":\"system\",\"text\":");
            push_json_string(&mut s, text.as_str());
            s.append(",\"ts\":");
            push_int(&mut s, *ts);
            s.append("}");
            proof {
                assert(s@ =~= encode_event_spec(*e));
            }
        },
        JointEvent::Burn { ts } => {
            s.append("{\"type\":\"burn\",\"ts\":");
            push_int(&mut s, *ts);
            s.append("}");
            proof {
                assert(s@ =~= encode_event_spec(*e));
            }
        },
    }
    s
}

} // verus!
