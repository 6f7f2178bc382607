//! Pure text helpers: whitespace trimming and option cleaning.

use vstd::prelude::*;

verus! {

/// A character with the Unicode `White_Space` property, the set that
/// `char::is_whitespace` recognises.
pub open spec fn is_space_char(c: char) -> bool {
    ||| (0x09 <= c as u32 && c as u32 <= 0x0d)
    ||| c as u32 == 0x20
    ||| c as u32 == 0x85
    ||| c as u32 == 0xa0
    ||| c as u32 == 0x1680
    ||| (0x2000 <= c as u32 && c as u32 <= 0x200a)
    ||| c as u32 == 0x2028
    ||| c as u32 == 0x2029
    ||| c as u32 == 0x202f
    ||| c as u32 == 0x205f
    ||| c as u32 == 0x3000
}

pub fn is_space(c: char) -> (b: bool)
    ensures
        b == is_space_char(c),
{
    let u = c as u32;
    (0x09 <= u && u <= 0x0d) || u == 0x20 || u == 0x85 || u == 0xa0 || u == 0x1680
        || (0x2000 <= u && u <= 0x200a) || u == 0x2028 || u == 0x2029 || u == 0x202f
        || u == 0x205f || u == 0x3000
}

/// What remains of `s` once leading whitespace is dropped.
pub open spec fn trim_front_spec(s: Seq<char>) -> Seq<char>
    decreases s.len(),
{
    if s.len() == 0 {
        s
    } else if is_space_char(s[0]) {
        trim_front_spec(s.drop_first())
    } else {
        s
    }
}

/// What remains of `s` once trailing whitespace is dropped.
pub open spec fn trim_back_spec(s: Seq<char>) -> Seq<char>
    decreases s.len(),
{
    if s.len() == 0 {
        s
    } else if is_space_char(s[s.len() - 1]) {
        trim_back_spec(s.drop_last())
    } else {
        s
    }
}

/// `s` with leading and trailing whitespace dropped, as `str::trim` leaves it.
pub open spec fn trim_spec(s: Seq<char>) -> Seq<char> {
    trim_back_spec(trim_front_spec(s))
}

proof fn lemma_trim_front_at(s: Seq<char>, i: int)
    requires
        0 <= i <= s.len(),
        forall|k: int| 0 <= k < i ==> is_space_char(s[k]),
        i == s.len() || !is_space_char(s[i]),
    ensures
        trim_front_spec(s) == s.subrange(i, s.len() as int),
    decreases i,
{
    if i == 0 {
        assert(s.subrange(0, s.len() as int) =~= s);
    } else {
        let t = s.drop_first();
        assert(forall|k: int| 0 <= k < i - 1 ==> is_space_char(#[trigger] t[k]));
        lemma_trim_front_at(t, i - 1);
        assert(t.subrange(i - 1, t.len() as int) =~= s.subrange(i, s.len() as int));
    }
}

proof fn lemma_trim_back_at(s: Seq<char>, j: int)
    requires
        0 <= j <= s.len(),
        forall|k: int| j <= k < s.len() ==> is_space_char(s[k]),
        j == 0 || !is_space_char(s[j - 1]),
    ensures
        trim_back_spec(s) == s.subrange(0, j),
    decreases s.len(),
{
    if j == s.len() {
        if s.len() == 0 {
            assert(s.subrange(0, 0) =~= s);
        } else if is_space_char(s[s.len() - 1]) {
            let t = s.drop_last();
            lemma_trim_back_at(t, j - 1);
            assert(t.subrange(0, j - 1) =~= s.subrange(0, j - 1));
            assert(s.subrange(0, j) =~= s);
            assert(false);
        } else {
            assert(s.subrange(0, j) =~= s);
        }
    } else {
        let t = s.drop_last();
        assert(forall|k: int| j <= k < t.len() ==> is_space_char(#[trigger] t[k]));
        lemma_trim_back_at(t, j);
        assert(t.subrange(0, j) =~= s.subrange(0, j));
    }
}

/// `str::trim`, verified against `trim_spec`.
pub fn trim_str<'a>(s: &'a str) -> (r: &'a str)
    ensures
        r@ == trim_spec(s@),
{
    let n = s.unicode_len();
    let mut lo: usize = 0;
    while lo < n && is_space(s.get_char(lo))
        invariant
            n == s@.len(),
            lo <= n,
            forall|k: int| 0 <= k < lo ==> is_space_char(s@[k]),
        decreases n - lo,
    {
        lo += 1;
    }
    let mut hi: usize = n;
    while hi > lo && is_space(s.get_char(hi - 1))
        invariant
            n == s@.len(),
            lo <= hi <= n,
            forall|k: int| hi <= k < n ==> is_space_char(s@[k]),
        decreases hi,
    {
        hi -= 1;
    }
    proof {
        lemma_trim_front_at(s@, lo as int);
        let t = s@.subrange(lo as int, n as int);
        assert(forall|k: int|
            hi - lo <= k < t.len() ==> is_space_char(#[trigger] t[k]));
        lemma_trim_back_at(t, hi - lo);
        assert(t.subrange(0, hi - lo) =~= s@.subrange(lo as int, hi as int));
    }
    s.substring_char(lo, hi)
}

/// The character sequences behind an optional string.
pub open spec fn opt_view(v: Option<String>) -> Option<Seq<char>> {
    match v {
        Some(s) => Some(s@),
        None => None,
    }
}

/// What [`clean_opt`] keeps: the trimmed value, or nothing when trimming
/// leaves it empty.
pub open spec fn clean_spec(v: Option<Seq<char>>) -> Option<Seq<char>> {
    match v {
        Some(s) => if trim_spec(s).len() == 0 {
            None
        } else {
            Some(trim_spec(s))
        },
        None => None,
    }
}

/// Drops an optional field, treating a whitespace-only value as absent;
/// a present value comes back trimmed.
pub fn clean_opt(input: Option<String>) -> (r: Option<String>)
    ensures
        opt_view(r) == clean_spec(opt_view(input)),
{
    match input {
        None => None,
        Some(s) => {
            let t = trim_str(s.as_str());
            if t.unicode_len() == 0 {
                None
            } else {
                Some(t.to_owned())
            }
        },
    }
}

/// Clones an optional string, value for value.
pub fn clone_opt_string(o: &Option<String>) -> (r: Option<String>)
    ensures
        r == *o,
{
    match o {
        Some(s) => Some(s.clone()),
        None => None,
    }
}

/// A control code: the Unicode `Cc` category, the set `char::is_control`
/// recognises.
pub open spec fn is_control_char(c: char) -> bool {
    (c as u32) < 0x20 || (0x7f <= c as u32 && c as u32 <= 0x9f)
}

pub fn is_control(c: char) -> (b: bool)
    ensures
        b == is_control_char(c),
{
    let u = c as u32;
    u < 0x20 || (0x7f <= u && u <= 0x9f)
}

pub open spec fn has_control(s: Seq<char>) -> bool {
    exists|i: int| 0 <= i < s.len() && is_control_char(s[i])
}

/// How many bytes the UTF-8 encoding of one character takes.
pub open spec fn char_utf8_len(c: char) -> int {
    if (c as u32) < 0x80 {
        1
    } else if (c as u32) < 0x800 {
        2
    } else if (c as u32) < 0x10000 {
        3
    } else {
        4
    }
}

/// How many bytes the UTF-8 encoding of the string takes.
pub open spec fn utf8_len(s: Seq<char>) -> int
    decreases s.len(),
{
    if s.len() == 0 {
        0
    } else {
        utf8_len(s.drop_last()) + char_utf8_len(s.last())
    }
}

/// Extending a string never shortens its encoding.
proof fn lemma_utf8_len_extend(p: Seq<char>, q: Seq<char>)
    requires
        p.len() <= q.len(),
        p == q.subrange(0, p.len() as int),
    ensures
        utf8_len(q) >= utf8_len(p),
    decreases q.len() - p.len(),
{
    if p.len() == q.len() {
        assert(p =~= q);
    } else {
        let t = q.drop_last();
        assert(p == t.subrange(0, p.len() as int));
        lemma_utf8_len_extend(p, t);
    }
}

/// What [`sanitize_emoji`] keeps: the trimmed tag when it is non-empty,
/// at most 32 bytes long and free of control codes; nothing otherwise.
pub open spec fn sanitize_spec(v: Option<Seq<char>>) -> Option<Seq<char>> {
    match v {
        Some(s) => {
            let t = trim_spec(s);
            if t.len() == 0 || utf8_len(t) > 32 || has_control(t) {
                None
            } else {
                Some(t)
            }
        },
        None => None,
    }
}

/// Accepts an optional display tag: the value is trimmed and must then be
/// non-empty, at most 32 bytes long and free of control codes; anything
/// else is treated as absent.
pub fn sanitize_emoji(input: Option<String>) -> (r: Option<String>)
    ensures
        opt_view(r) == sanitize_spec(opt_view(input)),
{
    let s = match input {
        None => {
            return None;
        },
        Some(s) => s,
    };
    let t = trim_str(s.as_str());
    let n = t.unicode_len();
    if n == 0 {
        return None;
    }
    let mut total: usize = 0;
    let mut i: usize = 0;
    while i < n
        invariant
            input == Some(s),
            t@ == trim_spec(s@),
            t@.len() > 0,
            n == t@.len(),
            i <= n,
            total == utf8_len(t@.subrange(0, i as int)),
            total <= 32,
            forall|k: int| 0 <= k < i ==> !is_control_char(t@[k]),
        decreases n - i,
    {
        let c = t.get_char(i);
        if is_control(c) {
            return None;
        }
        let u = c as u32;
        let step: usize = if u < 0x80 {
            1
        } else if u < 0x800 {
            2
        } else if u < 0x10000 {
            3
        } else {
            4
        };
        proof {
            let p2 = t@.subrange(0, i + 1);
            assert(p2.drop_last() =~= t@.subrange(0, i as int));
            assert(p2.last() == t@[i as int]);
        }
        if total + step > 32 {
            proof {
                let p2 = t@.subrange(0, i + 1);
                assert(p2 =~= t@.subrange(0, p2.len() as int));
                lemma_utf8_len_extend(p2, t@);
                assert(t@.subrange(0, t@.len() as int) =~= t@);
            }
            return None;
        }
        total = total + step;
        i += 1;
    }
    proof {
        assert(t@.subrange(0, n as int) =~= t@);
        assert(!has_control(t@)) by {
            if has_control(t@) {
                let k = choose|k: int| 0 <= k < t@.len() && is_control_char(t@[k]);
            }
        }
    }
    Some(t.to_owned())
}

} // verus!
