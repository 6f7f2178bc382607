//! Time-to-live strings: `"7d"`, `"24h"`, `"30m"`, read into seconds.

use vstd::prelude::*;

verus! {

pub open spec fn is_digit_char(c: char) -> bool {
    0x30 <= c as u32 && c as u32 <= 0x39
}

pub open spec fn digit_val(c: char) -> int {
    c as u32 - 0x30
}

pub open spec fn all_digits(s: Seq<char>) -> bool {
    forall|i: int| 0 <= i < s.len() ==> is_digit_char(s[i])
}

/// The number a digit string denotes in decimal.
pub open spec fn dec_val(s: Seq<char>) -> int
    decreases s.len(),
{
    if s.len() == 0 {
        0
    } else {
        dec_val(s.drop_last()) * 10 + digit_val(s.last())
    }
}

/// The mathematical value `str::parse::<i64>` reads: an optional sign,
/// then at least one digit.
pub open spec fn parse_i64_spec(s: Seq<char>) -> Option<int> {
    if s.len() >= 1 && (s[0] == '+' || s[0] == '-') {
        let d = s.drop_first();
        if d.len() >= 1 && all_digits(d) {
            if s[0] == '-' {
                Some(-dec_val(d))
            } else {
                Some(dec_val(d))
            }
        } else {
            None
        }
    } else if s.len() >= 1 && all_digits(s) {
        Some(dec_val(s))
    } else {
        None
    }
}

/// What `str::parse::<i64>().ok()` yields: the value when it is
/// representable, nothing otherwise.
pub open spec fn parse_i64_result(s: Seq<char>) -> Option<i64> {
    match parse_i64_spec(s) {
        Some(v) => if i64::MIN <= v <= i64::MAX {
            Some(v as i64)
        } else {
            None
        },
        None => None,
    }
}

proof fn lemma_dec_val_nonneg(s: Seq<char>)
    requires
        all_digits(s),
    ensures
        dec_val(s) >= 0,
    decreases s.len(),
{
    if s.len() > 0 {
        let t = s.drop_last();
        assert(forall|i: int| 0 <= i < t.len() ==> is_digit_char(#[trigger] t[i]));
        lemma_dec_val_nonneg(t);
    }
}

/// Appending digits never shrinks the value.
proof fn lemma_dec_val_extend(p: Seq<char>, q: Seq<char>)
    requires
        all_digits(q),
        p.len() <= q.len(),
        p == q.subrange(0, p.len() as int),
    ensures
        dec_val(q) >= dec_val(p),
    decreases q.len() - p.len(),
{
    if p.len() == q.len() {
        assert(p =~= q);
    } else {
        let t = q.drop_last();
        assert(forall|i: int| 0 <= i < t.len() ==> is_digit_char(#[trigger] t[i]));
        assert(p == t.subrange(0, p.len() as int));
        lemma_dec_val_extend(p, t);
        lemma_dec_val_nonneg(t);
    }
}

/// `str::parse::<i64>().ok()`, verified against [`parse_i64_result`].
pub fn parse_i64(s: &str) -> (r: Option<i64>)
    ensures
        r == parse_i64_result(s@),
{
    let n = s.unicode_len();
    if n == 0 {
        return None;
    }
    let first = s.get_char(0);
    let neg = first == '-';
    let start: usize = if first == '-' || first == '+' {
        1
    } else {
        0
    };
    if n == start {
        return None;
    }
    let ghost digits = s@.subrange(start as int, n as int);
    proof {
        if start == 1 {
            assert(digits =~= s@.drop_first());
        } else {
            assert(digits =~= s@);
        }
        assert(forall|j: int| 0 <= j < digits.len() ==> digits[j] == s@[start + j]);
    }
    let mut mag: u128 = 0;
    let mut i: usize = start;
    while i < n
        invariant
            n == s@.len(),
            start <= i <= n,
            start < n,
            start == 0 || start == 1,
            neg == (s@[0] == '-'),
            (start == 1) == (s@[0] == '+' || s@[0] == '-'),
            digits == s@.subrange(start as int, n as int),
            start == 1 ==> digits == s@.drop_first(),
            start == 0 ==> digits == s@,
            forall|j: int| 0 <= j < digits.len() ==> digits[j] == s@[start + j],
            forall|k: int| start <= k < i ==> is_digit_char(s@[k]),
            mag == dec_val(s@.subrange(start as int, i as int)),
            mag <= (i64::MAX as u128) + 1,
        decreases n - i,
    {
        let c = s.get_char(i);
        let u = c as u32;
        if !(0x30 <= u && u <= 0x39) {
            proof {
                assert(digits[i - start] == s@[i as int]);
                assert(!all_digits(digits));
            }
            return None;
        }
        let d = (u - 0x30) as u128;
        let ghost prefix = s@.subrange(start as int, i as int);
        let ghost prefix2 = s@.subrange(start as int, i + 1 as int);
        proof {
            assert(prefix2.drop_last() =~= prefix);
            assert(prefix2.last() == s@[i as int]);
        }
        mag = mag * 10 + d;
        i += 1;
        if mag > 0x8000_0000_0000_0000u128 {
            proof {
                if all_digits(digits) {
                    assert(prefix2 =~= digits.subrange(0, prefix2.len() as int));
                    lemma_dec_val_extend(prefix2, digits);
                    assert(dec_val(digits) > (i64::MAX as int) + 1);
                }
            }
            return None;
        }
    }
    proof {
        assert(s@.subrange(start as int, n as int) =~= digits);
        assert(forall|j: int| 0 <= j < digits.len() ==> is_digit_char(#[trigger] digits[j]));
        assert(all_digits(digits));
        assert(mag == dec_val(digits));
    }
    if neg {
        if mag == 0x8000_0000_0000_0000u128 {
            Some(i64::MIN)
        } else {
            Some(-((mag as i64)))
        }
    } else {
        if mag == 0x8000_0000_0000_0000u128 {
            None
        } else {
            Some(mag as i64)
        }
    }
}

/// The seconds a time-to-live string denotes: a number followed by a unit
/// (`d`, `h` or `m`); anything else denotes nothing.
pub open spec fn parse_ttl_spec(s: Seq<char>) -> Option<int> {
    if s.len() < 2 {
        None
    } else {
        match parse_i64_result(s.drop_last()) {
            Some(n) => if s.last() == 'd' {
                Some(n * 86400)
            } else if s.last() == 'h' {
                Some(n * 3600)
            } else if s.last() == 'm' {
                Some(n * 60)
            } else {
                None
            },
            None => None,
        }
    }
}

/// [`parse_ttl_spec`], cut to the representable: an unrepresentable
/// second count denotes nothing.
pub open spec fn parse_ttl_result(s: Seq<char>) -> Option<i64> {
    match parse_ttl_spec(s) {
        Some(v) => if i64::MIN <= v <= i64::MAX {
            Some(v as i64)
        } else {
            None
        },
        None => None,
    }
}

/// Reads an optional time-to-live string into seconds.
pub fn parse_ttl(ttl: Option<&str>) -> (r: Option<i64>)
    ensures
        r == match ttl {
            Some(t) => parse_ttl_result(t@),
            None => None,
        },
{
    let t = match ttl {
        Some(t) => t,
        None => {
            return None;
        },
    };
    let n = t.unicode_len();
    if n < 2 {
        return None;
    }
    let unit = t.get_char(n - 1);
    let num = t.substring_char(0, n - 1);
    proof {
        assert(num@ =~= t@.drop_last());
        assert(t@.last() == unit);
    }
    let value = match parse_i64(num) {
        Some(v) => v,
        None => {
            return None;
        },
    };
    let factor: i64 = if unit == 'd' {
        86400
    } else if unit == 'h' {
        3600
    } else if unit == 'm' {
        60
    } else {
        return None;
    };
    let wide = (value as i128) * (factor as i128);
    if wide < (i64::MIN as i128) || wide > (i64::MAX as i128) {
        return None;
    }
    Some(wide as i64)
}

} // verus!
