//! Short identifier generation: random slugs over an unambiguous charset.

use vstd::prelude::*;

verus! {

/// The characters a slug may hold: lowercase letters and digits without
/// the easily confused `i`, `l`, `o`, `0`, `1`.
pub open spec fn is_slug_char(c: char) -> bool {
    ||| ('a' <= c && c <= 'z') && c != 'i' && c != 'l' && c != 'o'
    ||| ('2' <= c && c <= '9')
}

/// Relies on `rand::random_range`: a uniformly random index below the
/// bound; an empty range would panic, so the bound must be positive.
#[verifier::external_body]
fn random_below(bound: usize) -> (r: usize)
    requires
        1 <= bound,
    ensures
        r < bound,
{
    rand::random_range(0..bound)
}

/// Relies on `String::push`: appends exactly the given character.
#[verifier::external_body]
pub fn push_char(s: &mut String, c: char)
    ensures
        final(s)@ == old(s)@.push(c),
{
    s.push(c);
}

/// The charset, in draw order.
pub open spec fn slug_charset() -> Seq<char> {
    seq![
        'a', 'b', 'c', 'd', 'e', 'f', 'g', 'h', 'j', 'k', 'm', 'n', 'p', 'q', 'r', 's', 't', 'u',
        'v', 'w', 'x', 'y', 'z', '2', '3', '4', '5', '6', '7', '8', '9',
    ]
}

/// The charset, indexed.
fn slug_char(idx: usize) -> (c: char)
    requires
        idx < 31,
    ensures
        c == slug_charset()[idx as int],
        is_slug_char(c),
{
    match idx {
        0 => 'a',
        1 => 'b',
        2 => 'c',
        3 => 'd',
        4 => 'e',
        5 => 'f',
        6 => 'g',
        7 => 'h',
        8 => 'j',
        9 => 'k',
        10 => 'm',
        11 => 'n',
        12 => 'p',
        13 => 'q',
        14 => 'r',
        15 => 's',
        16 => 't',
        17 => 'u',
        18 => 'v',
        19 => 'w',
        20 => 'x',
        21 => 'y',
        22 => 'z',
        23 => '2',
        24 => '3',
        25 => '4',
        26 => '5',
        27 => '6',
        28 => '7',
        29 => '8',
        _ => '9',
    }
}

/// A fresh random slug of `len` characters, easy to dictate and to
/// transcribe.
pub fn gen_slug(len: usize) -> (r: String)
    ensures
        r@.len() == len,
        forall|i: int| 0 <= i < r@.len() ==> is_slug_char(r@[i]),
{
    let mut s = String::new();
    let mut i: usize = 0;
    while i < len
        invariant
            i <= len,
            s@.len() == i,
            forall|k: int| 0 <= k < i ==> is_slug_char(s@[k]),
        decreases len - i,
    {
        let idx = random_below(31);
        let c = slug_char(idx);
        push_char(&mut s, c);
        i += 1;
    }
    s
}

} // verus!
