//! Content-based tag selection: a pure, total function from a URL to a
//! short display tag, with a fixed default; and the client-type sniffing
//! that picks a plain-text reply for command-line tools.

use vstd::prelude::*;

use crate::text::{trim_spec, trim_str};

verus! {

/// What `str::to_lowercase` yields; the result depends on the characters
/// alone.
pub uninterp spec fn lower_of(s: Seq<char>) -> Seq<char>;

/// Relies on `str::to_lowercase`: the lowercase mapping of the string.
#[verifier::external_body]
pub fn lowercase(s: &str) -> (r: String)
    ensures
        r@ == lower_of(s@),
{
    s.to_lowercase()
}

/// Containment of a contiguous substring.
pub open spec fn contains_seq(s: Seq<char>, p: Seq<char>) -> bool {
    exists|i: int| 0 <= i <= s.len() - p.len() && #[trigger] s.subrange(i, i + p.len()) == p
}

/// Relies on `str::contains` with a string pattern: true exactly when the
/// pattern occurs as a contiguous substring.
#[verifier::external_body]
fn str_contains(s: &str, pat: &str) -> (r: bool)
    ensures
        r == contains_seq(s@, pat@),
{
    s.contains(pat)
}

pub open spec fn shipping_vibe(u: Seq<char>) -> bool {
    ||| contains_seq(u, "awb"@)
    ||| contains_seq(u, "track"@)
    ||| contains_seq(u, "tracking"@)
    ||| contains_seq(u, "fancourier"@)
    ||| contains_seq(u, "sameday"@)
    ||| contains_seq(u, "dhl"@)
    ||| contains_seq(u, "fedex"@)
    ||| contains_seq(u, "ups"@)
    ||| contains_seq(u, "gls"@)
    ||| contains_seq(u, "dpd"@)
}

pub open spec fn document_vibe(u: Seq<char>) -> bool {
    ||| contains_seq(u, ".pdf"@)
    ||| contains_seq(u, "invoice"@)
    ||| contains_seq(u, "factura"@)
    ||| contains_seq(u, "anaf"@)
    ||| contains_seq(u, "contract"@)
    ||| contains_seq(u, "docs.google"@)
    ||| contains_seq(u, "drive"@)
}

pub open spec fn music_vibe(u: Seq<char>) -> bool {
    ||| contains_seq(u, "spotify"@)
    ||| contains_seq(u, "music.youtube"@)
    ||| contains_seq(u, "soundcloud"@)
    ||| contains_seq(u, "bandcamp"@)
}

pub open spec fn map_vibe(u: Seq<char>) -> bool {
    ||| contains_seq(u, "maps"@)
    ||| contains_seq(u, "goo.gl/maps"@)
    ||| contains_seq(u, "waze"@)
    ||| contains_seq(u, "openstreetmap"@)
}

pub open spec fn payment_vibe(u: Seq<char>) -> bool {
    ||| contains_seq(u, "stripe"@)
    ||| contains_seq(u, "checkout"@)
    ||| contains_seq(u, "revolut"@)
    ||| contains_seq(u, "paypal"@)
    ||| contains_seq(u, "wise"@)
}

pub open spec fn dev_vibe(u: Seq<char>) -> bool {
    ||| contains_seq(u, "github"@)
    ||| contains_seq(u, "gitlab"@)
    ||| contains_seq(u, "vercel"@)
    ||| contains_seq(u, "railway"@)
    ||| contains_seq(u, "docs."@)
}

/// The default display tag.
pub open spec fn default_signet() -> Seq<char> {
    "\u{1F496}"@
}

/// The tag a lowercased URL earns, first matching family wins.
pub open spec fn vibe_of(u: Seq<char>) -> Seq<char> {
    if shipping_vibe(u) {
        "\u{1F4E6}"@
    } else if document_vibe(u) {
        "\u{1F4DC}"@
    } else if music_vibe(u) {
        "\u{1F4FB}"@
    } else if map_vibe(u) {
        "\u{1F4CD}"@
    } else if payment_vibe(u) {
        "\u{1F4B3}"@
    } else if dev_vibe(u) {
        "\u{1F9D1}\u{200D}\u{1F4BB}"@
    } else {
        default_signet()
    }
}

/// Classifies a URL into a display tag by well-known substrings of its
/// lowercase form.
pub fn detect_vibe(url: &str) -> (r: String)
    ensures
        r@ == vibe_of(lower_of(url@)),
{
    let lowered = lowercase(url);
    let u = lowered.as_str();

    if str_contains(u, "awb") || str_contains(u, "track") || str_contains(u, "tracking")
        || str_contains(u, "fancourier") || str_contains(u, "sameday") || str_contains(u, "dhl")
        || str_contains(u, "fedex") || str_contains(u, "ups") || str_contains(u, "gls")
        || str_contains(u, "dpd") {
        return String::from_str("\u{1F4E6}");
    }

    if str_contains(u, ".pdf") || str_contains(u, "invoice") || str_contains(u, "factura")
        || str_contains(u, "anaf") || str_contains(u, "contract") || str_contains(
        u,
        "docs.google",
    ) || str_contains(u, "drive") {
        return String::from_str("\u{1F4DC}");
    }

    if str_contains(u, "spotify") || str_contains(u, "music.youtube") || str_contains(
        u,
        "soundcloud",
    ) || str_contains(u, "bandcamp") {
        return String::from_str("\u{1F4FB}");
    }

    if str_contains(u, "maps") || str_contains(u, "goo.gl/maps") || str_contains(u, "waze")
        || str_contains(u, "openstreetmap") {
        return String::from_str("\u{1F4CD}");
    }

    if str_contains(u, "stripe") || str_contains(u, "checkout") || str_contains(u, "revolut")
        || str_contains(u, "paypal") || str_contains(u, "wise") {
        return String::from_str("\u{1F4B3}");
    }

    if str_contains(u, "github") || str_contains(u, "gitlab") || str_contains(u, "vercel")
        || str_contains(u, "railway") || str_contains(u, "docs.") {
        return String::from_str("\u{1F9D1}\u{200D}\u{1F4BB}");
    }

    String::from_str("\u{1F496}")
}

/// The display tag a dispatch ends up with: a caller-chosen tag that is
/// not blank wins; otherwise the URL is classified; otherwise the default.
pub open spec fn signet_of(url: Option<Seq<char>>, emoji: Option<Seq<char>>) -> Seq<char> {
    if emoji matches Some(e) && trim_spec(e).len() > 0 {
        emoji->Some_0
    } else if url is Some {
        vibe_of(lower_of(url->Some_0))
    } else {
        default_signet()
    }
}

pub fn resolve_signet(url: Option<&str>, emoji: Option<String>) -> (r: String)
    ensures
        r@ == signet_of(
            match url {
                Some(u) => Some(u@),
                None => None,
            },
            match emoji {
                Some(e) => Some(e@),
                None => None,
            },
        ),
{
    let kept: Option<String> = match emoji {
        Some(e) => {
            let blank = trim_str(e.as_str()).unicode_len() == 0;
            if blank {
                None
            } else {
                Some(e)
            }
        },
        None => None,
    };
    match kept {
        Some(e) => e,
        None => match url {
            Some(link) => detect_vibe(link),
            None => String::from_str("\u{1F496}"),
        },
    }
}

/// Whether a request reads as coming from a command-line client: the
/// lowercased user agent names a common tool, or the lowercased accept
/// header asks for plain text.
pub open spec fn cli_request(ua_lower: Seq<char>, accept_lower: Seq<char>) -> bool {
    ||| contains_seq(ua_lower, "curl"@)
    ||| contains_seq(ua_lower, "wget"@)
    ||| contains_seq(ua_lower, "httpie"@)
    ||| contains_seq(accept_lower, "text/plain"@)
}

pub fn is_cli_request(ua: &str, accept: &str) -> (r: bool)
    ensures
        r == cli_request(lower_of(ua@), lower_of(accept@)),
{
    let ua_lower = lowercase(ua);
    let ul = ua_lower.as_str();
    if str_contains(ul, "curl") || str_contains(ul, "wget") || str_contains(ul, "httpie") {
        return true;
    }
    let accept_lower = lowercase(accept);
    str_contains(accept_lower.as_str(), "text/plain")
}

} // verus!
