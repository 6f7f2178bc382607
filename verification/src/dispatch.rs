//! Planning a dispatch request: cleaning and validating the payload,
//! normalising the view budget, picking the display tag and the expiry,
//! and creating the ledger entry under a fresh random slug.

use vstd::prelude::*;

use crate::CoreError;
use crate::assoc::str_eq;
use crate::ledger::{LinkEntry, LinkLedger};
use crate::slug::{gen_slug, is_slug_char};
use crate::text::{clean_opt, clean_spec, clone_opt_string, opt_view, sanitize_emoji, sanitize_spec};
use crate::ttl::{parse_ttl, parse_ttl_result};
use crate::vibe::{resolve_signet, signet_of};

verus! {

/// The default lifetime of an entry, in seconds: seven days.
pub const DEFAULT_TTL_SECS: i64 = 604800;

/// A dispatch payload as the routing layer hands it over.
pub struct DispatchRequest {
    pub url: Option<String>,
    pub note: Option<String>,
    pub text: Option<String>,
    pub ttl: Option<String>,
    pub burn: Option<bool>,
    pub max_views: Option<i64>,
    pub reply_to: Option<String>,
    pub emoji: Option<String>,
}

/// A validated, normalised dispatch, ready to become a ledger entry.
pub struct DispatchPlan {
    pub url: Option<String>,
    pub note: Option<String>,
    pub reply_to: Option<String>,
    pub emoji: String,
    pub expires_at: i64,
    pub max_views: Option<i64>,
}

#[derive(Clone, Copy, Debug, PartialEq, Eq, Structural)]
pub enum DispatchError {
    /// Neither a URL nor a note survived cleaning.
    MissingContent,
    /// The URL does not start with an accepted scheme.
    InvalidUrl,
}

/// An accepted URL scheme prefix.
pub open spec fn url_scheme_ok(u: Seq<char>) -> bool {
    ||| u.len() >= 7 && u.subrange(0, 7) == "http://"@
    ||| u.len() >= 8 && u.subrange(0, 8) == "https://"@
}

/// The note a dispatch keeps: the cleaned `note` field, or failing that
/// the cleaned `text` field.
pub open spec fn planned_note(note: Option<Seq<char>>, text: Option<Seq<char>>) -> Option<
    Seq<char>,
> {
    if clean_spec(note) is Some {
        clean_spec(note)
    } else {
        clean_spec(text)
    }
}

/// The lifetime a dispatch asks for, in seconds; an absent or unreadable
/// time-to-live falls back to the default.
pub open spec fn planned_ttl(ttl: Option<Seq<char>>) -> i64 {
    match ttl {
        Some(t) => match parse_ttl_result(t) {
            Some(v) => v,
            None => DEFAULT_TTL_SECS,
        },
        None => DEFAULT_TTL_SECS,
    }
}

/// Addition clamped to the representable range.
pub open spec fn sat_add_i64(a: int, b: int) -> i64 {
    if a + b > i64::MAX {
        i64::MAX
    } else if a + b < i64::MIN {
        i64::MIN
    } else {
        (a + b) as i64
    }
}

/// The view budget a dispatch ends up with: a burn-after-reading flag or
/// a note-only dispatch force one view; a non-positive budget means none.
pub open spec fn planned_max_views(
    req_max: Option<i64>,
    burn: Option<bool>,
    url: Option<Seq<char>>,
) -> Option<i64> {
    let chosen = if url is None || burn == Some(true) {
        Some(1i64)
    } else {
        req_max
    };
    match chosen {
        Some(limit) => if limit <= 0 {
            None
        } else {
            Some(limit)
        },
        None => None,
    }
}

fn has_scheme(u: &str) -> (r: bool)
    ensures
        r == url_scheme_ok(u@),
{
    let n = u.unicode_len();
    if n >= 7 && str_eq(u.substring_char(0, 7), "http://") {
        return true;
    }
    if n >= 8 && str_eq(u.substring_char(0, 8), "https://") {
        return true;
    }
    false
}

/// Validates and normalises a dispatch payload.  Cleaning drops blank
/// fields; at least one of URL and note must remain, and a URL must carry
/// an accepted scheme.  The expiry is `created_at` plus the requested or
/// default lifetime, clamped to the representable range.
pub fn plan_dispatch(req: DispatchRequest, created_at: i64) -> (r: Result<
    DispatchPlan,
    DispatchError,
>)
    ensures
        ({
            let u = clean_spec(opt_view(req.url));
            let nt = planned_note(opt_view(req.note), opt_view(req.text));
            match r {
                Ok(plan) => {
                    &&& !(u is None && nt is None)
                    &&& (u matches Some(x) ==> url_scheme_ok(x))
                    &&& opt_view(plan.url) == u
                    &&& opt_view(plan.note) == nt
                    &&& opt_view(plan.reply_to) == clean_spec(opt_view(req.reply_to))
                    &&& plan.emoji@ == signet_of(u, sanitize_spec(opt_view(req.emoji)))
                    &&& plan.expires_at == sat_add_i64(
                        created_at as int,
                        planned_ttl(opt_view(req.ttl)) as int,
                    )
                    &&& plan.max_views == planned_max_views(req.max_views, req.burn, u)
                    &&& (plan.max_views matches Some(m) ==> m >= 1)
                },
                Err(e) => {
                    ||| (e == DispatchError::MissingContent && u is None && nt is None)
                    ||| (e == DispatchError::InvalidUrl && !(u is None && nt is None)
                        && (u matches Some(x) && !url_scheme_ok(x)))
                },
            }
        }),
{
    let url = clean_opt(req.url);
    let note = match clean_opt(req.note) {
        Some(n) => Some(n),
        None => clean_opt(req.text),
    };
    let reply_to = clean_opt(req.reply_to);
    let emoji = resolve_signet(
        match &url {
            Some(s) => Some(s.as_str()),
            None => None,
        },
        sanitize_emoji(req.emoji),
    );

    if url.is_none() && note.is_none() {
        return Err(DispatchError::MissingContent);
    }
    match &url {
        Some(value) => {
            if !has_scheme(value.as_str()) {
                return Err(DispatchError::InvalidUrl);
            }
        },
        None => {},
    }

    let ttl_secs = match parse_ttl(
        match &req.ttl {
            Some(t) => Some(t.as_str()),
            None => None,
        },
    ) {
        Some(v) => v,
        None => DEFAULT_TTL_SECS,
    };
    let expires_at = match created_at.checked_add(ttl_secs) {
        Some(v) => v,
        None => if ttl_secs > 0 {
            i64::MAX
        } else {
            i64::MIN
        },
    };

    let mut max_views = req.max_views;
    match req.burn {
        Some(true) => {
            max_views = Some(1);
        },
        _ => {},
    }
    if url.is_none() {
        max_views = Some(1);
    }
    match max_views {
        Some(limit) => {
            if limit <= 0 {
                max_views = None;
            }
        },
        None => {},
    }

    Ok(DispatchPlan { url, note, reply_to, emoji, expires_at, max_views })
}

/// The entry a plan stores.
pub open spec fn planned_entry(plan: DispatchPlan, created_at: i64) -> LinkEntry {
    LinkEntry {
        url: plan.url,
        note: plan.note,
        created_at,
        expires_at: Some(plan.expires_at),
        views: 0,
        max_views: plan.max_views,
        reply_to: plan.reply_to,
        emoji: Some(plan.emoji),
    }
}

/// Inserts the planned entry under a fresh random slug, retrying a
/// bounded number of times on slug collisions: one six-character attempt,
/// then seven-character attempts.  Exhausting the attempts leaves the
/// ledger unchanged, and can only happen when every draw collided — so a
/// failure proves the ledger already held a slug of the drawn lengths.
pub fn create_link(ledger: &mut LinkLedger, plan: &DispatchPlan, created_at: i64) -> (r: Result<
    String,
    CoreError,
>)
    requires
        old(ledger).wf(),
        plan.max_views matches Some(m) ==> m >= 1,
    ensures
        final(ledger).wf(),
        match r {
            Ok(slug) => {
                &&& !old(ledger)@.contains_key(slug@)
                &&& final(ledger)@ == old(ledger)@.insert(slug@, planned_entry(*plan, created_at))
                &&& (slug@.len() == 6 || slug@.len() == 7)
                &&& forall|i: int| 0 <= i < slug@.len() ==> is_slug_char(slug@[i])
            },
            Err(e) => {
                &&& e == CoreError::CreateFailed
                &&& final(ledger)@ == old(ledger)@
                &&& exists|k: Seq<char>|
                    #[trigger] old(ledger)@.contains_key(k) && (k.len() == 6 || k.len() == 7)
            },
        },
{
    let mut attempt: usize = 0;
    while attempt < 5
        invariant
            attempt <= 5,
            ledger.wf(),
            ledger@ == old(ledger)@,
            plan.max_views matches Some(m) ==> m >= 1,
            attempt >= 1 ==> exists|k: Seq<char>|
                #[trigger] old(ledger)@.contains_key(k) && (k.len() == 6 || k.len() == 7),
        decreases 5 - attempt,
    {
        let len: usize = if attempt == 0 {
            6
        } else {
            7
        };
        let slug = gen_slug(len);
        let outcome = ledger.insert_link(
            slug.as_str(),
            clone_opt_string(&plan.url),
            clone_opt_string(&plan.note),
            created_at,
            Some(plan.expires_at),
            plan.max_views,
            clone_opt_string(&plan.reply_to),
            Some(plan.emoji.clone()),
        );
        match outcome {
            Ok(()) => {
                return Ok(slug);
            },
            Err(_) => {
                proof {
                    assert(old(ledger)@.contains_key(slug@));
                }
            },
        }
        attempt += 1;
    }
    Err(CoreError::CreateFailed)
}

} // verus!
