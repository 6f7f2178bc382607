//! The link ledger: a table of short-lived link entries with read-only
//! peek, atomic view consumption ("commence") and unconditional burn.
//!
//! An entry with `max_views = k` is deleted by the consume that would let
//! `views` reach `k`, so a stored entry never shows `views == max_views`.
//! Time expiry is lazy: an expired entry merely becomes invisible to peek
//! and consume, and only a burn removes it physically.

use vstd::prelude::*;

use crate::CoreError;
use crate::text::clone_opt_string;
use crate::assoc::{
    assoc_index, assoc_map, assoc_unique, lemma_find_absent, lemma_find_present,
    lemma_find_some_index, lemma_map_push, lemma_map_remove, lemma_map_update,
};

verus! {

/// One stored link entry.  `views` starts at zero and only
/// [`LinkLedger::commence_journey`] raises it.
pub struct LinkEntry {
    pub url: Option<String>,
    pub note: Option<String>,
    pub created_at: i64,
    pub expires_at: Option<i64>,
    pub views: i64,
    pub max_views: Option<i64>,
    pub reply_to: Option<String>,
    pub emoji: Option<String>,
}

/// What a read-only peek hands back: the payload of an entry, without its
/// bookkeeping counters.
pub struct LinkRow {
    pub url: Option<String>,
    pub note: Option<String>,
    pub expires_at: Option<i64>,
    pub reply_to: Option<String>,
    pub emoji: Option<String>,
}

/// The per-entry invariant: the view counter is non-negative and, when a
/// view budget is set, strictly below it.
pub open spec fn entry_wf(e: LinkEntry) -> bool {
    &&& 0 <= e.views
    &&& (e.max_views matches Some(m) ==> e.views < m)
}

/// The predicate that peek and consume share: the entry is not yet
/// time-expired and its view budget, if any, is not exhausted.
pub open spec fn entry_live(e: LinkEntry, now: i64) -> bool {
    &&& (e.expires_at matches Some(x) ==> x > now)
    &&& (e.max_views matches Some(m) ==> e.views < m)
}

/// Every stored entry satisfies [`entry_wf`].
pub open spec fn ledger_inv(m: Map<Seq<char>, LinkEntry>) -> bool {
    forall|k: Seq<char>| m.contains_key(k) ==> entry_wf(m[k])
}

/// Whether `slug` answers a peek or a consume at time `now`.
pub open spec fn visible(m: Map<Seq<char>, LinkEntry>, slug: Seq<char>, now: i64) -> bool {
    m.contains_key(slug) && entry_live(m[slug], now)
}

/// The entry after one successful consume that does not exhaust it.  The
/// counter saturates at the machine bound; with a view budget set it never
/// gets near it.
pub open spec fn bump_views(e: LinkEntry) -> LinkEntry {
    LinkEntry { views: if e.views == i64::MAX { e.views } else { (e.views + 1) as i64 }, ..e }
}

/// The ledger after one `Consume(slug, now)`: untouched on a miss, the
/// entry removed when this view reaches the budget, the counter bumped
/// otherwise.
pub open spec fn consume_map(m: Map<Seq<char>, LinkEntry>, slug: Seq<char>, now: i64) -> Map<
    Seq<char>,
    LinkEntry,
> {
    if !visible(m, slug, now) {
        m
    } else if m[slug].max_views matches Some(limit) && m[slug].views + 1 >= limit {
        m.remove(slug)
    } else {
        m.insert(slug, bump_views(m[slug]))
    }
}

/// The ledger.  Its view is a map from slug to entry; all operations are
/// serialized per ledger value, which models the per-slug transaction
/// boundary of the underlying datastore.
pub struct LinkLedger {
    entries: Vec<(String, LinkEntry)>,
}

impl View for LinkLedger {
    type V = Map<Seq<char>, LinkEntry>;

    closed spec fn view(&self) -> Map<Seq<char>, LinkEntry> {
        assoc_map(self.entries@)
    }
}

impl LinkLedger {
    pub closed spec fn wf(&self) -> bool {
        &&& assoc_unique(self.entries@)
        &&& forall|i: int| 0 <= i < self.entries@.len() ==> entry_wf(#[trigger] self.entries@[i].1)
    }

    /// A well-formed ledger satisfies the map-level invariant.
    pub proof fn lemma_wf_inv(&self)
        requires
            self.wf(),
        ensures
            ledger_inv(self@),
    {
        assert forall|k: Seq<char>| self@.contains_key(k) implies entry_wf(self@[k]) by {
            let i = lemma_find_some_index(self.entries@, k);
        }
    }

    pub fn new() -> (l: LinkLedger)
        ensures
            l.wf(),
            l@ == Map::<Seq<char>, LinkEntry>::empty(),
    {
        let l = LinkLedger { entries: Vec::new() };
        proof {
            assert(l@ =~= Map::<Seq<char>, LinkEntry>::empty());
        }
        l
    }

    /// Creates the entry for `slug` with `views = 0`, or reports a
    /// conflict, leaving the ledger unchanged, when the slug is taken.
    pub fn insert_link(
        &mut self,
        slug: &str,
        url: Option<String>,
        note: Option<String>,
        created_at: i64,
        expires_at: Option<i64>,
        max_views: Option<i64>,
        reply_to: Option<String>,
        emoji: Option<String>,
    ) -> (r: Result<(), CoreError>)
        requires
            old(self).wf(),
            max_views matches Some(m) ==> m >= 1,
        ensures
            final(self).wf(),
            match r {
                Ok(()) => !old(self)@.contains_key(slug@) && final(self)@ == old(self)@.insert(
                    slug@,
                    LinkEntry {
                        url,
                        note,
                        created_at,
                        expires_at,
                        views: 0,
                        max_views,
                        reply_to,
                        emoji,
                    },
                ),
                Err(e) => e == CoreError::Conflict && old(self)@.contains_key(slug@)
                    && final(self)@ == old(self)@,
            },
    {
        match assoc_index(&self.entries, slug) {
            Some(i) => {
                proof {
                    lemma_find_present(self.entries@, i as int);
                }
                Err(CoreError::Conflict)
            },
            None => {
                let ghost s0 = self.entries@;
                let pair = (
                    slug.to_owned(),
                    LinkEntry {
                        url,
                        note,
                        created_at,
                        expires_at,
                        views: 0,
                        max_views,
                        reply_to,
                        emoji,
                    },
                );
                let ghost p = pair;
                self.entries.push(pair);
                proof {
                    lemma_find_absent(s0, p.0@);
                    lemma_map_push(s0, p);
                }
                Ok(())
            },
        }
    }

    /// Read-only peek: the payload comes back exactly when the entry is
    /// present, not time-expired and not view-exhausted; absent, expired
    /// and exhausted entries are indistinguishable.  Never mutates.
    pub fn get_link(&self, slug: &str, now: i64) -> (r: Option<LinkRow>)
        requires
            self.wf(),
        ensures
            match r {
                Some(row) => {
                    &&& visible(self@, slug@, now)
                    &&& row.url == self@[slug@].url
                    &&& row.note == self@[slug@].note
                    &&& row.expires_at == self@[slug@].expires_at
                    &&& row.reply_to == self@[slug@].reply_to
                    &&& row.emoji == self@[slug@].emoji
                },
                None => !visible(self@, slug@, now),
            },
    {
        match assoc_index(&self.entries, slug) {
            None => {
                proof {
                    lemma_find_absent(self.entries@, slug@);
                }
                None
            },
            Some(i) => {
                proof {
                    lemma_find_present(self.entries@, i as int);
                }
                let e = &self.entries[i].1;
                if entry_is_live(e, now) {
                    Some(
                        LinkRow {
                            url: clone_opt_string(&e.url),
                            note: clone_opt_string(&e.note),
                            expires_at: e.expires_at,
                            reply_to: clone_opt_string(&e.reply_to),
                            emoji: clone_opt_string(&e.emoji),
                        },
                    )
                } else {
                    None
                }
            },
        }
    }

    /// The sole mutating read.  One atomic step: a miss (absent, expired
    /// or exhausted) consumes nothing; a hit on the last budgeted view
    /// deletes the entry; any other hit raises `views` by one.
    pub fn commence_journey(&mut self, slug: &str, now: i64) -> (consumed: bool)
        requires
            old(self).wf(),
        ensures
            final(self).wf(),
            consumed == visible(old(self)@, slug@, now),
            final(self)@ == consume_map(old(self)@, slug@, now),
    {
        let i = match assoc_index(&self.entries, slug) {
            None => {
                proof {
                    lemma_find_absent(self.entries@, slug@);
                }
                return false;
            },
            Some(i) => i,
        };
        proof {
            lemma_find_present(self.entries@, i as int);
        }
        if !entry_is_live(&self.entries[i].1, now) {
            return false;
        }
        let delete = match self.entries[i].1.max_views {
            Some(limit) => self.entries[i].1.views + 1 >= limit,
            None => false,
        };
        let ghost s0 = self.entries@;
        if delete {
            self.entries.remove(i);
            proof {
                lemma_map_remove(s0, i as int);
            }
        } else {
            let p = &mut self.entries[i];
            if p.1.views < i64::MAX {
                p.1.views = p.1.views + 1;
            }
            proof {
                lemma_map_update(s0, i as int, (s0[i as int].0, bump_views(s0[i as int].1)));
            }
        }
        true
    }

    /// Unconditional delete, blind to expiry and view state; reports
    /// whether an entry was removed.
    pub fn burn_link(&mut self, slug: &str) -> (removed: bool)
        requires
            old(self).wf(),
        ensures
            final(self).wf(),
            removed == old(self)@.contains_key(slug@),
            final(self)@ == if old(self)@.contains_key(slug@) {
                old(self)@.remove(slug@)
            } else {
                old(self)@
            },
    {
        match assoc_index(&self.entries, slug) {
            None => {
                proof {
                    lemma_find_absent(self.entries@, slug@);
                }
                false
            },
            Some(i) => {
                proof {
                    lemma_find_present(self.entries@, i as int);
                }
                let ghost s0 = self.entries@;
                self.entries.remove(i);
                proof {
                    lemma_map_remove(s0, i as int);
                }
                true
            },
        }
    }
}

/// The in-transaction decision of a consume that found its row: whether
/// this view reaches the budget, so the row must be deleted rather than
/// ever show `views == max_views`.
pub fn consume_exhausts(views: i64, max_views: Option<i64>) -> (r: bool)
    ensures
        r == (max_views matches Some(limit) && views + 1 >= limit),
{
    match max_views {
        None => false,
        Some(limit) => match views.checked_add(1) {
            Some(v) => v >= limit,
            None => true,
        },
    }
}

/// The liveness predicate, executably.
fn entry_is_live(e: &LinkEntry, now: i64) -> (b: bool)
    ensures
        b == entry_live(*e, now),
{
    let exp_ok = match e.expires_at {
        Some(x) => x > now,
        None => true,
    };
    let views_ok = match e.max_views {
        Some(m) => e.views < m,
        None => true,
    };
    exp_ok && views_ok
}

/// The ledger after `n` consumes of `slug` at time `now`.
pub open spec fn consume_iter(
    m: Map<Seq<char>, LinkEntry>,
    slug: Seq<char>,
    now: i64,
    n: nat,
) -> Map<Seq<char>, LinkEntry>
    decreases n,
{
    if n == 0 {
        m
    } else {
        consume_map(consume_iter(m, slug, now, (n - 1) as nat), slug, now)
    }
}

/// View-budget law.  On an entry with `max_views = k` that is not
/// time-expired, the consumes numbered `1` to `k - views - 1` each succeed
/// and raise the counter by one, the consume numbered `k - views` succeeds
/// and removes the entry, and every consume after that misses; the counter
/// never reaches `k`.
pub proof fn lemma_view_budget(m: Map<Seq<char>, LinkEntry>, slug: Seq<char>, now: i64, n: nat)
    requires
        ledger_inv(m),
        m.contains_key(slug),
        m[slug].max_views is Some,
        m[slug].expires_at matches Some(x) ==> x > now,
    ensures
        ({
            let e = m[slug];
            let k = e.max_views->Some_0;
            let remaining = (k - e.views) as nat;
            &&& (n < remaining ==> {
                let mn = consume_iter(m, slug, now, n);
                &&& visible(mn, slug, now)
                &&& mn.contains_key(slug)
                &&& mn[slug] == LinkEntry { views: (e.views + n) as i64, ..e }
                &&& mn[slug].views < k
            })
            &&& (n >= remaining ==> {
                let mn = consume_iter(m, slug, now, n);
                &&& !mn.contains_key(slug)
                &&& !visible(mn, slug, now)
            })
        }),
    decreases n,
{
    let e = m[slug];
    let k = e.max_views->Some_0;
    let remaining = (k - e.views) as nat;
    assert(entry_wf(e));
    if n == 0 {
        assert(consume_iter(m, slug, now, 0) == m);
        assert(m[slug] == LinkEntry { views: (e.views + 0) as i64, ..e });
    } else {
        lemma_view_budget(m, slug, now, (n - 1) as nat);
        let mp = consume_iter(m, slug, now, (n - 1) as nat);
        let mn = consume_iter(m, slug, now, n);
        assert(mn == consume_map(mp, slug, now));
        if n - 1 < remaining {
            let ep = mp[slug];
            assert(ep == LinkEntry { views: (e.views + n - 1) as i64, ..e });
            assert(visible(mp, slug, now));
            if n < remaining {
                assert(ep.views + 1 < k);
                assert(mn == mp.insert(slug, bump_views(ep)));
                assert(bump_views(ep) == LinkEntry { views: (e.views + n) as i64, ..e });
            } else {
                assert(ep.views + 1 >= k);
                assert(mn == mp.remove(slug));
            }
        } else {
            assert(!mp.contains_key(slug));
            assert(!visible(mp, slug, now));
            assert(mn == mp);
        }
    }
}

/// Plain-increment law: a consume that neither misses nor exhausts the
/// budget leaves the same entry with exactly one more view and touches no
/// other slug.  For an entry without a budget the counter must sit below
/// the machine bound, where it would otherwise saturate.
pub proof fn lemma_consume_increments(m: Map<Seq<char>, LinkEntry>, slug: Seq<char>, now: i64)
    requires
        m.contains_key(slug),
        entry_live(m[slug], now),
        m[slug].max_views matches Some(k) ==> m[slug].views + 1 < k,
        m[slug].max_views is None ==> m[slug].views < i64::MAX,
    ensures
        ({
            let m2 = consume_map(m, slug, now);
            &&& m2.contains_key(slug)
            &&& m2[slug] == LinkEntry { views: (m[slug].views + 1) as i64, ..m[slug] }
            &&& m2.remove(slug) == m.remove(slug)
        }),
{
    let m2 = consume_map(m, slug, now);
    assert(m2 == m.insert(slug, bump_views(m[slug])));
    assert(m2.remove(slug) =~= m.remove(slug));
}

/// Single-view race law: of two serialized consumes on a fresh
/// `max_views = 1` entry, exactly the first succeeds; the entry does not
/// exist afterwards, and the loser changes nothing.
pub proof fn lemma_single_view_race(m: Map<Seq<char>, LinkEntry>, slug: Seq<char>, now: i64)
    requires
        ledger_inv(m),
        m.contains_key(slug),
        m[slug].max_views == Some(1i64),
        m[slug].expires_at matches Some(x) ==> x > now,
    ensures
        visible(m, slug, now),
        !consume_map(m, slug, now).contains_key(slug),
        !visible(consume_map(m, slug, now), slug, now),
        consume_map(consume_map(m, slug, now), slug, now) == consume_map(m, slug, now),
{
    assert(entry_wf(m[slug]));
    assert(m[slug].views == 0);
}

/// Insert-then-peek law: a freshly inserted entry answers a peek with its
/// payload unchanged while `now` precedes its expiry, and is invisible —
/// though still stored — once `now` reaches it.
pub proof fn lemma_insert_then_peek(
    m: Map<Seq<char>, LinkEntry>,
    slug: Seq<char>,
    e: LinkEntry,
    now: i64,
)
    requires
        e.views == 0,
        e.max_views matches Some(k) ==> k >= 1,
    ensures
        ({
            let m2 = m.insert(slug, e);
            &&& m2.contains_key(slug)
            &&& m2[slug] == e
            &&& (match e.expires_at {
                Some(x) => now < x,
                None => true,
            }) ==> visible(m2, slug, now)
            &&& (e.expires_at matches Some(x) && now >= x) ==> !visible(m2, slug, now)
        }),
{
}

/// Dead-on-arrival law: an entry whose expiry does not exceed its creation
/// time is never visible — peek misses and consume changes nothing — yet
/// it stays physically stored until a burn removes it.
pub proof fn lemma_expired_at_creation(
    m: Map<Seq<char>, LinkEntry>,
    slug: Seq<char>,
    e: LinkEntry,
    now: i64,
)
    requires
        e.expires_at matches Some(x) && x <= e.created_at,
        e.created_at <= now,
    ensures
        ({
            let m2 = m.insert(slug, e);
            &&& m2.contains_key(slug)
            &&& !visible(m2, slug, now)
            &&& consume_map(m2, slug, now) == m2
            &&& !m2.remove(slug).contains_key(slug)
        }),
{
}

} // verus!
