//! Ephemeral broadcast chat rooms and their process-wide registry.
//!
//! A room pairs a bounded broadcast channel with a last-activity clock and
//! a burned flag.  The registry (the hub) is the map of record: removing
//! an id from it is the authoritative "destroyed" transition, and the
//! terminal burn event is broadcast to the subscribers attached before the
//! removal.  A ghost history records every event handed to the channel, so
//! the terminal-burn shape of a room's stream is provable.

use vstd::prelude::*;

use tokio::sync::broadcast::{Receiver, Sender};

use crate::CoreError;
use crate::assoc::{
    assoc_index, assoc_map, assoc_unique, lemma_find_absent, lemma_find_present,
    lemma_find_some_index, lemma_map_push, lemma_map_remove, lemma_map_update,
};

verus! {

/// How many events a room's broadcast channel buffers per subscriber; a
/// subscriber further behind than this loses its oldest unread events.
pub const EVENT_CAPACITY: usize = 64;

/// One server-to-client room event.
#[derive(Clone, Debug, PartialEq)]
pub enum JointEvent {
    Chat { name: String, text: String, ts: i64 },
    System { text: String, ts: i64 },
    Burn { ts: i64 },
}

pub open spec fn is_burn_event(e: JointEvent) -> bool {
    e matches JointEvent::Burn { .. }
}

#[verifier::external_type_specification]
#[verifier::external_body]
#[verifier::reject_recursive_types(T)]
pub struct ExBroadcastSender<T>(Sender<T>);

#[verifier::external_type_specification]
#[verifier::external_body]
#[verifier::reject_recursive_types(T)]
pub struct ExBroadcastReceiver<T>(Receiver<T>);

/// Relies on `tokio::sync::broadcast::Sender::subscribe`: a new receiver
/// that observes every event sent from this call on.
#[verifier::external_body]
fn subscribe_events(tx: &Sender<JointEvent>) -> Receiver<JointEvent> {
    tx.subscribe()
}

/// Relies on `tokio::sync::broadcast::channel`: allocates a bounded
/// broadcast channel and hands back its sending half.  The call panics
/// only on a zero capacity or one above `usize::MAX / 2`; the
/// precondition rules both out.
#[verifier::external_body]
fn new_event_channel(capacity: usize) -> Sender<JointEvent>
    requires
        1 <= capacity <= usize::MAX / 2,
{
    tokio::sync::broadcast::channel(capacity).0
}

/// Relies on `tokio::sync::broadcast::Sender::send`: hands the event to
/// every subscriber now attached, in send order, never blocking.  The
/// result (receiver count, or an error when nobody listens) is not needed.
#[verifier::external_body]
fn send_event(tx: &Sender<JointEvent>, ev: JointEvent) {
    let _ = tx.send(ev);
}

/// The shape of a room's broadcast history: no burn event while the room
/// is alive; once burned, exactly one, as the final event.
pub open spec fn room_history_wf(h: Seq<JointEvent>, burned: bool) -> bool {
    if burned {
        &&& h.len() > 0
        &&& is_burn_event(h.last())
        &&& forall|i: int| 0 <= i < h.len() - 1 ==> !is_burn_event(h[i])
    } else {
        forall|i: int| 0 <= i < h.len() ==> !is_burn_event(h[i])
    }
}

/// One chat room: a broadcast channel, a last-activity clock and a burned
/// flag, together with the ghost history of everything broadcast.
pub struct JointRoom {
    tx: Sender<JointEvent>,
    activity: i64,
    burned_flag: bool,
    hist: Ghost<Seq<JointEvent>>,
}

impl JointRoom {
    pub closed spec fn burned(&self) -> bool {
        self.burned_flag
    }

    pub closed spec fn last_active(&self) -> i64 {
        self.activity
    }

    /// Every event this room has ever broadcast, oldest first.
    pub closed spec fn events(&self) -> Seq<JointEvent> {
        self.hist@
    }

    pub closed spec fn wf(&self) -> bool {
        room_history_wf(self.hist@, self.burned_flag)
    }

    pub fn new(now: i64) -> (r: JointRoom)
        ensures
            r.wf(),
            !r.burned(),
            r.last_active() == now,
            r.events() == Seq::<JointEvent>::empty(),
    {
        JointRoom {
            tx: new_event_channel(EVENT_CAPACITY),
            activity: now,
            burned_flag: false,
            hist: Ghost(Seq::empty()),
        }
    }

    pub fn is_burned(&self) -> (b: bool)
        ensures
            b == self.burned(),
    {
        self.burned_flag
    }

    pub fn last_activity(&self) -> (t: i64)
        ensures
            t == self.last_active(),
    {
        self.activity
    }

    /// The sending half of the room's channel; a connection subscribes
    /// here before relaying.
    pub fn sender(&self) -> &Sender<JointEvent> {
        &self.tx
    }

    /// A participant joined: refresh the activity clock and broadcast the
    /// arrival notice.
    pub fn join(&mut self, name: &str, now: i64)
        requires
            old(self).wf(),
            !old(self).burned(),
        ensures
            final(self).wf(),
            !final(self).burned(),
            final(self).last_active() == now,
            final(self).events().drop_last() == old(self).events(),
            final(self).events().len() == old(self).events().len() + 1,
            final(self).events().last() matches JointEvent::System { text, ts }
                && text@ == name@ + " joined"@ && ts == now,
    {
        let mut text = String::from_str(name);
        text.append(" joined");
        let ev = JointEvent::System { text, ts: now };
        self.activity = now;
        proof {
            self.hist@ = self.hist@.push(ev);
        }
        send_event(&self.tx, ev);
        proof {
            assert(self.hist@.drop_last() =~= old(self).hist@);
        }
    }

    /// An inbound chat frame.  A burned room takes nothing.  Otherwise the
    /// activity clock is refreshed and the trimmed text, when not blank,
    /// is broadcast; blank text is dropped.
    pub fn chat(&mut self, name: &str, text: &str, now: i64) -> (published: bool)
        requires
            old(self).wf(),
        ensures
            final(self).wf(),
            final(self).burned() == old(self).burned(),
            old(self).burned() ==> *final(self) == *old(self) && !published,
            !old(self).burned() ==> final(self).last_active() == now && published == (
            crate::text::trim_spec(text@).len() != 0),
            !old(self).burned() && !published ==> final(self).events() == old(self).events(),
            !old(self).burned() && published ==> {
                &&& final(self).events().drop_last() == old(self).events()
                &&& final(self).events().len() == old(self).events().len() + 1
                &&& final(self).events().last() matches JointEvent::Chat { name: n, text: t, ts }
                    && n@ == name@ && t@ == crate::text::trim_spec(text@) && ts == now
            },
    {
        if self.burned_flag {
            return false;
        }
        self.activity = now;
        let cleaned = crate::text::trim_str(text);
        if cleaned.unicode_len() == 0 {
            return false;
        }
        let ev = JointEvent::Chat { name: String::from_str(name), text: cleaned.to_owned(), ts: now };
        proof {
            self.hist@ = self.hist@.push(ev);
        }
        send_event(&self.tx, ev);
        proof {
            assert(self.hist@.drop_last() =~= old(self).hist@);
        }
        true
    }

    /// An inbound keepalive: refreshes the activity clock of a live room
    /// and broadcasts nothing.
    pub fn ping(&mut self, now: i64)
        requires
            old(self).wf(),
        ensures
            final(self).wf(),
            final(self).burned() == old(self).burned(),
            final(self).events() == old(self).events(),
            old(self).burned() ==> *final(self) == *old(self),
            !old(self).burned() ==> final(self).last_active() == now,
    {
        if !self.burned_flag {
            self.activity = now;
        }
    }

    /// The terminal transition: mark the room burned and broadcast the one
    /// burn event to everyone still subscribed.
    pub fn burn(&mut self, now: i64)
        requires
            old(self).wf(),
            !old(self).burned(),
        ensures
            final(self).wf(),
            final(self).burned(),
            final(self).last_active() == old(self).last_active(),
            final(self).events() == old(self).events().push(JointEvent::Burn { ts: now }),
    {
        self.burned_flag = true;
        let ev = JointEvent::Burn { ts: now };
        proof {
            self.hist@ = self.hist@.push(ev);
        }
        send_event(&self.tx, ev);
    }
}

/// Terminal-burn law: a burned room's broadcast history carries exactly
/// one burn event, and it is the last event of the stream.
pub proof fn lemma_burn_terminal(r: &JointRoom)
    requires
        r.wf(),
        r.burned(),
    ensures
        r.events().len() > 0,
        is_burn_event(r.events().last()),
        forall|i: int| 0 <= i < r.events().len() - 1 ==> !is_burn_event(r.events()[i]),
{
}

/// How one inbound chat frame moves a live room from `r0` to `r1`: the
/// activity clock reads `now`, and the trimmed text, unless blank, is the
/// one new event of the stream.
pub open spec fn chat_step(
    r0: JointRoom,
    r1: JointRoom,
    name: Seq<char>,
    text: Seq<char>,
    now: i64,
) -> bool {
    &&& !r1.burned()
    &&& r1.last_active() == now
    &&& if crate::text::trim_spec(text).len() == 0 {
        r1.events() == r0.events()
    } else {
        &&& r1.events().drop_last() == r0.events()
        &&& r1.events().len() == r0.events().len() + 1
        &&& (r1.events().last() matches JointEvent::Chat { name: n, text: t, ts } && n@ == name
            && t@ == crate::text::trim_spec(text) && ts == now)
    }
}

/// How an attach moves a live room from `r0` to `r1`: the activity clock
/// reads `now` and the arrival notice is the one new event of the stream.
pub open spec fn join_step(r0: JointRoom, r1: JointRoom, name: Seq<char>, now: i64) -> bool {
    &&& !r1.burned()
    &&& r1.last_active() == now
    &&& r1.events().drop_last() == r0.events()
    &&& r1.events().len() == r0.events().len() + 1
    &&& (r1.events().last() matches JointEvent::System { text, ts } && text@ == name + " joined"@
        && ts == now)
}

/// A fresh room as [`JointHub::create_room`] stores it.
pub open spec fn fresh_room(r: JointRoom, now: i64) -> bool {
    &&& r.wf()
    &&& !r.burned()
    &&& r.last_active() == now
    &&& r.events() == Seq::<JointEvent>::empty()
}

/// A room that [`JointHub::cleanup`] reaps at `now`.
pub open spec fn room_stale(r: JointRoom, max_idle: i64, now: i64) -> bool {
    now - r.last_active() > max_idle
}

/// The process-wide registry of live rooms.  Its view is a map from room
/// id to room; every registered room is well-formed and not burned —
/// burning and the registry removal are one step.
pub struct JointHub {
    rooms: Vec<(String, JointRoom)>,
}

impl View for JointHub {
    type V = Map<Seq<char>, JointRoom>;

    closed spec fn view(&self) -> Map<Seq<char>, JointRoom> {
        assoc_map(self.rooms@)
    }
}

impl JointHub {
    pub closed spec fn wf(&self) -> bool {
        &&& assoc_unique(self.rooms@)
        &&& forall|i: int|
            0 <= i < self.rooms@.len() ==> (#[trigger] self.rooms@[i].1).wf()
                && !self.rooms@[i].1.burned()
    }

    /// Every registered room is well-formed and alive.
    pub proof fn lemma_rooms_alive(&self)
        requires
            self.wf(),
        ensures
            forall|k: Seq<char>|
                self@.contains_key(k) ==> (#[trigger] self@[k]).wf() && !self@[k].burned(),
    {
        assert forall|k: Seq<char>| self@.contains_key(k) implies (#[trigger] self@[k]).wf()
            && !self@[k].burned() by {
            let i = lemma_find_some_index(self.rooms@, k);
        }
    }

    pub fn new() -> (h: JointHub)
        ensures
            h.wf(),
            h@ == Map::<Seq<char>, JointRoom>::empty(),
    {
        let h = JointHub { rooms: Vec::new() };
        proof {
            assert(h@ =~= Map::<Seq<char>, JointRoom>::empty());
        }
        h
    }

    /// Shared-side lookup; never mutates.
    pub fn get_room(&self, id: &str) -> (r: Option<&JointRoom>)
        requires
            self.wf(),
        ensures
            match r {
                Some(room) => self@.contains_key(id@) && *room == self@[id@],
                None => !self@.contains_key(id@),
            },
    {
        match assoc_index(&self.rooms, id) {
            Some(i) => {
                proof {
                    lemma_find_present(self.rooms@, i as int);
                }
                Some(&self.rooms[i].1)
            },
            None => {
                proof {
                    lemma_find_absent(self.rooms@, id@);
                }
                None
            },
        }
    }

    /// Registers a fresh room under `id`, replacing any room that already
    /// carried the id; the caller avoids that by picking unused random ids
    /// and retrying.
    pub fn create_room(&mut self, id: &str, now: i64)
        requires
            old(self).wf(),
        ensures
            final(self).wf(),
            final(self)@.contains_key(id@),
            fresh_room(final(self)@[id@], now),
            final(self)@.remove(id@) == old(self)@.remove(id@),
    {
        let room = JointRoom::new(now);
        let ghost r = room;
        match assoc_index(&self.rooms, id) {
            Some(i) => {
                let ghost s0 = self.rooms@;
                let p = &mut self.rooms[i];
                p.1 = room;
                proof {
                    lemma_map_update(s0, i as int, (s0[i as int].0, r));
                    assert(self@ == old(self)@.insert(id@, r));
                }
            },
            None => {
                let ghost s0 = self.rooms@;
                let pair = (id.to_owned(), room);
                let ghost p = pair;
                self.rooms.push(pair);
                proof {
                    lemma_find_absent(s0, p.0@);
                    lemma_map_push(s0, p);
                    assert(self@ == old(self)@.insert(id@, r));
                }
            },
        }
        proof {
            assert(self@ == old(self)@.insert(id@, r));
            assert(self@.remove(id@) =~= old(self)@.remove(id@));
        }
    }

    /// Allocates a room under a random six-character id, preferring an
    /// unused one: a bounded number of draws is checked against the
    /// registry, and ids are random enough that a surviving collision —
    /// which would replace the older room — is harmless and rare.
    pub fn create_with_fresh_id(&mut self, now: i64) -> (id: String)
        requires
            old(self).wf(),
        ensures
            final(self).wf(),
            final(self)@.contains_key(id@),
            fresh_room(final(self)@[id@], now),
            final(self)@.remove(id@) == old(self)@.remove(id@),
            id@.len() == 6,
            forall|i: int| 0 <= i < id@.len() ==> crate::slug::is_slug_char(id@[i]),
    {
        let ghost init = *self;
        let mut id = crate::slug::gen_slug(6);
        let mut tries: usize = 0;
        while tries < 5 && self.get_room(id.as_str()).is_some()
            invariant
                self.wf(),
                *self == init,
                tries <= 5,
                id@.len() == 6,
                forall|i: int| 0 <= i < id@.len() ==> crate::slug::is_slug_char(id@[i]),
            decreases 5 - tries,
        {
            id = crate::slug::gen_slug(6);
            tries += 1;
        }
        self.create_room(id.as_str(), now);
        id
    }

    /// Exclusive-side removal: an existing room leaves the registry, is
    /// marked burned and broadcasts its one terminal event to the
    /// subscribers attached before the removal; a missing id changes
    /// nothing.  The burned room comes back, so the caller holds the
    /// proof that its stream ends with exactly one burn event.
    pub fn burn_room(&mut self, id: &str, now: i64) -> (r: Option<JointRoom>)
        requires
            old(self).wf(),
        ensures
            final(self).wf(),
            match r {
                Some(room) => {
                    &&& old(self)@.contains_key(id@)
                    &&& final(self)@ == old(self)@.remove(id@)
                    &&& room.wf()
                    &&& room.burned()
                    &&& room.events() == old(self)@[id@].events().push(JointEvent::Burn { ts: now })
                    &&& room_history_wf(room.events(), true)
                    &&& room.last_active() == old(self)@[id@].last_active()
                },
                None => !old(self)@.contains_key(id@) && *final(self) == *old(self),
            },
    {
        match assoc_index(&self.rooms, id) {
            Some(i) => {
                proof {
                    lemma_find_present(self.rooms@, i as int);
                }
                let ghost s0 = self.rooms@;
                let pair = self.rooms.remove(i);
                proof {
                    lemma_map_remove(s0, i as int);
                }
                let mut room = pair.1;
                room.burn(now);
                Some(room)
            },
            None => {
                proof {
                    lemma_find_absent(self.rooms@, id@);
                }
                None
            },
        }
    }

    /// The idle sweep: every room whose last activity lies further back
    /// than `max_idle` is removed and given the same terminal treatment as
    /// an explicit burn — with or without subscribers; every other room is
    /// left untouched.  The ghost result records each reaped room in its
    /// final state: burned, its stream closed by the one terminal event.
    pub fn cleanup(&mut self, max_idle: i64, now: i64) -> (reaped: Ghost<
        Map<Seq<char>, JointRoom>,
    >)
        requires
            old(self).wf(),
        ensures
            final(self).wf(),
            forall|k: Seq<char>|
                final(self)@.contains_key(k) ==> old(self)@.contains_key(k) && final(self)@[k]
                    == old(self)@[k],
            forall|k: Seq<char>|
                old(self)@.contains_key(k) && room_stale(#[trigger] old(self)@[k], max_idle, now)
                    ==> !final(self)@.contains_key(k),
            forall|k: Seq<char>|
                old(self)@.contains_key(k) && !room_stale(#[trigger] old(self)@[k], max_idle, now)
                    ==> final(self)@.contains_key(k),
            forall|k: Seq<char>|
                old(self)@.contains_key(k) && room_stale(#[trigger] old(self)@[k], max_idle, now)
                    ==> {
                    &&& reaped@.contains_key(k)
                    &&& reaped@[k].wf()
                    &&& reaped@[k].burned()
                    &&& reaped@[k].events() == old(self)@[k].events().push(
                        JointEvent::Burn { ts: now },
                    )
                    &&& room_history_wf(reaped@[k].events(), true)
                },
            forall|k: Seq<char>|
                #[trigger] reaped@.contains_key(k) ==> old(self)@.contains_key(k) && room_stale(
                    old(self)@[k],
                    max_idle,
                    now,
                ),
    {
        let ghost m_init = self@;
        let ghost mut reaped: Map<Seq<char>, JointRoom> = Map::empty();
        let mut i: usize = 0;
        while i < self.rooms.len()
            invariant
                self.wf(),
                i <= self.rooms@.len(),
                forall|k: Seq<char>|
                    #[trigger] self@.contains_key(k) ==> m_init.contains_key(k) && self@[k]
                        == m_init[k],
                forall|k: Seq<char>|
                    #[trigger] m_init.contains_key(k) && !room_stale(m_init[k], max_idle, now)
                        ==> self@.contains_key(k),
                forall|j: int|
                    0 <= j < i ==> !room_stale(#[trigger] self.rooms@[j].1, max_idle, now),
                forall|k: Seq<char>|
                    #[trigger] m_init.contains_key(k) && room_stale(m_init[k], max_idle, now)
                        && !self@.contains_key(k) ==> {
                        &&& reaped.contains_key(k)
                        &&& reaped[k].wf()
                        &&& reaped[k].burned()
                        &&& reaped[k].events() == m_init[k].events().push(
                            JointEvent::Burn { ts: now },
                        )
                    },
                forall|k: Seq<char>|
                    #[trigger] reaped.contains_key(k) ==> m_init.contains_key(k) && room_stale(
                        m_init[k],
                        max_idle,
                        now,
                    ),
            decreases self.rooms@.len() - i,
        {
            let last = self.rooms[i].1.last_activity();
            let stale = (now as i128) - (last as i128) > (max_idle as i128);
            if stale {
                proof {
                    lemma_find_present(self.rooms@, i as int);
                }
                let ghost s0 = self.rooms@;
                let ghost m0 = self@;
                let ghost key = s0[i as int].0@;
                let pair = self.rooms.remove(i);
                proof {
                    lemma_map_remove(s0, i as int);
                    assert(self@ == m0.remove(key));
                    assert(m0.contains_key(key) && m0[key] == s0[i as int].1);
                    assert(m_init.contains_key(key) && m_init[key] == s0[i as int].1);
                    assert forall|k: Seq<char>|
                        self@.contains_key(k) implies m_init.contains_key(k) && self@[k]
                        == m_init[k] by {
                        assert(m0.contains_key(k));
                    }
                    assert forall|k: Seq<char>|
                        m_init.contains_key(k) && !room_stale(#[trigger] m_init[k], max_idle, now)
                        implies self@.contains_key(k) by {
                        assert(m0.contains_key(k));
                        if k == key {
                            assert(m0[k] == s0[i as int].1);
                            assert(room_stale(m_init[k], max_idle, now));
                        }
                    }
                }
                let mut room = pair.1;
                room.burn(now);
                proof {
                    reaped = reaped.insert(key, room);
                }
            } else {
                i += 1;
            }
        }
        proof {
            assert forall|k: Seq<char>|
                m_init.contains_key(k) && room_stale(#[trigger] m_init[k], max_idle, now)
                implies !self@.contains_key(k) by {
                if self@.contains_key(k) {
                    let i = lemma_find_some_index(self.rooms@, k);
                }
            }
        }
        Ghost(reaped)
    }

    /// A participant attaches to a registered room: the arrival notice is
    /// broadcast, the activity clock refreshed, and the connection gets a
    /// subscription that sees everything broadcast from here on.  An
    /// unregistered (absent or already burned) id is gone.
    pub fn attach(&mut self, id: &str, name: &str, now: i64) -> (r: Result<
        Receiver<JointEvent>,
        CoreError,
    >)
        requires
            old(self).wf(),
        ensures
            final(self).wf(),
            match r {
                Ok(_) => {
                    &&& old(self)@.contains_key(id@)
                    &&& final(self)@.contains_key(id@)
                    &&& final(self)@.remove(id@) == old(self)@.remove(id@)
                    &&& join_step(old(self)@[id@], final(self)@[id@], name@, now)
                },
                Err(e) => e == CoreError::RoomGone && !old(self)@.contains_key(id@) && *final(self)
                    == *old(self),
            },
    {
        match assoc_index(&self.rooms, id) {
            Some(i) => {
                proof {
                    lemma_find_present(self.rooms@, i as int);
                }
                let ghost s0 = self.rooms@;
                let p = &mut self.rooms[i];
                p.1.join(name, now);
                let rx = subscribe_events(p.1.sender());
                proof {
                    lemma_map_update(s0, i as int, (s0[i as int].0, p.1));
                }
                proof {
                    assert(self@.remove(id@) =~= old(self)@.remove(id@));
                }
                Ok(rx)
            },
            None => {
                proof {
                    lemma_find_absent(self.rooms@, id@);
                }
                Err(CoreError::RoomGone)
            },
        }
    }

    /// An inbound chat frame for a registered room; reports whether the
    /// room is still registered, so a connection can stop once it is gone.
    pub fn room_chat(&mut self, id: &str, name: &str, text: &str, now: i64) -> (r: bool)
        requires
            old(self).wf(),
        ensures
            final(self).wf(),
            r == old(self)@.contains_key(id@),
            !r ==> *final(self) == *old(self),
            r ==> final(self)@.contains_key(id@) && final(self)@.remove(id@) == old(
                self,
            )@.remove(id@) && chat_step(old(self)@[id@], final(self)@[id@], name@, text@, now),
    {
        match assoc_index(&self.rooms, id) {
            Some(i) => {
                proof {
                    lemma_find_present(self.rooms@, i as int);
                }
                let ghost s0 = self.rooms@;
                let p = &mut self.rooms[i];
                p.1.chat(name, text, now);
                proof {
                    lemma_map_update(s0, i as int, (s0[i as int].0, p.1));
                }
                proof {
                    assert(self@.remove(id@) =~= old(self)@.remove(id@));
                }
                true
            },
            None => {
                proof {
                    lemma_find_absent(self.rooms@, id@);
                }
                false
            },
        }
    }

    /// An inbound keepalive for a registered room: refreshes the activity
    /// clock, broadcasts nothing; reports whether the room is registered.
    pub fn room_ping(&mut self, id: &str, now: i64) -> (r: bool)
        requires
            old(self).wf(),
        ensures
            final(self).wf(),
            r == old(self)@.contains_key(id@),
            !r ==> *final(self) == *old(self),
            r ==> final(self)@.contains_key(id@) && final(self)@.remove(id@) == old(
                self,
            )@.remove(id@) && final(self)@[id@].last_active() == now && final(self)@[id@].events()
                == old(self)@[id@].events(),
    {
        match assoc_index(&self.rooms, id) {
            Some(i) => {
                proof {
                    lemma_find_present(self.rooms@, i as int);
                }
                let ghost s0 = self.rooms@;
                let p = &mut self.rooms[i];
                p.1.ping(now);
                proof {
                    lemma_map_update(s0, i as int, (s0[i as int].0, p.1));
                }
                proof {
                    assert(self@.remove(id@) =~= old(self)@.remove(id@));
                }
                true
            },
            None => {
                proof {
                    lemma_find_absent(self.rooms@, id@);
                }
                false
            },
        }
    }
}

} // verus!
