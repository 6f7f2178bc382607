//! The outbound half of one room connection: a relay that drains a
//! subscription to the room's broadcast stream and forwards every event to
//! its peer in arrival order, until it forwards a burn event — the only
//! terminal state.

use vstd::prelude::*;

use crate::hub::{JointEvent, is_burn_event, room_history_wf};

verus! {

/// Whether some event of `s` is a burn event.
pub open spec fn has_burn(s: Seq<JointEvent>) -> bool {
    exists|i: int| 0 <= i < s.len() && is_burn_event(s[i])
}

/// The events a relay forwards out of a received stream: the whole stream
/// in order, cut right after the first burn event.
pub open spec fn relay_output(s: Seq<JointEvent>) -> Seq<JointEvent>
    decreases s.len(),
{
    if s.len() == 0 {
        Seq::empty()
    } else if is_burn_event(s[0]) {
        seq![s[0]]
    } else {
        seq![s[0]] + relay_output(s.drop_first())
    }
}

proof fn lemma_output_no_burn(s: Seq<JointEvent>)
    requires
        !has_burn(s),
    ensures
        relay_output(s) == s,
    decreases s.len(),
{
    if s.len() > 0 {
        assert(!is_burn_event(s[0]));
        let t = s.drop_first();
        assert(!has_burn(t)) by {
            if has_burn(t) {
                let i = choose|i: int| 0 <= i < t.len() && is_burn_event(t[i]);
                assert(s[i + 1] == t[i]);
            }
        }
        lemma_output_no_burn(t);
        assert(seq![s[0]] + t =~= s);
    }
}

proof fn lemma_output_push(s: Seq<JointEvent>, ev: JointEvent)
    ensures
        relay_output(s.push(ev)) == if has_burn(s) {
            relay_output(s)
        } else {
            relay_output(s).push(ev)
        },
    decreases s.len(),
{
    let e = s.push(ev);
    if s.len() == 0 {
        assert(e[0] == ev);
        assert(e.drop_first() =~= Seq::<JointEvent>::empty());
        assert(relay_output(Seq::<JointEvent>::empty()) == Seq::<JointEvent>::empty());
        assert(relay_output(e) =~= Seq::<JointEvent>::empty().push(ev));
    } else {
        assert(e[0] == s[0]);
        if is_burn_event(s[0]) {
            assert(has_burn(s));
        } else {
            assert(e.drop_first() =~= s.drop_first().push(ev));
            lemma_output_push(s.drop_first(), ev);
            if has_burn(s.drop_first()) {
                assert(has_burn(s)) by {
                    let i = choose|i: int|
                        0 <= i < s.drop_first().len() && is_burn_event(s.drop_first()[i]);
                    assert(s[i + 1] == s.drop_first()[i]);
                }
            } else {
                assert(!has_burn(s)) by {
                    if has_burn(s) {
                        let i = choose|i: int| 0 <= i < s.len() && is_burn_event(s[i]);
                        assert(i > 0);
                        assert(s.drop_first()[i - 1] == s[i]);
                    }
                }
                assert(seq![s[0]] + relay_output(s.drop_first()).push(ev) =~= (seq![s[0]]
                    + relay_output(s.drop_first())).push(ev));
            }
        }
    }
}

/// One connection's outbound relay.  It remembers what it has received
/// and what it has let through; the two are linked by [`relay_output`].
pub struct Relay {
    done: bool,
    seen: Ghost<Seq<JointEvent>>,
    sent: Ghost<Seq<JointEvent>>,
}

impl Relay {
    /// The relay has forwarded a burn event and stopped.
    pub closed spec fn is_done(&self) -> bool {
        self.done
    }

    /// Every event received from the subscription, in order.
    pub closed spec fn seen(&self) -> Seq<JointEvent> {
        self.seen@
    }

    /// Every event forwarded to the peer, in order.
    pub closed spec fn sent(&self) -> Seq<JointEvent> {
        self.sent@
    }

    pub closed spec fn wf(&self) -> bool {
        &&& self.sent@ == relay_output(self.seen@)
        &&& self.done == has_burn(self.seen@)
    }

    pub fn new() -> (r: Relay)
        ensures
            r.wf(),
            !r.is_done(),
            r.seen() == Seq::<JointEvent>::empty(),
            r.sent() == Seq::<JointEvent>::empty(),
    {
        let r = Relay { done: false, seen: Ghost(Seq::empty()), sent: Ghost(Seq::empty()) };
        proof {
            assert(relay_output(r.seen@) =~= Seq::<JointEvent>::empty());
            assert(!has_burn(r.seen@));
        }
        r
    }

    /// Takes one received event and says whether to forward it.  A live
    /// relay forwards everything; forwarding a burn event closes the
    /// connection and is terminal — a done relay forwards nothing.
    pub fn on_event(&mut self, ev: &JointEvent) -> (forward: bool)
        requires
            old(self).wf(),
        ensures
            final(self).wf(),
            forward == !old(self).is_done(),
            final(self).seen() == old(self).seen().push(*ev),
            final(self).is_done() == (old(self).is_done() || is_burn_event(*ev)),
            forward ==> final(self).sent() == old(self).sent().push(*ev),
            !forward ==> final(self).sent() == old(self).sent(),
    {
        proof {
            lemma_output_push(self.seen@, *ev);
        }
        let forward = !self.done;
        if !self.done {
            proof {
                self.sent@ = self.sent@.push(*ev);
            }
            let burn = match ev {
                JointEvent::Burn { .. } => true,
                _ => false,
            };
            if burn {
                self.done = true;
            }
        }
        proof {
            self.seen@ = self.seen@.push(*ev);
            assert(has_burn(self.seen@) == (has_burn(old(self).seen@) || is_burn_event(*ev))) by {
                let s = old(self).seen@;
                let e = s.push(*ev);
                if has_burn(s) {
                    let i = choose|i: int| 0 <= i < s.len() && is_burn_event(s[i]);
                    assert(e[i] == s[i]);
                } else if is_burn_event(*ev) {
                    assert(e[e.len() - 1] == *ev);
                } else {
                    if has_burn(e) {
                        let i = choose|i: int| 0 <= i < e.len() && is_burn_event(e[i]);
                        if i < s.len() {
                            assert(s[i] == e[i]);
                        }
                    }
                }
            }
        }
        forward
    }
}

/// Relay-termination law: whatever stream a relay receives, what it
/// forwards is a prefix of that stream in arrival order, it forwards at
/// most one burn event, and nothing after a burn event.
pub proof fn lemma_relay_terminal(s: Seq<JointEvent>)
    ensures
        relay_output(s).len() <= s.len(),
        forall|i: int| 0 <= i < relay_output(s).len() ==> relay_output(s)[i] == s[i],
        forall|i: int| 0 <= i < relay_output(s).len() - 1 ==> !is_burn_event(relay_output(s)[i]),
    decreases s.len(),
{
    if s.len() > 0 && !is_burn_event(s[0]) {
        lemma_relay_terminal(s.drop_first());
        let out = relay_output(s);
        let rest = relay_output(s.drop_first());
        assert(out == seq![s[0]] + rest);
        assert(forall|i: int| 0 <= i < rest.len() ==> rest[i] == s.drop_first()[i]);
        assert(forall|i: int| 1 <= i < out.len() ==> out[i] == rest[i - 1]);
        assert(forall|i: int| 0 <= i < s.drop_first().len() ==> s.drop_first()[i] == s[i + 1]);
    }
}

/// Burned-stream delivery law: a subscriber that receives the whole
/// history of a burned room forwards all of it — the terminal burn event
/// included, exactly once, as the last event.
pub proof fn lemma_burned_history_delivery(h: Seq<JointEvent>)
    requires
        room_history_wf(h, true),
    ensures
        relay_output(h) == h,
        is_burn_event(relay_output(h).last()),
        forall|i: int| 0 <= i < relay_output(h).len() - 1 ==> !is_burn_event(relay_output(h)[i]),
{
    let p = h.drop_last();
    assert(!has_burn(p)) by {
        if has_burn(p) {
            let i = choose|i: int| 0 <= i < p.len() && is_burn_event(p[i]);
            assert(h[i] == p[i]);
        }
    }
    lemma_output_no_burn(p);
    lemma_output_push(p, h.last());
    assert(p.push(h.last()) =~= h);
    assert(relay_output(h) == p.push(h.last()));
}

} // verus!
