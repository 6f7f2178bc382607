use amigo::hub::{JointEvent, JointHub, JointRoom};
use tokio::sync::broadcast::error::TryRecvError;

#[test]
fn create_then_get_then_burn_then_gone() {
    let mut hub = JointHub::new();
    hub.create_room("room1", 100);
    assert!(hub.get_room("room1").is_some());
    let burned = hub.burn_room("room1", 200).expect("the room was registered");
    assert!(burned.is_burned());
    assert!(hub.get_room("room1").is_none());
    assert!(hub.burn_room("room1", 300).is_none());
}

#[test]
fn subscriber_attached_before_burn_sees_one_terminal_event_and_nothing_after() {
    let mut hub = JointHub::new();
    hub.create_room("room1", 100);
    let mut rx = hub.get_room("room1").unwrap().sender().subscribe();
    assert!(hub.burn_room("room1", 250).is_some());
    // Exactly one terminal burn event arrives, then the stream ends.
    assert_eq!(rx.try_recv().unwrap(), JointEvent::Burn { ts: 250 });
    match rx.try_recv() {
        Err(TryRecvError::Empty) | Err(TryRecvError::Closed) => {}
        other => panic!("expected no event after the burn, got {:?}", other),
    }
}

#[test]
fn sweep_reaps_only_idle_rooms_even_without_subscribers() {
    let mut hub = JointHub::new();
    hub.create_room("old", 0);
    hub.create_room("new", 90);
    // Threshold 50 at time 100: "old" is 100 seconds idle, "new" only 10.
    hub.cleanup(50, 100);
    assert!(hub.get_room("old").is_none());
    assert!(hub.get_room("new").is_some());
}

#[test]
fn sweep_sends_terminal_event_to_reaped_room() {
    let mut hub = JointHub::new();
    hub.create_room("idle", 0);
    let mut rx = hub.get_room("idle").unwrap().sender().subscribe();
    hub.cleanup(50, 100);
    assert_eq!(rx.try_recv().unwrap(), JointEvent::Burn { ts: 100 });
}

#[test]
fn activity_refresh_protects_from_sweep() {
    let mut hub = JointHub::new();
    hub.create_room("busy", 0);
    assert!(hub.room_chat("busy", "ann", "hi", 90));
    // Threshold 50 at time 100: the chat at 90 keeps the room alive.
    hub.cleanup(50, 100);
    assert!(hub.get_room("busy").is_some());
}

#[test]
fn ping_through_hub_refreshes_activity() {
    let mut hub = JointHub::new();
    hub.create_room("kept", 0);
    assert!(hub.room_ping("kept", 95));
    hub.cleanup(50, 100);
    assert!(hub.get_room("kept").is_some());
    assert!(!hub.room_ping("absent", 95));
}

#[test]
fn attach_broadcasts_join_and_subscription_sees_later_events() {
    let mut hub = JointHub::new();
    hub.create_room("chatty", 10);
    let mut first = hub.attach("chatty", "ann", 20).expect("room exists");
    // The subscription starts after ann's own join notice.
    let mut second = hub.attach("chatty", "bob", 30).expect("room exists");
    assert_eq!(
        first.try_recv().unwrap(),
        JointEvent::System { text: "bob joined".to_string(), ts: 30 }
    );
    assert!(hub.room_chat("chatty", "bob", "hi", 40));
    assert_eq!(
        first.try_recv().unwrap(),
        JointEvent::Chat { name: "bob".to_string(), text: "hi".to_string(), ts: 40 }
    );
    assert_eq!(
        second.try_recv().unwrap(),
        JointEvent::Chat { name: "bob".to_string(), text: "hi".to_string(), ts: 40 }
    );
}

#[test]
fn attach_to_absent_room_is_gone() {
    let mut hub = JointHub::new();
    assert!(hub.attach("nowhere", "ann", 20).is_err());
}

#[test]
fn join_and_chat_are_broadcast_in_order() {
    let mut room = JointRoom::new(10);
    let mut rx = room.sender().subscribe();
    room.join("ann", 20);
    assert!(room.chat("ann", "  hello there  ", 30));
    assert_eq!(
        rx.try_recv().unwrap(),
        JointEvent::System { text: "ann joined".to_string(), ts: 20 }
    );
    assert_eq!(
        rx.try_recv().unwrap(),
        JointEvent::Chat { name: "ann".to_string(), text: "hello there".to_string(), ts: 30 }
    );
}

#[test]
fn blank_chat_is_dropped_but_still_refreshes_activity() {
    let mut room = JointRoom::new(10);
    let mut rx = room.sender().subscribe();
    assert!(!room.chat("ann", "   \t  ", 42));
    assert_eq!(room.last_activity(), 42);
    assert!(matches!(rx.try_recv(), Err(TryRecvError::Empty)));
}

#[test]
fn ping_refreshes_activity_and_broadcasts_nothing() {
    let mut room = JointRoom::new(10);
    let mut rx = room.sender().subscribe();
    room.ping(77);
    assert_eq!(room.last_activity(), 77);
    assert!(matches!(rx.try_recv(), Err(TryRecvError::Empty)));
}

#[test]
fn room_state_reads_back() {
    let room = JointRoom::new(5);
    assert!(!room.is_burned());
    assert_eq!(room.last_activity(), 5);
}

#[test]
fn create_with_fresh_id_registers_a_live_room() {
    let mut hub = JointHub::new();
    let id = hub.create_with_fresh_id(42);
    assert_eq!(id.chars().count(), 6);
    let room = hub.get_room(&id).expect("the fresh room is registered");
    assert!(!room.is_burned());
    assert_eq!(room.last_activity(), 42);
    let other = hub.create_with_fresh_id(43);
    assert!(hub.get_room(&id).is_some());
    assert!(hub.get_room(&other).is_some());
}

#[test]
fn create_room_replaces_existing_id() {
    let mut hub = JointHub::new();
    hub.create_room("dup", 1);
    hub.create_room("dup", 2);
    assert_eq!(hub.get_room("dup").unwrap().last_activity(), 2);
}
