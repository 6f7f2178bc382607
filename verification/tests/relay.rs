use amigo::hub::JointEvent;
use amigo::relay::Relay;

fn chat(text: &str, ts: i64) -> JointEvent {
    JointEvent::Chat { name: "ann".to_string(), text: text.to_string(), ts }
}

#[test]
fn relay_forwards_everything_until_burn_then_nothing() {
    let mut relay = Relay::new();
    assert!(relay.on_event(&chat("one", 1)));
    assert!(relay.on_event(&JointEvent::System { text: "bob joined".to_string(), ts: 2 }));
    assert!(relay.on_event(&chat("two", 3)));
    // The burn event itself is forwarded, and is terminal.
    assert!(relay.on_event(&JointEvent::Burn { ts: 4 }));
    assert!(!relay.on_event(&chat("late", 5)));
    assert!(!relay.on_event(&JointEvent::Burn { ts: 6 }));
}

#[test]
fn relay_forwards_in_arrival_order() {
    let mut relay = Relay::new();
    let events = vec![chat("a", 1), chat("b", 2), JointEvent::Burn { ts: 3 }, chat("c", 4)];
    let mut forwarded = Vec::new();
    for ev in &events {
        if relay.on_event(ev) {
            forwarded.push(ev.clone());
        }
    }
    assert_eq!(forwarded, vec![chat("a", 1), chat("b", 2), JointEvent::Burn { ts: 3 }]);
}
