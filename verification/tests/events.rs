//! Who hears of an event, and in what order.
use tarmac::ipc::events::{wants, EventBus, WmEvent};

#[test]
fn full_subscriber_is_not_dropped() {
    let mut bus = EventBus::new();
    let rx = bus.subscribe();

    for window_id in 0..256 {
        bus.publish(&WmEvent::WindowClosed { window_id });
    }

    bus.publish(&WmEvent::WindowClosed { window_id: 999 });

    for _ in 0..256 {
        bus.receive(rx).expect("buffered event missing");
    }

    bus.publish(&WmEvent::WindowClosed { window_id: 1000 });
    let event = bus
        .receive(rx)
        .expect("subscriber should still be registered");
    assert!(matches!(event, WmEvent::WindowClosed { window_id: 1000 }));
}

#[test]
fn disconnected_subscriber_is_removed() {
    let mut bus = EventBus::new();
    let rx = bus.subscribe();
    bus.disconnect(rx);

    bus.publish(&WmEvent::WindowClosed { window_id: 1 });

    assert!(bus.subscribers.is_empty());
    bus.subscribers.clear();
}

#[test]
fn events_arrive_in_order() {
    let mut bus = EventBus::new();
    let first = bus.subscribe();
    let second = bus.subscribe();
    bus.publish(&WmEvent::WindowClosed { window_id: 1 });
    bus.publish(&WmEvent::WindowClosed { window_id: 2 });
    for rx in [first, second] {
        assert!(matches!(bus.receive(rx), Some(WmEvent::WindowClosed { window_id: 1 })));
        assert!(matches!(bus.receive(rx), Some(WmEvent::WindowClosed { window_id: 2 })));
        assert!(bus.receive(rx).is_none());
    }
}

#[test]
fn filters_name_the_events_that_are_wanted() {
    let closed = WmEvent::WindowClosed { window_id: 1 };
    assert!(wants(&vec![], &closed));
    assert!(wants(&vec![closed.event_type().to_string()], &closed));
    assert!(!wants(&vec!["monitor-changed".to_string()], &closed));
}
