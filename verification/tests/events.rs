use pumpkin_core::events::{
    ConfigCookieResponseEvent, EventBus, EventHandler, HandlerBehavior, ResourceLocation,
};

fn payload(has_payload: bool, bytes: Option<Vec<u8>>) -> ConfigCookieResponseEvent {
    ConfigCookieResponseEvent::new(
        1,
        ResourceLocation::new(String::from("example"), String::from("session")),
        has_payload,
        bytes,
    )
}

#[test]
fn later_handler_observes_earlier_mutation() {
    let mut bus = EventBus::new();
    // Register the reader first: the writer still runs before it, because
    // it registered at a lower priority.
    bus.register(EventHandler {
        id: 2,
        priority: 5,
        behavior: HandlerBehavior::CancelIfPayloadPresent,
    });
    bus.register(EventHandler {
        id: 1,
        priority: 1,
        behavior: HandlerBehavior::SetPayload(Some(vec![7])),
    });
    // The incoming response has no payload; the low-priority handler puts
    // one in, and the high-priority handler sees it and cancels.
    let out = bus.publish(payload(false, None));
    assert!(out.cancelled);
    assert!(out.payload.has_payload);
    assert_eq!(out.payload.payload, Some(vec![7]));
}

#[test]
fn without_the_mutation_the_reader_does_not_cancel() {
    let mut bus = EventBus::new();
    bus.register(EventHandler {
        id: 2,
        priority: 5,
        behavior: HandlerBehavior::CancelIfPayloadPresent,
    });
    let out = bus.publish(payload(false, None));
    assert!(!out.cancelled);
}

#[test]
fn cancellation_is_never_cleared() {
    let mut bus = EventBus::new();
    bus.register(EventHandler { id: 1, priority: 0, behavior: HandlerBehavior::Cancel });
    bus.register(EventHandler {
        id: 2,
        priority: 9,
        behavior: HandlerBehavior::SetPayload(None),
    });
    let out = bus.publish(payload(true, Some(vec![1])));
    assert!(out.cancelled);
    assert!(!out.payload.has_payload);
}

#[test]
fn unregister_removes_the_handler() {
    let mut bus = EventBus::new();
    bus.register(EventHandler { id: 1, priority: 0, behavior: HandlerBehavior::Cancel });
    bus.unregister(1);
    let out = bus.publish(payload(true, Some(vec![1])));
    assert!(!out.cancelled);
}

#[test]
fn equal_priorities_run_in_registration_order() {
    let mut bus = EventBus::new();
    // Both at priority 3: the writer registered first, so it runs first
    // and the reader cancels.
    bus.register(EventHandler {
        id: 1,
        priority: 3,
        behavior: HandlerBehavior::SetPayload(Some(vec![9])),
    });
    bus.register(EventHandler {
        id: 2,
        priority: 3,
        behavior: HandlerBehavior::CancelIfPayloadPresent,
    });
    let out = bus.publish(payload(false, None));
    assert!(out.cancelled);
}
