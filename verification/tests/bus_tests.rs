use openhawk::bus::{BusError, BusMessage, MessageBus};

fn valid_msg(method: &str) -> BusMessage {
    BusMessage { jsonrpc: "2.0".into(), method: method.into(), params: serde_json::Value::Null, id: None }
}

#[test]
fn valid_message_passes_validation() {
    assert!(valid_msg("do.thing").validate().is_ok());
}

#[test]
fn wrong_jsonrpc_version_rejected() {
    let msg = BusMessage { jsonrpc: "1.0".into(), method: "test".into(), params: serde_json::Value::Null, id: None };
    match msg.validate() {
        Err(BusError::InvalidMessage(m)) => assert_eq!(m, "jsonrpc must be \"2.0\", got \"1.0\""),
        other => panic!("unexpected {other:?}"),
    }
}

#[test]
fn empty_method_rejected() {
    let msg = BusMessage { jsonrpc: "2.0".into(), method: "".into(), params: serde_json::Value::Null, id: None };
    assert!(matches!(msg.validate(), Err(BusError::InvalidMessage(_))));
}

#[test]
fn publish_delivers_to_single_subscriber() {
    let mut bus = MessageBus::new();
    let id = bus.subscribe(1, "events");
    assert_eq!(bus.publish_targets("events", &valid_msg("ping")).unwrap(), vec![id]);
}

#[test]
fn publish_delivers_to_multiple_subscribers() {
    let mut bus = MessageBus::new();
    let a = bus.subscribe(1, "news");
    let b = bus.subscribe(2, "news");
    let c = bus.subscribe(3, "news");
    assert_eq!(bus.publish_targets("news", &valid_msg("headline")).unwrap(), vec![a, b, c]);
}

#[test]
fn publish_to_empty_topic_is_ok() {
    let bus = MessageBus::new();
    assert_eq!(bus.publish_targets("empty-topic", &valid_msg("noop")).unwrap(), Vec::<u64>::new());
}

#[test]
fn publish_invalid_message_returns_error() {
    let mut bus = MessageBus::new();
    let _ = bus.subscribe(1, "t");
    let bad = BusMessage { jsonrpc: "1.0".into(), method: "x".into(), params: serde_json::Value::Null, id: None };
    assert!(bus.publish_targets("t", &bad).is_err());
}

#[test]
fn send_direct_delivers_to_target_only() {
    let mut bus = MessageBus::new();
    let a = bus.subscribe(10, "ch");
    let b = bus.subscribe(20, "ch");
    assert_eq!(bus.direct_target(10, &valid_msg("private")).unwrap(), a);
    assert_ne!(a, b);
}

#[test]
fn send_direct_to_unknown_pid_returns_error() {
    let bus = MessageBus::new();
    assert!(matches!(bus.direct_target(999, &valid_msg("hi")), Err(BusError::NoSubscriber(999))));
}

#[test]
fn unsubscribe_stops_delivery() {
    let mut bus = MessageBus::new();
    let id = bus.subscribe(1, "feed");
    assert_eq!(bus.publish_targets("feed", &valid_msg("first")).unwrap(), vec![id]);
    bus.unsubscribe(1, "feed").unwrap();
    assert!(bus.publish_targets("feed", &valid_msg("second")).unwrap().is_empty());
    assert!(matches!(bus.unsubscribe(1, "feed"), Err(BusError::NotSubscribed(1, _))));
}

#[test]
fn unsubscribe_unknown_topic_returns_error() {
    let mut bus = MessageBus::new();
    assert!(matches!(bus.unsubscribe(1, "ghost"), Err(BusError::TopicNotFound(_))));
}

#[test]
fn queue_for_offline_stores_message() {
    let mut bus = MessageBus::new();
    bus.queue_for_offline(42, Some("alerts"), valid_msg("queued"), 1000).unwrap();
    let msgs = bus.deliver_queued(42, 1000);
    assert_eq!(msgs.len(), 1);
    assert_eq!(msgs[0].method, "queued");
}

#[test]
fn deliver_queued_drains_queue() {
    let mut bus = MessageBus::new();
    bus.queue_for_offline(7, None, valid_msg("m1"), 1000).unwrap();
    bus.queue_for_offline(7, None, valid_msg("m2"), 1000).unwrap();
    let first = bus.deliver_queued(7, 1000);
    assert_eq!(first.len(), 2);
    assert_eq!(first[0].method, "m1");
    assert!(bus.deliver_queued(7, 1000).is_empty());
}

#[test]
fn queue_full_returns_error() {
    let mut bus = MessageBus::with_config(2, 3600);
    bus.queue_for_offline(1, None, valid_msg("a"), 0).unwrap();
    bus.queue_for_offline(1, None, valid_msg("b"), 0).unwrap();
    assert!(matches!(bus.queue_for_offline(1, None, valid_msg("c"), 0), Err(BusError::QueueFull(2))));
    assert!(bus.queue_for_offline(2, None, valid_msg("c"), 0).is_ok());
}

#[test]
fn expire_old_messages_removes_expired() {
    let mut bus = MessageBus::with_config(100, 3600);
    bus.queue_for_offline(5, None, valid_msg("old"), 1000).unwrap();
    bus.expire_old_messages(0, 1000);
    assert!(bus.deliver_queued(5, 1000).is_empty());
}

#[test]
fn expire_old_messages_keeps_fresh() {
    let mut bus = MessageBus::with_config(100, 3600);
    bus.queue_for_offline(5, None, valid_msg("fresh"), 1000).unwrap();
    bus.expire_old_messages(9999, 1000);
    assert_eq!(bus.deliver_queued(5, 1000).len(), 1);
}

#[test]
fn expired_messages_are_not_delivered() {
    let mut bus = MessageBus::with_config(100, 10);
    bus.queue_for_offline(5, None, valid_msg("late"), 1000).unwrap();
    assert!(bus.deliver_queued(5, 1010).is_empty());
}

#[test]
fn inspect_shows_active_topics() {
    let mut bus = MessageBus::new();
    let _ = bus.subscribe(1, "alpha");
    let _ = bus.subscribe(2, "alpha");
    let _ = bus.subscribe(3, "beta");
    bus.queue_for_offline(9, Some("beta"), valid_msg("x"), 0).unwrap();
    bus.queue_for_offline(9, None, valid_msg("y"), 0).unwrap();
    bus.queue_for_offline(9, Some("gamma"), valid_msg("z"), 0).unwrap();
    let info = bus.inspect();
    let alpha = info.topics.iter().find(|t| t.name == "alpha").unwrap();
    assert_eq!(alpha.subscriber_count, 2);
    let beta = info.topics.iter().find(|t| t.name == "beta").unwrap();
    assert_eq!(beta.subscriber_count, 1);
    assert_eq!(beta.pending_count, 1);
    assert_eq!(info.pending_messages, 2);
}

#[test]
fn inspect_empty_bus() {
    let bus = MessageBus::new();
    let info = bus.inspect();
    assert!(info.topics.is_empty());
    assert_eq!(info.pending_messages, 0);
}

#[test]
fn bus_error_messages() {
    assert_eq!(BusError::QueueFull(2).message(), "queue full (max 2 messages)");
    assert_eq!(BusError::NotSubscribed(1, "t".into()).message(), "not subscribed: pid 1 on topic t");
}
