use market_maker::pubsub::{PubSubError, SubscriptionId, Topic};

#[test]
fn test_pubsub() {
    let mut topic: Topic<u64> = Topic::new();

    let sub1 = topic.subscribe();

    topic.publish(1);
    topic.publish(2);

    assert_eq!(topic.drain(sub1).unwrap(), vec![1, 2]);

    let sub2 = topic.subscribe();

    topic.publish(3);
    topic.publish(4);

    assert_eq!(topic.drain(sub1).unwrap(), vec![3, 4]);
    assert_eq!(topic.drain(sub2).unwrap(), vec![3, 4]);

    assert!(topic.is_subscribed(sub1));
    assert!(topic.is_subscribed(sub2));

    topic.unsubscribe(sub1);

    assert!(!topic.is_subscribed(sub1));
    assert!(topic.is_subscribed(sub2));

    topic.publish(5);
    topic.publish(6);

    assert!(topic.drain(sub1).is_err());
    assert_eq!(topic.drain(sub2).unwrap(), vec![5, 6]);

    topic.unsubscribe(sub2);
    topic.publish(7);
    assert!(topic.slots.is_empty());
}

#[test]
fn pubsub_unsubscribe_mid_stream() {
    let mut topic: Topic<i64> = Topic::new();
    let a = topic.subscribe();
    let b = topic.subscribe();
    topic.publish(1);
    topic.publish(2);
    assert_eq!(topic.drain(a), Ok(vec![1, 2]));
    topic.unsubscribe(a);
    topic.publish(3);
    assert_eq!(topic.drain(a), Err(PubSubError::Disconnected(a)));
    assert_eq!(topic.drain(b), Ok(vec![1, 2, 3]));
}

#[test]
fn pubsub_ids_are_fresh_and_pop_keeps_order() {
    let mut topic: Topic<String> = Topic::new();
    let a = topic.subscribe();
    let b = topic.subscribe();
    assert_eq!(a, SubscriptionId(0));
    assert_eq!(b, SubscriptionId(1));
    topic.publish("x".to_string());
    topic.publish("y".to_string());
    assert_eq!(topic.pop(b), Ok(Some("x".to_string())));
    assert_eq!(topic.pop(b), Ok(Some("y".to_string())));
    assert_eq!(topic.pop(b), Ok(None));
    assert_eq!(topic.drain(a), Ok(vec!["x".to_string(), "y".to_string()]));
    assert_eq!(topic.pop(SubscriptionId(9)), Err(PubSubError::Disconnected(SubscriptionId(9))));
}

#[test]
fn pubsub_publish_without_subscribers() {
    let mut topic: Topic<u8> = Topic::new();
    topic.publish(1);
    let late = topic.subscribe();
    assert_eq!(topic.drain(late), Ok(vec![]));
}
