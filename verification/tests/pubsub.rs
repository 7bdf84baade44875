use sockudo_ws::pubsub::{PubSubRegistry, PublishResult};

fn s(x: &str) -> String {
    x.to_string()
}

#[test]
fn subscribers_get_increasing_ids() {
    let mut r = PubSubRegistry::new();
    let a = r.create_subscriber(None).unwrap();
    let b = r.create_subscriber(Some(s("user.123"))).unwrap();
    assert_eq!(a, 1);
    assert!(b > a);
    assert_eq!(r.subscriber_count(), 2);
    assert_eq!(r.get_subscriber_by_socket_id(&s("user.123")), Some(b));
    assert_eq!(r.get_subscriber_by_socket_id(&s("nobody")), None);
    assert_eq!(r.all_socket_ids(), vec![s("user.123")]);
}

#[test]
fn subscribe_and_unsubscribe() {
    let mut r = PubSubRegistry::new();
    let a = r.create_subscriber(None).unwrap();
    assert!(r.subscribe(a, s("chat")));
    assert!(r.subscribe(a, s("news")));
    assert!(r.is_subscribed(a, &s("chat")));
    let mut topics = r.subscriber_topics(a);
    topics.sort();
    assert_eq!(topics, vec![s("chat"), s("news")]);
    assert!(r.unsubscribe(a, &s("chat")));
    assert!(!r.unsubscribe(a, &s("chat")));
    assert!(!r.is_subscribed(a, &s("chat")));
    assert!(!r.subscribe(999, s("chat")));
    assert!(r.subscriber_topics(999).is_empty());
}

#[test]
fn publish_reaches_followers() {
    let mut r = PubSubRegistry::new();
    let a = r.create_subscriber(None).unwrap();
    let b = r.create_subscriber(None).unwrap();
    let c = r.create_subscriber(None).unwrap();
    r.subscribe(a, s("chat"));
    r.subscribe(b, s("chat"));
    r.subscribe(c, s("other"));
    assert_eq!(r.publish(&s("chat"), None), Some(vec![a, b]));
    assert_eq!(r.publish(&s("chat"), Some(a)), Some(vec![b]));
    assert_eq!(r.publish(&s("nobody-here"), None), None);
    assert_eq!(r.messages_published(), 2);
    assert_eq!(r.topic_subscriber_count(&s("chat")), 2);
    assert_eq!(r.topic_subscriber_count(&s("none")), 0);
    assert_eq!(r.topic_count(), 2);
}

#[test]
fn publish_excluding_the_only_subscriber() {
    let mut r = PubSubRegistry::new();
    let a = r.create_subscriber(Some(s("sock.a"))).unwrap();
    r.subscribe(a, s("t"));
    let to = r.publish_excluding_socket_id(&s("sock.a"), &s("t"));
    assert_eq!(to, Some(vec![]));
    let result = PublishResult::from_recipients(&to);
    assert_eq!(result, PublishResult { count: 0, has_subscribers: true });
    let none = PublishResult::from_recipients(&None);
    assert_eq!(none, PublishResult { count: 0, has_subscribers: false });
    let all = r.publish_excluding_socket_id(&s("unknown"), &s("t"));
    assert_eq!(PublishResult::from_recipients(&all).count, 1);
}

#[test]
fn destroy_removes_everything() {
    let mut r = PubSubRegistry::new();
    let a = r.create_subscriber(Some(s("sock.a"))).unwrap();
    let b = r.create_subscriber(None).unwrap();
    r.subscribe(a, s("t"));
    r.subscribe(b, s("t"));
    assert!(r.remove_subscriber(a));
    assert!(!r.remove_subscriber(a));
    assert_eq!(r.publish(&s("t"), None), Some(vec![b]));
    assert_eq!(r.get_subscriber_by_socket_id(&s("sock.a")), None);
    assert!(r.all_socket_ids().is_empty());
    assert_eq!(r.subscriber_count(), 1);
    r.remove_subscriber(b);
    assert_eq!(r.topic_count(), 0);
    assert_eq!(r.publish(&s("t"), None), None);
}

#[test]
fn socket_id_moves_to_newest_subscriber() {
    let mut r = PubSubRegistry::new();
    let a = r.create_subscriber(Some(s("dup"))).unwrap();
    let b = r.create_subscriber(Some(s("dup"))).unwrap();
    assert_ne!(a, b);
    assert_eq!(r.get_subscriber_by_socket_id(&s("dup")), Some(b));
    assert_eq!(r.all_socket_ids(), vec![s("dup")]);
    r.remove_subscriber(a);
    assert_eq!(r.get_subscriber_by_socket_id(&s("dup")), Some(b));
}

#[test]
fn stats_snapshot() {
    let mut r = PubSubRegistry::new();
    let a = r.create_subscriber(None).unwrap();
    r.subscribe(a, s("x"));
    r.subscribe(a, s("y"));
    r.publish(&s("x"), None);
    let st = r.stats();
    assert_eq!(st.topic_count, 2);
    assert_eq!(st.subscriber_count, 1);
    assert_eq!(st.messages_published, 1);
}

#[test]
fn publish_count_matches_topic_subscriber_count() {
    let mut r = PubSubRegistry::new();
    let a = r.create_subscriber(None).unwrap();
    let b = r.create_subscriber(None).unwrap();
    r.subscribe(a, s("t"));
    r.subscribe(a, s("t"));
    r.subscribe(b, s("t"));
    let n = r.topic_subscriber_count(&s("t"));
    assert_eq!(n, 2);
    let to = r.publish(&s("t"), None);
    assert_eq!(to, Some(vec![a, b]));
    let result = PublishResult::from_recipients(&to);
    assert_eq!(result, PublishResult { count: 2, has_subscribers: true });
    assert_eq!(r.publish(&s("t"), Some(b)).unwrap().len(), n - 1);
    assert_eq!(r.publish(&s("t"), Some(999)).unwrap().len(), n);
}

#[test]
fn removing_a_follower_lowers_the_topic_count() {
    let mut r = PubSubRegistry::new();
    let a = r.create_subscriber(None).unwrap();
    let b = r.create_subscriber(None).unwrap();
    let c = r.create_subscriber(None).unwrap();
    r.subscribe(a, s("t"));
    r.subscribe(b, s("t"));
    r.subscribe(c, s("u"));
    assert_eq!(r.topic_subscriber_count(&s("t")), 2);
    r.remove_subscriber(c);
    assert_eq!(r.topic_subscriber_count(&s("t")), 2);
    r.remove_subscriber(a);
    assert_eq!(r.topic_subscriber_count(&s("t")), 1);
}
