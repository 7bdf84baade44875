use sockudo_ws::connection::{
    apply_pubsub_action, open_server_connection, queue_capacity, release_subscriber, round_is_full, send_size, CommandAction,
    ConnectionState, IncomingAction, QueueOutcome, SendCommand,
};
use sockudo_ws::pubsub::PubSubRegistry;
use sockudo_ws::message::Message;
use sockudo_ws::stats::{ConnectionStats, ConnectionStatsInner};

#[test]
fn server_connection_send_bookkeeping() {
    let mut c = ConnectionState::new_server(7, 3);
    assert!(c.accepts_sends());
    let m = Message::text("hello".to_string());
    let size = send_size(&m);
    assert_eq!(size, 5);
    assert!(c.record_send(size, QueueOutcome::Queued));
    let s = c.stats();
    assert_eq!(s.messages_sent, 1);
    assert_eq!(s.bytes_sent, 5);
    assert!(!c.is_backpressured());

    assert!(!c.record_send(3, QueueOutcome::Full));
    assert!(c.is_backpressured());
    assert_eq!(c.stats().messages_sent, 1);

    assert!(!c.record_send(3, QueueOutcome::Disconnected));
    assert!(c.is_closed());
    assert!(!c.accepts_sends());
}

#[test]
fn close_frames_count_no_bytes() {
    assert_eq!(send_size(&Message::close(Some(1000), Some("bye".to_string()))), 0);
    assert_eq!(send_size(&Message::binary(vec![0; 7])), 7);
}

#[test]
fn client_sends_only_when_connected() {
    let mut c = ConnectionState::new_client();
    assert!(!c.accepts_sends());
    assert!(!c.is_connected());
    assert!(c.may_connect());
    c.mark_connected();
    assert!(c.is_connected());
    assert!(!c.may_connect());
    assert!(c.accepts_sends());
}

#[test]
fn close_is_requested_once() {
    let mut c = ConnectionState::new_server(7, 3);
    match c.request_close(None, None) {
        Some(SendCommand::Close(code, reason)) => {
            assert_eq!(code, 1000);
            assert_eq!(reason, "");
        }
        _ => panic!("expected a close command"),
    }
    assert!(c.is_closed());
    assert!(c.keeps_running());
    assert!(c.request_close(Some(1001), Some("again".to_string())).is_none());
    assert!(!c.accepts_sends());
    match c.on_command(SendCommand::Close(1000, String::new())) {
        CommandAction::SendCloseAndStop(m) => {
            let r = m.close_reason().unwrap();
            assert_eq!(r.code, 1000);
            assert_eq!(r.reason, "");
        }
        _ => panic!("expected the close frame"),
    }
    assert!(!c.keeps_running());
}

#[test]
fn close_not_queued_ends_the_loop() {
    let mut c = ConnectionState::new_server(1, 1);
    assert!(c.request_close(Some(70000), None).is_some());
    assert!(c.keeps_running());
    c.close_not_queued();
    assert!(!c.keeps_running());
    assert!(c.is_closed());
}

#[test]
fn requested_close_code_is_truncated() {
    let mut c = ConnectionState::new_client();
    c.mark_connected();
    match c.request_close(Some(0x1_03E9), None) {
        Some(SendCommand::Close(code, reason)) => {
            assert_eq!(code, 1001);
            assert_eq!(reason, "");
        }
        _ => panic!("expected a close command"),
    }
}

#[test]
fn client_close_disconnects() {
    let mut c = ConnectionState::new_client();
    c.mark_connected();
    match c.request_close(Some(4000), Some("done".to_string())) {
        Some(SendCommand::Close(code, reason)) => {
            assert_eq!(code, 4000);
            assert_eq!(reason, "done");
        }
        _ => panic!("expected a close command"),
    }
    assert!(!c.is_connected());
    assert!(c.is_closed());
}

#[test]
fn server_subscriptions_and_commands() {
    let mut registry = PubSubRegistry::new();
    let mut c = open_server_connection(&mut registry, 7).unwrap();
    let sid = c.subscriber_id().unwrap();
    c.subscribe(&mut registry, "chat".to_string());
    assert!(c.is_subscribed(&"chat".to_string()));
    assert!(registry.is_subscribed(sid, &"chat".to_string()));
    c.subscribe(&mut registry, "news".to_string());
    c.subscribe(&mut registry, "chat".to_string());
    let mut subs = c.subscriptions();
    subs.sort();
    assert_eq!(subs, vec!["chat".to_string(), "news".to_string()]);
    let mut in_registry = registry.subscriber_topics(sid);
    in_registry.sort();
    assert_eq!(in_registry, subs);
    c.unsubscribe(&mut registry, "chat".to_string());
    assert!(!c.is_subscribed(&"chat".to_string()));
    assert!(!registry.is_subscribed(sid, &"chat".to_string()));
    match c.publish("news".to_string(), Message::text("hi".to_string())) {
        Some(SendCommand::Publish(t, m)) => {
            assert_eq!(t, "news");
            assert_eq!(m.as_text(), Some("hi".to_string()));
        }
        _ => panic!("expected a publish command"),
    }
    c.request_close(None, None);
    c.subscribe(&mut registry, "late".to_string());
    assert!(!c.is_subscribed(&"late".to_string()));
    assert!(!registry.is_subscribed(sid, &"late".to_string()));
    c.unsubscribe(&mut registry, "news".to_string());
    assert!(c.is_subscribed(&"news".to_string()));
    assert!(registry.is_subscribed(sid, &"news".to_string()));
    assert!(c.publish("news".to_string(), Message::binary(vec![])).is_none());
}

#[test]
fn subscribers_receive_publishes_of_others() {
    let mut registry = PubSubRegistry::new();
    let mut a = open_server_connection(&mut registry, 1).unwrap();
    let mut b = open_server_connection(&mut registry, 2).unwrap();
    a.subscribe(&mut registry, "room".to_string());
    b.subscribe(&mut registry, "room".to_string());
    assert_eq!(registry.topic_subscriber_count(&"room".to_string()), 2);

    let from_a_cmd = a.publish("room".to_string(), Message::text("hi".to_string())).unwrap();
    let from_a = a.on_command(from_a_cmd);
    assert_eq!(apply_pubsub_action(&mut registry, &from_a), vec![2]);
    let from_b_cmd = b.publish("room".to_string(), Message::text("yo".to_string())).unwrap();
    let from_b = b.on_command(from_b_cmd);
    assert_eq!(apply_pubsub_action(&mut registry, &from_b), vec![1]);
    assert_eq!(registry.messages_published(), 2);

    a.unsubscribe(&mut registry, "room".to_string());
    let again_cmd = b.publish("room".to_string(), Message::text("x".to_string())).unwrap();
    let again = b.on_command(again_cmd);
    assert!(apply_pubsub_action(&mut registry, &again).is_empty());
    let nobody_cmd = b.publish("empty".to_string(), Message::text("x".to_string())).unwrap();
    let nobody = b.on_command(nobody_cmd);
    assert!(apply_pubsub_action(&mut registry, &nobody).is_empty());
    assert_eq!(registry.messages_published(), 3);
    let frame = a.on_command(SendCommand::Message(Message::text("m".to_string())));
    assert!(apply_pubsub_action(&mut registry, &frame).is_empty());
}

#[test]
fn ended_connection_releases_its_subscriber() {
    let mut registry = PubSubRegistry::new();
    let mut a = open_server_connection(&mut registry, 1).unwrap();
    let mut b = open_server_connection(&mut registry, 2).unwrap();
    a.subscribe(&mut registry, "room".to_string());
    b.subscribe(&mut registry, "room".to_string());
    a.on_stream_end();
    assert!(release_subscriber(&a, &mut registry));
    assert!(!release_subscriber(&a, &mut registry));
    assert_eq!(registry.subscriber_count(), 1);
    let cmd = b.publish("room".to_string(), Message::text("x".to_string())).unwrap();
    let action = b.on_command(cmd);
    assert!(apply_pubsub_action(&mut registry, &action).is_empty());
    let client = ConnectionState::new_client();
    assert!(!release_subscriber(&client, &mut registry));
    assert_eq!(registry.subscriber_count(), 1);
}

#[test]
fn close_writes_exactly_one_frame() {
    let mut c = ConnectionState::new_server(5, 9);
    let queued_before = c.publish("t".to_string(), Message::text("x".to_string())).unwrap();
    let close = c.request_close(Some(4001), Some("bye".to_string())).unwrap();
    assert!(c.request_close(None, None).is_none());
    let mut frames = 0;
    for cmd in vec![queued_before, close] {
        assert!(c.keeps_running());
        if let CommandAction::SendCloseAndStop(m) = c.on_command(cmd) {
            frames += 1;
            let r = m.close_reason().unwrap();
            assert_eq!(r.code, 4001);
            assert_eq!(r.reason, "bye");
        }
    }
    assert_eq!(frames, 1);
    assert!(!c.keeps_running());
}

#[test]
fn client_subscriptions_are_local() {
    let mut registry = PubSubRegistry::new();
    let mut c = ConnectionState::new_client();
    c.subscribe(&mut registry, "a".to_string());
    assert!(c.is_subscribed(&"a".to_string()));
    assert_eq!(registry.topic_count(), 0);
    c.request_close(None, None);
    c.unsubscribe(&mut registry, "a".to_string());
    assert!(!c.is_subscribed(&"a".to_string()));
}

#[test]
fn incoming_frames() {
    let mut c = ConnectionState::new_server(7, 3);
    match c.on_incoming(Message::binary(vec![1, 2]), 2) {
        IncomingAction::Deliver(m) => assert_eq!(m.as_buffer(), Some(vec![1, 2])),
        _ => panic!("expected delivery"),
    }
    assert!(c.keeps_running());
    match c.on_incoming(Message::close(Some(1001), Some("away".to_string())), 6) {
        IncomingAction::Closed(r) => {
            assert_eq!(r.code, 1001);
            assert_eq!(r.reason, "away");
        }
        _ => panic!("expected close"),
    }
    assert!(!c.keeps_running());
    let s = c.stats();
    assert_eq!(s.messages_received, 2);
    assert_eq!(s.bytes_received, 8);
}

#[test]
fn incoming_close_without_reason_reports_normal() {
    let mut c = ConnectionState::new_client();
    c.mark_connected();
    match c.on_incoming(Message::close(None, None), 0) {
        IncomingAction::Closed(r) => {
            assert_eq!(r.code, 1000);
            assert_eq!(r.reason, "");
        }
        _ => panic!("expected close"),
    }
    assert!(!c.is_connected());
}

#[test]
fn stream_end_and_errors() {
    let mut c = ConnectionState::new_server(7, 3);
    assert!(!c.on_error(false));
    assert!(c.keeps_running());
    let r = c.on_stream_end();
    assert_eq!(r.code, 1006);
    assert_eq!(r.reason, "Connection closed");
    assert!(c.is_closed());

    let mut d = ConnectionState::new_client();
    d.mark_connected();
    assert!(d.on_error(true));
    assert!(d.is_closed() && !d.is_connected());
}

#[test]
fn commands_by_role() {
    let mut server = ConnectionState::new_server(7, 3);
    match server.on_command(SendCommand::Publish("t".to_string(), Message::text("x".to_string()))) {
        CommandAction::PublishExcluding(id, t, m) => {
            assert_eq!(id, 3);
            assert_eq!(t, "t");
            assert!(m.is_text());
        }
        _ => panic!("expected publish"),
    }
    match server.on_command(SendCommand::Message(Message::ping(None))) {
        CommandAction::SendFrame(m) => assert!(m.is_ping()),
        _ => panic!("expected a frame"),
    }
    assert!(server.finishes_round_after_stop());
    assert_eq!(server.id(), 7);
    assert_eq!(server.subscriber_id(), Some(3));

    let mut client = ConnectionState::new_client();
    assert_eq!(client.id(), 0);
    assert_eq!(client.subscriber_id(), None);
    assert!(matches!(client.on_command(SendCommand::Publish("t".to_string(), Message::binary(vec![1]))), CommandAction::Ignore));
    assert!(!client.finishes_round_after_stop());
    match client.on_command(SendCommand::Close(1000, "bye".to_string())) {
        CommandAction::SendCloseAndStop(m) => {
            let r = m.close_reason().unwrap();
            assert_eq!(r.code, 1000);
            assert_eq!(r.reason, "bye");
        }
        _ => panic!("expected close"),
    }
    assert!(client.is_closed());
}

#[test]
fn queue_capacity_zero_is_unbounded() {
    assert_eq!(queue_capacity(0), None);
    assert_eq!(queue_capacity(16), Some(16));
}

#[test]
fn server_connection_gets_a_subscriber() {
    let mut registry = PubSubRegistry::new();
    assert_eq!(registry.subscriber_count(), 0);
    let c = open_server_connection(&mut registry, 42).unwrap();
    assert_eq!(registry.subscriber_count(), 1);
    assert_eq!(c.id(), 42);
    assert_eq!(c.subscriber_id(), Some(1));
    assert!(!c.is_closed());
    assert!(!c.is_backpressured());
    assert!(c.subscriptions().is_empty());
    assert_eq!(c.stats(), sockudo_ws::stats::ConnectionStats::default());
    let d = open_server_connection(&mut registry, 43).unwrap();
    assert_eq!(d.subscriber_id(), Some(2));
    assert_eq!(registry.subscriber_count(), 2);
}

#[test]
fn rounds_of_commands() {
    assert!(!round_is_full(99));
    assert!(round_is_full(100));
    let mut c = ConnectionState::new_server(7, 3);
    assert!(!c.finish_round(0, true, 4096));
    assert!(c.is_backpressured());
    assert_eq!(c.stats().write_buffer_size, 4096);
    assert!(c.finish_round(3, false, 0));
    assert!(!c.is_backpressured());
}

#[test]
fn counters_wrap_and_report_low_bits() {
    let mut inner = ConnectionStatsInner::default();
    inner.bytes_sent = u64::MAX;
    inner.record_sent(2);
    assert_eq!(inner.bytes_sent, 1);
    assert_eq!(inner.messages_sent, 1);
    inner.bytes_received = 0x1_0000_0005;
    let s = inner.snapshot();
    assert_eq!(s.bytes_received, 5);
    assert_eq!(ConnectionStats::default().messages_sent, 0);
    inner.record_write_buffer(true, 7);
    inner.record_received(10);
    assert_eq!(inner.messages_received, 1);
    assert!(inner.snapshot().is_backpressured);
}
