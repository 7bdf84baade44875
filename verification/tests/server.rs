use sockudo_ws::config::{hft_config, Compression};
use sockudo_ws::server::{client_settings, ClientOptions, ServerOptions, ServerState};

fn options() -> ServerOptions {
    ServerOptions { port: 8080, host: None, config: None, queue_size: None }
}

#[test]
fn server_defaults() {
    let s = ServerState::new(options());
    assert_eq!(s.host(), "0.0.0.0");
    assert_eq!(s.port(), 8080);
    assert_eq!(s.queue_size(), 1024);
    assert_eq!(s.config().compression, Some(Compression::Disabled));
    assert!(!s.is_running());
    assert_eq!(s.address(), "0.0.0.0:8080");
}

#[test]
fn server_with_options() {
    let s = ServerState::new(ServerOptions {
        port: 9,
        host: Some("127.0.0.1".to_string()),
        config: Some(hft_config()),
        queue_size: Some(0),
    });
    assert_eq!(s.address(), "127.0.0.1:9");
    assert_eq!(s.queue_size(), 0);
    assert_eq!(s.config().idle_timeout, Some(5));
}

#[test]
fn server_starts_once() {
    let mut s = ServerState::new(options());
    assert!(s.try_start());
    assert!(s.is_running());
    assert!(!s.try_start());
    assert!(s.stop().is_empty());
    assert!(!s.is_running());
    assert!(s.stop().is_empty());
    assert!(s.try_start());
}

#[test]
fn failed_start_can_be_retried() {
    let mut s = ServerState::new(options());
    assert!(s.try_start());
    s.start_failed();
    assert!(!s.is_running());
    assert!(s.try_start());
    assert!(s.is_running());
}

#[test]
fn stopped_server_refuses_connections() {
    let mut s = ServerState::new(options());
    assert_eq!(s.accept_connection(), None);
    assert_eq!(s.stats(0).total_connections, 0);
    assert!(s.try_start());
    assert_eq!(s.accept_connection(), Some(1));
    assert_eq!(s.stop(), vec![1]);
    assert_eq!(s.accept_connection(), None);
    assert_eq!(s.stats(0).total_connections, 1);
}

#[test]
fn connection_ids_and_counters() {
    let mut s = ServerState::new(options());
    assert!(s.try_start());
    assert_eq!(s.accept_connection(), Some(1));
    assert_eq!(s.accept_connection(), Some(2));
    assert_eq!(s.accept_connection(), Some(3));
    s.handshake_failed(2);
    let st = s.stats(3);
    assert_eq!(st.total_connections, 3);
    assert_eq!(st.active_connections, 2);
    assert_eq!(st.topic_count, 3);
    assert_eq!(st.messages_published, 0);
    s.connection_closed(1);
    assert_eq!(s.stats(0).active_connections, 1);
    s.connection_closed(9);
    assert_eq!(s.stats(0).active_connections, 1);
    assert_eq!(s.stop(), vec![3]);
}

#[test]
fn server_publish_accounting() {
    let mut s = ServerState::new(options());
    assert_eq!(s.record_publish(Some(4)), 4);
    assert_eq!(s.record_publish(None), 0);
    assert_eq!(s.record_publish(Some(2)), 2);
    assert_eq!(s.stats(0).messages_published, 6);
}

#[test]
fn client_defaults() {
    let c = client_settings(ClientOptions {
        url: "ws://localhost:8080/ws".to_string(),
        config: None,
        protocol: None,
        queue_size: None,
    });
    assert_eq!(c.url, "ws://localhost:8080/ws");
    assert_eq!(c.queue_size, 1024);
    assert_eq!(c.config.max_message_size, Some(64 * 1024 * 1024));
    assert!(c.protocol.is_none());
}

#[test]
fn consecutive_accepts_give_distinct_ids() {
    let mut s = ServerState::new(options());
    assert!(s.try_start());
    let mut ids = Vec::new();
    for _ in 0..50 {
        ids.push(s.accept_connection().unwrap());
    }
    let mut sorted = ids.clone();
    sorted.sort();
    sorted.dedup();
    assert_eq!(sorted.len(), 50);
    assert_eq!(ids[0], 1);
    assert_eq!(ids[49], 50);
}

#[test]
fn active_is_accepted_minus_ended() {
    let mut s = ServerState::new(options());
    assert!(s.try_start());
    for _ in 0..5 {
        s.accept_connection();
    }
    s.handshake_failed(1);
    s.connection_closed(3);
    s.connection_closed(4);
    s.connection_closed(4);
    let st = s.stats(0);
    assert_eq!(st.total_connections, 5);
    assert_eq!(st.active_connections, 2);
    assert_eq!(s.stop(), vec![2, 5]);
}
