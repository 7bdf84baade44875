use sockudo_ws::close::{CloseCode, CloseReason};
use sockudo_ws::message::{Message, MessageType};

#[test]
fn text_message() {
    let m = Message::text("Hello, 世界".to_string());
    assert_eq!(m.message_type(), MessageType::Text);
    assert!(m.is_text());
    assert!(!m.is_binary() && !m.is_ping() && !m.is_pong() && !m.is_close());
    assert!(!m.is_control());
    assert_eq!(m.as_text(), Some("Hello, 世界".to_string()));
    assert_eq!(m.as_buffer(), Some("Hello, 世界".as_bytes().to_vec()));
    assert_eq!(m.size(), 13);
    assert_eq!(m.payload_len(), 13);
    assert!(m.close_reason().is_none());
}

#[test]
fn binary_message() {
    let m = Message::binary(vec![1, 2, 3]);
    assert_eq!(m.message_type(), MessageType::Binary);
    assert!(m.is_binary());
    assert!(!m.is_control());
    assert_eq!(m.as_text(), None);
    assert_eq!(m.as_buffer(), Some(vec![1, 2, 3]));
    assert_eq!(m.size(), 3);
}

#[test]
fn ping_and_pong_messages() {
    let p = Message::ping(None);
    assert_eq!(p.message_type(), MessageType::Ping);
    assert!(p.is_ping() && p.is_control());
    assert_eq!(p.as_buffer(), Some(vec![]));
    assert_eq!(p.size(), 0);
    let q = Message::pong(Some(b"payload".to_vec()));
    assert_eq!(q.message_type(), MessageType::Pong);
    assert!(q.is_pong() && q.is_control());
    assert_eq!(q.as_buffer(), Some(b"payload".to_vec()));
    assert_eq!(q.size(), 7);
    let r = Message::ping(Some(vec![9]));
    assert_eq!(r.as_buffer(), Some(vec![9]));
}

#[test]
fn close_message_with_reason() {
    let m = Message::close(Some(1000), Some("Goodbye!".to_string()));
    assert_eq!(m.message_type(), MessageType::Close);
    assert!(m.is_close() && m.is_control());
    assert_eq!(m.as_buffer(), None);
    assert_eq!(m.as_text(), None);
    let r = m.close_reason().unwrap();
    assert_eq!(r.code, 1000);
    assert_eq!(r.reason, "Goodbye!");
    assert_eq!(m.size(), 10);
    assert_eq!(m.payload_len(), 0);
}

#[test]
fn close_message_defaults() {
    let m = Message::close(Some(1001), None);
    let r = m.close_reason().unwrap();
    assert_eq!(r.code, 1001);
    assert_eq!(r.reason, "");
    assert_eq!(m.size(), 2);
    let bare = Message::close(None, Some("bye".to_string()));
    let r = bare.close_reason().unwrap();
    assert_eq!(r.code, 1000);
    assert_eq!(r.reason, "bye");
    assert_eq!(bare.size(), 5);
    let empty = Message::close(None, None);
    assert_eq!(empty.close_reason().unwrap().code, 1000);
    assert_eq!(empty.size(), 2);
}

#[test]
fn close_code_is_truncated_to_16_bits() {
    let m = Message::close(Some(0x1_03E8), None);
    assert_eq!(m.close_reason().unwrap().code, 1000);
}

#[test]
fn close_code_values() {
    assert_eq!(CloseCode::Normal.code(), 1000);
    assert_eq!(CloseCode::GoingAway.code(), 1001);
    assert_eq!(CloseCode::ProtocolError.code(), 1002);
    assert_eq!(CloseCode::Unsupported.code(), 1003);
    assert_eq!(CloseCode::NoStatus.code(), 1005);
    assert_eq!(CloseCode::Abnormal.code(), 1006);
    assert_eq!(CloseCode::InvalidPayload.code(), 1007);
    assert_eq!(CloseCode::PolicyViolation.code(), 1008);
    assert_eq!(CloseCode::MessageTooBig.code(), 1009);
    assert_eq!(CloseCode::MissingExtension.code(), 1010);
    assert_eq!(CloseCode::InternalError.code(), 1011);
}

#[test]
fn close_reason_fields() {
    let r = CloseReason { code: 1008, reason: "policy".to_string() };
    let copy = r.clone();
    assert_eq!(copy.code, 1008);
    assert_eq!(copy.reason, "policy");
}
