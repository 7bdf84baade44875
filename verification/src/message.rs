//! WebSocket messages: text, binary, ping, pong and close.

use vstd::prelude::*;
use vstd::slice::slice_to_vec;
use vstd::utf8::encode_utf8;

use crate::close::{close_reason_view, CloseReason};

verus! {

/// WebSocket message type.
#[derive(Debug, Clone, Copy, PartialEq, Eq, Structural)]
pub enum MessageType {
    /// UTF-8 text message
    Text,
    /// Binary data message
    Binary,
    /// Ping control frame
    Ping,
    /// Pong control frame
    Pong,
    /// Close control frame
    Close,
}

#[derive(Clone)]
enum MessageInner {
    Text(String),
    Binary(Vec<u8>),
    Ping(Vec<u8>),
    Pong(Vec<u8>),
    Close(Option<CloseReason>),
}

/// A WebSocket message.
#[derive(Clone)]
pub struct Message {
    inner: MessageInner,
}

/// The payload that a close frame carries for an optional close reason: no
/// bytes without a reason, otherwise the two code bytes and the reason text.
pub open spec fn close_payload_len(info: Option<(u16, Seq<char>)>) -> int {
    match info {
        Some((_, reason)) => 2 + encode_utf8(reason).len() as int,
        None => 0,
    }
}

impl Message {
    /// The kind of message.
    pub closed spec fn kind(&self) -> MessageType {
        match self.inner {
            MessageInner::Text(_) => MessageType::Text,
            MessageInner::Binary(_) => MessageType::Binary,
            MessageInner::Ping(_) => MessageType::Ping,
            MessageInner::Pong(_) => MessageType::Pong,
            MessageInner::Close(_) => MessageType::Close,
        }
    }

    /// The characters of a text message (empty for other kinds).
    pub closed spec fn text_chars(&self) -> Seq<char> {
        match self.inner {
            MessageInner::Text(s) => s@,
            _ => Seq::empty(),
        }
    }

    /// The payload bytes of a text, binary, ping or pong message: the UTF-8
    /// encoding of a text, the data of the others (empty for a close).
    pub closed spec fn payload(&self) -> Seq<u8> {
        match self.inner {
            MessageInner::Text(s) => encode_utf8(s@),
            MessageInner::Binary(b) => b@,
            MessageInner::Ping(b) => b@,
            MessageInner::Pong(b) => b@,
            MessageInner::Close(_) => Seq::empty(),
        }
    }

    /// The close code and reason of a close message, if it has one.
    pub closed spec fn close_info(&self) -> Option<(u16, Seq<char>)> {
        match self.inner {
            MessageInner::Close(Some(r)) => Some(close_reason_view(r)),
            _ => None,
        }
    }

    /// A text message carries exactly the UTF-8 encoding of its text.
    pub proof fn lemma_text_payload(&self)
        requires
            self.kind() == MessageType::Text,
        ensures
            self.payload() == encode_utf8(self.text_chars()),
            self.close_info() is None,
    {
    }

    /// Create a text message from a string.
    pub fn text(text: String) -> (m: Self)
        ensures
            m.kind() == MessageType::Text,
            m.text_chars() == text@,
            m.payload() == encode_utf8(text@),
            m.close_info() is None,
    {
        Message { inner: MessageInner::Text(text) }
    }

    /// Create a binary message from bytes.
    pub fn binary(data: Vec<u8>) -> (m: Self)
        ensures
            m.kind() == MessageType::Binary,
            m.payload() == data@,
            m.text_chars() == Seq::<char>::empty(),
            m.close_info() is None,
    {
        Message { inner: MessageInner::Binary(data) }
    }

    /// Create a ping message; without data its payload is empty.
    pub fn ping(data: Option<Vec<u8>>) -> (m: Self)
        ensures
            m.kind() == MessageType::Ping,
            m.payload() == (match data {
                Some(d) => d@,
                None => Seq::<u8>::empty(),
            }),
            m.text_chars() == Seq::<char>::empty(),
            m.close_info() is None,
    {
        let bytes = match data {
            Some(d) => d,
            None => Vec::new(),
        };
        Message { inner: MessageInner::Ping(bytes) }
    }

    /// Create a pong message; without data its payload is empty.
    pub fn pong(data: Option<Vec<u8>>) -> (m: Self)
        ensures
            m.kind() == MessageType::Pong,
            m.payload() == (match data {
                Some(d) => d@,
                None => Seq::<u8>::empty(),
            }),
            m.text_chars() == Seq::<char>::empty(),
            m.close_info() is None,
    {
        let bytes = match data {
            Some(d) => d,
            None => Vec::new(),
        };
        Message { inner: MessageInner::Pong(bytes) }
    }

    /// Create a close message. The code defaults to 1000 (normal closure)
    /// and is truncated to 16 bits; the reason defaults to the empty
    /// string.
    pub fn close(code: Option<u32>, reason: Option<String>) -> (m: Self)
        ensures
            m.kind() == MessageType::Close,
            m.payload() == Seq::<u8>::empty(),
            m.text_chars() == Seq::<char>::empty(),
            m.close_info() == Some(
                (
                    match code {
                        Some(c) => (c % 0x10000) as u16,
                        None => 1000u16,
                    },
                    match reason {
                        Some(r) => r@,
                        None => Seq::<char>::empty(),
                    },
                ),
            ),
    {
        let c: u16 = match code {
            Some(c) => (c % 0x10000) as u16,
            None => 1000,
        };
        let text = match reason {
            Some(r) => r,
            None => String::new(),
        };
        Message { inner: MessageInner::Close(Some(CloseReason { code: c, reason: text })) }
    }

    /// The message type.
    pub fn message_type(&self) -> (t: MessageType)
        ensures
            t == self.kind(),
    {
        match &self.inner {
            MessageInner::Text(_) => MessageType::Text,
            MessageInner::Binary(_) => MessageType::Binary,
            MessageInner::Ping(_) => MessageType::Ping,
            MessageInner::Pong(_) => MessageType::Pong,
            MessageInner::Close(_) => MessageType::Close,
        }
    }

    /// Whether this is a text message.
    pub fn is_text(&self) -> (b: bool)
        ensures
            b == (self.kind() == MessageType::Text),
    {
        match &self.inner {
            MessageInner::Text(_) => true,
            _ => false,
        }
    }

    /// Whether this is a binary message.
    pub fn is_binary(&self) -> (b: bool)
        ensures
            b == (self.kind() == MessageType::Binary),
    {
        match &self.inner {
            MessageInner::Binary(_) => true,
            _ => false,
        }
    }

    /// Whether this is a ping message.
    pub fn is_ping(&self) -> (b: bool)
        ensures
            b == (self.kind() == MessageType::Ping),
    {
        match &self.inner {
            MessageInner::Ping(_) => true,
            _ => false,
        }
    }

    /// Whether this is a pong message.
    pub fn is_pong(&self) -> (b: bool)
        ensures
            b == (self.kind() == MessageType::Pong),
    {
        match &self.inner {
            MessageInner::Pong(_) => true,
            _ => false,
        }
    }

    /// Whether this is a close message.
    pub fn is_close(&self) -> (b: bool)
        ensures
            b == (self.kind() == MessageType::Close),
    {
        match &self.inner {
            MessageInner::Close(_) => true,
            _ => false,
        }
    }

    /// Whether this is a control frame (ping, pong, or close).
    pub fn is_control(&self) -> (b: bool)
        ensures
            b == (self.kind() == MessageType::Ping || self.kind() == MessageType::Pong
                || self.kind() == MessageType::Close),
    {
        match &self.inner {
            MessageInner::Ping(_) | MessageInner::Pong(_) | MessageInner::Close(_) => true,
            _ => false,
        }
    }

    /// The text of a text message; `None` for other kinds.
    pub fn as_text(&self) -> (t: Option<String>)
        ensures
            t is Some <==> self.kind() == MessageType::Text,
            t matches Some(s) ==> s@ == self.text_chars(),
    {
        match &self.inner {
            MessageInner::Text(s) => Some(s.clone()),
            _ => None,
        }
    }

    /// The payload bytes of a text, binary, ping or pong message; `None`
    /// for a close message.
    pub fn as_buffer(&self) -> (b: Option<Vec<u8>>)
        ensures
            b is Some <==> self.kind() != MessageType::Close,
            b matches Some(v) ==> v@ == self.payload(),
    {
        match &self.inner {
            MessageInner::Text(s) => Some(slice_to_vec(s.as_str().as_bytes())),
            MessageInner::Binary(v) | MessageInner::Ping(v) | MessageInner::Pong(v) => {
                let c = v.clone();
                proof {
                    assert(c@ =~= v@);
                }
                Some(c)
            },
            MessageInner::Close(_) => None,
        }
    }

    /// The close reason of a close message that has one; `None` otherwise.
    pub fn close_reason(&self) -> (r: Option<CloseReason>)
        ensures
            r is Some <==> self.close_info() is Some,
            r matches Some(c) ==> Some(close_reason_view(c)) == self.close_info(),
    {
        match &self.inner {
            MessageInner::Close(Some(c)) => Some(
                CloseReason { code: c.code, reason: c.reason.clone() },
            ),
            _ => None,
        }
    }

    /// The byte length of the payload (nothing for a close frame).
    pub fn payload_len(&self) -> (n: usize)
        ensures
            n == self.payload().len() as usize,
    {
        match &self.inner {
            MessageInner::Text(s) => s.as_str().len(),
            MessageInner::Binary(v) | MessageInner::Ping(v) | MessageInner::Pong(v) => v.len(),
            MessageInner::Close(_) => 0,
        }
    }

    /// The payload size in bytes, truncated to 32 bits. A close message
    /// counts two bytes for its code plus the bytes of its reason, or
    /// nothing when it has no close reason. (The byte length of any text
    /// held in memory fits in `usize`.)
    pub fn size(&self) -> (n: u32)
        ensures
            self.kind() != MessageType::Close && self.payload().len() <= usize::MAX ==> n as int
                == self.payload().len() % 0x1_0000_0000,
            self.kind() == MessageType::Close && close_payload_len(self.close_info()) <= usize::MAX
                + 2 ==> n as int == close_payload_len(self.close_info()) % 0x1_0000_0000,
            self.close_info() matches Some(info) ==> (encode_utf8(info.1).len() <= usize::MAX ==> n
                as int == (2 + encode_utf8(info.1).len()) % 0x1_0000_0000),
            self.kind() == MessageType::Close && self.close_info() is None ==> n == 0,
    {
        let len: usize = match &self.inner {
            MessageInner::Text(s) => s.as_str().len(),
            MessageInner::Binary(v) | MessageInner::Ping(v) | MessageInner::Pong(v) => v.len(),
            MessageInner::Close(Some(c)) => c.reason.as_str().len(),
            MessageInner::Close(None) => 0,
        };
        let wide = len as u64 % 0x1_0000_0000;
        let with_code: u64 = match &self.inner {
            MessageInner::Close(Some(_)) => {
                proof {
                    assert((wide + 2) % 0x1_0000_0000int == (len + 2) % 0x1_0000_0000int) by (nonlinear_arith)
                        requires
                            wide as int == len as int % 0x1_0000_0000int,
                    ;
                }
                (wide + 2) % 0x1_0000_0000
            },
            _ => wide,
        };
        with_code as u32
    }
}

/// A close frame counts two bytes for its code plus the UTF-8 bytes of its
/// reason: exactly two more than a text message carrying the reason as its
/// text, so a reason with multi-byte characters counts all their bytes.
pub proof fn lemma_close_size_counts_reason_bytes(code: u16, reason: Seq<char>, text: Message)
    requires
        text.kind() == MessageType::Text,
        text.text_chars() == reason,
    ensures
        close_payload_len(Some((code, reason))) == 2 + encode_utf8(reason).len(),
        close_payload_len(Some((code, reason))) == 2 + text.payload().len(),
        close_payload_len(None::<(u16, Seq<char>)>) == 0,
{
    text.lemma_text_payload();
}

} // verus!
