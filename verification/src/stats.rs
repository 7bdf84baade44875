//! Per-connection statistics.

use vstd::prelude::*;

verus! {

/// Statistics for a WebSocket connection, as reported to users (counters
/// truncated to 32 bits).
#[derive(Debug, Clone, Copy, PartialEq, Eq, Structural)]
pub struct ConnectionStats {
    /// Total messages sent
    pub messages_sent: u32,
    /// Total messages received
    pub messages_received: u32,
    /// Total bytes sent
    pub bytes_sent: u32,
    /// Total bytes received
    pub bytes_received: u32,
    /// Current write buffer size
    pub write_buffer_size: u32,
    /// Whether the connection is backpressured
    pub is_backpressured: bool,
}

impl Default for ConnectionStats {
    /// All counters zero, not backpressured.
    fn default() -> (s: Self)
        ensures
            s == (ConnectionStats {
                messages_sent: 0,
                messages_received: 0,
                bytes_sent: 0,
                bytes_received: 0,
                write_buffer_size: 0,
                is_backpressured: false,
            }),
    {
        ConnectionStats {
            messages_sent: 0,
            messages_received: 0,
            bytes_sent: 0,
            bytes_received: 0,
            write_buffer_size: 0,
            is_backpressured: false,
        }
    }
}

/// The live 64-bit counters of a connection. Counters wrap around on
/// overflow, as atomic additions do.
#[derive(Debug, Clone, Copy, PartialEq, Eq, Structural)]
pub struct ConnectionStatsInner {
    pub messages_sent: u64,
    pub messages_received: u64,
    pub bytes_sent: u64,
    pub bytes_received: u64,
    pub write_buffer_size: u64,
    pub is_backpressured: bool,
}

/// `x + y` modulo 2^64.
pub open spec fn wrap_add(x: u64, y: u64) -> u64 {
    ((x + y) % 0x1_0000_0000_0000_0000) as u64
}

/// `x` modulo 2^32.
pub open spec fn low32(x: u64) -> u32 {
    (x % 0x1_0000_0000) as u32
}

fn add_wrapping(x: u64, y: u64) -> (r: u64)
    ensures
        r == wrap_add(x, y),
{
    x.wrapping_add(y)
}

fn truncate32(x: u64) -> (r: u32)
    ensures
        r == low32(x),
{
    (x % 0x1_0000_0000) as u32
}

impl Default for ConnectionStatsInner {
    /// All counters zero, not backpressured.
    fn default() -> (s: Self)
        ensures
            s == ConnectionStatsInner::zero(),
    {
        ConnectionStatsInner {
            messages_sent: 0,
            messages_received: 0,
            bytes_sent: 0,
            bytes_received: 0,
            write_buffer_size: 0,
            is_backpressured: false,
        }
    }
}

impl ConnectionStatsInner {
    /// All counters zero, not backpressured.
    pub open spec fn zero() -> Self {
        ConnectionStatsInner {
            messages_sent: 0,
            messages_received: 0,
            bytes_sent: 0,
            bytes_received: 0,
            write_buffer_size: 0,
            is_backpressured: false,
        }
    }

    /// Count one message of `size` bytes handed to the send queue.
    pub fn record_sent(&mut self, size: u64)
        ensures
            *final(self) == (ConnectionStatsInner {
                messages_sent: wrap_add(old(self).messages_sent, 1),
                bytes_sent: wrap_add(old(self).bytes_sent, size),
                ..*old(self)
            }),
    {
        self.messages_sent = add_wrapping(self.messages_sent, 1);
        self.bytes_sent = add_wrapping(self.bytes_sent, size);
    }

    /// Count one received message of `size` bytes.
    pub fn record_received(&mut self, size: u64)
        ensures
            *final(self) == (ConnectionStatsInner {
                messages_received: wrap_add(old(self).messages_received, 1),
                bytes_received: wrap_add(old(self).bytes_received, size),
                ..*old(self)
            }),
    {
        self.messages_received = add_wrapping(self.messages_received, 1);
        self.bytes_received = add_wrapping(self.bytes_received, size);
    }

    /// Record the transport's write-buffer state after a round of sends.
    pub fn record_write_buffer(&mut self, backpressured: bool, buffer_len: u64)
        ensures
            *final(self) == (ConnectionStatsInner {
                is_backpressured: backpressured,
                write_buffer_size: buffer_len,
                ..*old(self)
            }),
    {
        self.is_backpressured = backpressured;
        self.write_buffer_size = buffer_len;
    }

    /// Mark the connection backpressured (the send queue was full).
    pub fn mark_backpressured(&mut self)
        ensures
            *final(self) == (ConnectionStatsInner { is_backpressured: true, ..*old(self) }),
    {
        self.is_backpressured = true;
    }

    /// The statistics as reported to users: each counter truncated to its
    /// low 32 bits.
    pub fn snapshot(&self) -> (s: ConnectionStats)
        ensures
            s == (ConnectionStats {
                messages_sent: low32(self.messages_sent),
                messages_received: low32(self.messages_received),
                bytes_sent: low32(self.bytes_sent),
                bytes_received: low32(self.bytes_received),
                write_buffer_size: low32(self.write_buffer_size),
                is_backpressured: self.is_backpressured,
            }),
    {
        ConnectionStats {
            messages_sent: truncate32(self.messages_sent),
            messages_received: truncate32(self.messages_received),
            bytes_sent: truncate32(self.bytes_sent),
            bytes_received: truncate32(self.bytes_received),
            write_buffer_size: truncate32(self.write_buffer_size),
            is_backpressured: self.is_backpressured,
        }
    }
}

} // verus!
