//! Close codes (RFC 6455, section 7.4.1) and close reasons.

use vstd::prelude::*;

verus! {

/// WebSocket close codes.
#[derive(Debug, Clone, Copy, PartialEq, Eq, Structural)]
pub enum CloseCode {
    /// Normal closure (1000)
    Normal,
    /// Going away (1001)
    GoingAway,
    /// Protocol error (1002)
    ProtocolError,
    /// Unsupported data (1003)
    Unsupported,
    /// No status received (1005)
    NoStatus,
    /// Abnormal closure (1006)
    Abnormal,
    /// Invalid payload (1007)
    InvalidPayload,
    /// Policy violation (1008)
    PolicyViolation,
    /// Message too big (1009)
    MessageTooBig,
    /// Missing extension (1010)
    MissingExtension,
    /// Internal error (1011)
    InternalError,
}

/// The numeric value of each close code on the wire.
pub open spec fn close_code_value(c: CloseCode) -> u16 {
    match c {
        CloseCode::Normal => 1000,
        CloseCode::GoingAway => 1001,
        CloseCode::ProtocolError => 1002,
        CloseCode::Unsupported => 1003,
        CloseCode::NoStatus => 1005,
        CloseCode::Abnormal => 1006,
        CloseCode::InvalidPayload => 1007,
        CloseCode::PolicyViolation => 1008,
        CloseCode::MessageTooBig => 1009,
        CloseCode::MissingExtension => 1010,
        CloseCode::InternalError => 1011,
    }
}

impl CloseCode {
    /// The numeric close code.
    pub fn code(&self) -> (v: u16)
        ensures
            v == close_code_value(*self),
    {
        match self {
            CloseCode::Normal => 1000,
            CloseCode::GoingAway => 1001,
            CloseCode::ProtocolError => 1002,
            CloseCode::Unsupported => 1003,
            CloseCode::NoStatus => 1005,
            CloseCode::Abnormal => 1006,
            CloseCode::InvalidPayload => 1007,
            CloseCode::PolicyViolation => 1008,
            CloseCode::MessageTooBig => 1009,
            CloseCode::MissingExtension => 1010,
            CloseCode::InternalError => 1011,
        }
    }
}

/// Distinct close codes have distinct numeric values.
pub proof fn lemma_close_code_values_distinct(a: CloseCode, b: CloseCode)
    ensures
        close_code_value(a) == close_code_value(b) ==> a == b,
{
}

/// Close reason: a close code and a (possibly empty) reason string.
#[derive(Debug, Clone)]
pub struct CloseReason {
    /// Close code (RFC 6455)
    pub code: u16,
    /// Reason string
    pub reason: String,
}

/// A close reason as plain values: the code and the reason's characters.
pub open spec fn close_reason_view(r: CloseReason) -> (u16, Seq<char>) {
    (r.code, r.reason@)
}

} // verus!
