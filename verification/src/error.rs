//! The error taxonomy shared by both protocol layers.

use vstd::prelude::*;

verus! {

/// Everything that can go wrong inside the protocol core.
///
/// Codec errors on a single session terminate that session only; heartbeat
/// timeouts are not errors and never appear here.
#[derive(Clone, Copy, Debug, PartialEq, Eq, Structural)]
pub enum Error {
    /// Malformed Engine.IO or Socket.IO framing.
    InvalidPacket,
    /// The stream closed mid-packet or mid-attachment.
    IncompletePacket,
    /// A non-message frame arrived while binary attachments were expected;
    /// carries the Engine.IO packet id of the offending frame.
    InvalidAttachmentPacketType(u8),
    /// `send` or `emit` on a session that is not currently connected.
    IllegalActionBeforeOpen,
    /// Underlying transport failure, reported by the I/O layer.
    Transport,
    /// JSON encoding or decoding failure, reported by the serializer.
    Serde,
}

impl Error {
    /// A short human-readable description, in place of a `Display` impl.
    pub fn message(&self) -> (r: &'static str)
        ensures
            r@.len() > 0,
    {
        proof {
            reveal_strlit("invalid packet");
            reveal_strlit("incomplete packet");
            reveal_strlit("invalid attachment packet type");
            reveal_strlit("illegal action before open");
            reveal_strlit("transport error");
            reveal_strlit("serde error");
        }
        match self {
            Error::InvalidPacket => "invalid packet",
            Error::IncompletePacket => "incomplete packet",
            Error::InvalidAttachmentPacketType(_) => "invalid attachment packet type",
            Error::IllegalActionBeforeOpen => "illegal action before open",
            Error::Transport => "transport error",
            Error::Serde => "serde error",
        }
    }
}

} // verus!
