//! The Engine.IO wire codec: a one-digit packet id plus payload, carried as a
//! text frame, except for binary messages which travel as raw binary frames.

use vstd::prelude::*;

use crate::error::Error;

verus! {

/// The Engine.IO packet ids. `MessageBinary` has no text digit: it is told
/// apart at the transport boundary by arriving in a binary frame.
#[derive(Clone, Copy, Debug, PartialEq, Eq, Structural)]
pub enum EnginePacketId {
    Open,
    Close,
    Ping,
    Pong,
    Message,
    Upgrade,
    Noop,
    MessageBinary,
}

impl EnginePacketId {
    /// Numeric id, used when reporting an unexpected frame. A binary message
    /// is a message, so it shares the `Message` number.
    pub fn to_u8(&self) -> (r: u8)
        ensures
            r == id_number(*self),
    {
        match self {
            EnginePacketId::Open => 0,
            EnginePacketId::Close => 1,
            EnginePacketId::Ping => 2,
            EnginePacketId::Pong => 3,
            EnginePacketId::Message => 4,
            EnginePacketId::Upgrade => 5,
            EnginePacketId::Noop => 6,
            EnginePacketId::MessageBinary => 4,
        }
    }
}

pub open spec fn id_number(id: EnginePacketId) -> u8 {
    match id {
        EnginePacketId::Open => 0,
        EnginePacketId::Close => 1,
        EnginePacketId::Ping => 2,
        EnginePacketId::Pong => 3,
        EnginePacketId::Message => 4,
        EnginePacketId::Upgrade => 5,
        EnginePacketId::Noop => 6,
        EnginePacketId::MessageBinary => 4,
    }
}

/// The ASCII digit that opens a text frame for each text packet id.
pub open spec fn id_digit(id: EnginePacketId) -> u8 {
    match id {
        EnginePacketId::Open => 48,
        EnginePacketId::Close => 49,
        EnginePacketId::Ping => 50,
        EnginePacketId::Pong => 51,
        EnginePacketId::Message => 52,
        EnginePacketId::Upgrade => 53,
        EnginePacketId::Noop => 54,
        EnginePacketId::MessageBinary => 52,
    }
}

/// An Engine.IO packet: id plus payload bytes.
#[derive(Clone, Debug, PartialEq, Eq)]
pub struct EnginePacket {
    pub packet_id: EnginePacketId,
    pub data: Vec<u8>,
}

/// One transport frame, as the WebSocket (or polling body) carries it.
#[derive(Clone, Debug, PartialEq, Eq)]
pub enum EngineFrame {
    Text(Vec<u8>),
    Binary(Vec<u8>),
}

pub open spec fn frame_is_binary(f: EngineFrame) -> bool {
    match f {
        EngineFrame::Text(_) => false,
        EngineFrame::Binary(_) => true,
    }
}

pub open spec fn frame_bytes(f: EngineFrame) -> Seq<u8> {
    match f {
        EngineFrame::Text(v) => v@,
        EngineFrame::Binary(v) => v@,
    }
}

/// Serialization: binary payload for `MessageBinary`, digit-prefixed text for
/// every other id. The first component says whether the frame is binary.
pub open spec fn spec_serialize(id: EnginePacketId, payload: Seq<u8>) -> (bool, Seq<u8>) {
    if id is MessageBinary {
        (true, payload)
    } else {
        (false, seq![id_digit(id)] + payload)
    }
}

/// Parsing: the inverse of `spec_serialize`. `None` stands for
/// `Error::InvalidPacket`: an empty text frame or an unknown leading digit.
pub open spec fn spec_parse(is_binary: bool, bytes: Seq<u8>) -> Option<(EnginePacketId, Seq<u8>)> {
    if is_binary {
        Some((EnginePacketId::MessageBinary, bytes))
    } else if bytes.len() == 0 {
        None
    } else {
        match digit_id(bytes[0]) {
            Some(id) => Some((id, bytes.skip(1))),
            None => None,
        }
    }
}

pub open spec fn digit_id(b: u8) -> Option<EnginePacketId> {
    if b == 48 {
        Some(EnginePacketId::Open)
    } else if b == 49 {
        Some(EnginePacketId::Close)
    } else if b == 50 {
        Some(EnginePacketId::Ping)
    } else if b == 51 {
        Some(EnginePacketId::Pong)
    } else if b == 52 {
        Some(EnginePacketId::Message)
    } else if b == 53 {
        Some(EnginePacketId::Upgrade)
    } else if b == 54 {
        Some(EnginePacketId::Noop)
    } else {
        None
    }
}

impl EnginePacket {
    pub fn new(packet_id: EnginePacketId, data: Vec<u8>) -> (p: EnginePacket)
        ensures
            p.packet_id == packet_id,
            p.data == data,
    {
        EnginePacket { packet_id, data }
    }

    /// Serialize this packet into the frame the transport must carry.
    pub fn serialize(&self) -> (f: EngineFrame)
        ensures
            frame_is_binary(f) == spec_serialize(self.packet_id, self.data@).0,
            frame_bytes(f) == spec_serialize(self.packet_id, self.data@).1,
    {
        match self.packet_id {
            EnginePacketId::MessageBinary => EngineFrame::Binary(self.data.clone()),
            _ => {
                let mut v: Vec<u8> = Vec::new();
                v.push(self.digit());
                v.extend_from_slice(self.data.as_slice());
                proof {
                    assert(v@ =~= seq![id_digit(self.packet_id)] + self.data@);
                }
                EngineFrame::Text(v)
            },
        }
    }

    fn digit(&self) -> (d: u8)
        ensures
            d == id_digit(self.packet_id),
    {
        match self.packet_id {
            EnginePacketId::Open => 48,
            EnginePacketId::Close => 49,
            EnginePacketId::Ping => 50,
            EnginePacketId::Pong => 51,
            EnginePacketId::Message => 52,
            EnginePacketId::Upgrade => 53,
            EnginePacketId::Noop => 54,
            EnginePacketId::MessageBinary => 52,
        }
    }

    /// Parse one transport frame into a packet; the only failure is
    /// `InvalidPacket`, exactly where `spec_parse` gives `None`.
    pub fn parse(f: &EngineFrame) -> (r: Result<EnginePacket, Error>)
        ensures
            match spec_parse(frame_is_binary(*f), frame_bytes(*f)) {
                Some(p) => r matches Ok(q) && q.packet_id == p.0 && q.data@ == p.1,
                None => r matches Err(e) && e == Error::InvalidPacket,
            },
    {
        match f {
            EngineFrame::Binary(v) => Ok(EnginePacket {
                packet_id: EnginePacketId::MessageBinary,
                data: v.clone(),
            }),
            EngineFrame::Text(v) => {
                if v.len() == 0 {
                    return Err(Error::InvalidPacket);
                }
                let b = v[0];
                if b < 48 || b > 54 {
                    return Err(Error::InvalidPacket);
                }
                let id = match b {
                    48 => EnginePacketId::Open,
                    49 => EnginePacketId::Close,
                    50 => EnginePacketId::Ping,
                    51 => EnginePacketId::Pong,
                    52 => EnginePacketId::Message,
                    53 => EnginePacketId::Upgrade,
                    _ => EnginePacketId::Noop,
                };
                let rest = vstd::slice::slice_subrange(v.as_slice(), 1, v.len());
                let data = vstd::slice::slice_to_vec(rest);
                proof {
                    assert(data@ =~= v@.skip(1));
                }
                Ok(EnginePacket { packet_id: id, data })
            },
        }
    }
}

/// Round trip: parsing a serialized packet gives the packet back, for every
/// packet id and every payload.
pub proof fn lemma_engine_round_trip(id: EnginePacketId, payload: Seq<u8>)
    ensures
        spec_parse(spec_serialize(id, payload).0, spec_serialize(id, payload).1)
            == Some((id, payload)),
{
    let (b, s) = spec_serialize(id, payload);
    if !(id is MessageBinary) {
        assert(s[0] == id_digit(id));
        assert(digit_id(id_digit(id)) == Some(id));
        assert(s.skip(1) =~= payload);
    }
}

} // verus!
