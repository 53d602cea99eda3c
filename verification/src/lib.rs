//! Server core of the Engine.IO v4 / Socket.IO v5 protocols: wire codecs for
//! both packet layers, HTTP request classification for transport negotiation,
//! the session registry with heartbeat-driven liveness, and the error taxonomy.
//!
//! Network I/O, timers and the WebSocket handshake live outside this crate;
//! everything here is pure logic over bytes and plain values.

pub mod decimal;
pub mod engine;
pub mod error;
pub mod handshake;
pub mod http;
pub mod packet;
pub mod payload;
pub mod server;
pub mod session;
pub mod sid;
pub mod socket;

pub use engine::{EngineFrame, EnginePacket, EnginePacketId};
pub use error::Error;
pub use handshake::HandshakePacket;
pub use http::{parse_request_type, PollingAcceptor, RequestType};
pub use packet::{Packet, PacketId};
pub use payload::{Event, Payload};
pub use server::{HeartbeatAction, Server, ServerOption};
pub use session::{PacketEffect, Session, SessionState};
pub use sid::{Sid, SidGenerator};
pub use socket::Socket;
