//! A server-side session: one connected peer, its transport state, its last
//! pong time, and the Engine.IO packets queued for its transport in emit
//! order. The tasks that move bytes live outside; they drain `outbound` in
//! queue order and feed arriving packets to `handle_incoming_packet`.

use vstd::prelude::*;

use crate::engine::{EnginePacket, EnginePacketId};
use crate::error::Error;
use crate::socket::{ep_view, lemma_queue_view_push, queue_view};

verus! {

/// The session lifecycle: `Init` until the handshake completes, `Connected`
/// while traffic may flow, `Disconnected` once torn down (terminal).
#[derive(Clone, Copy, Debug, PartialEq, Eq, Structural)]
pub enum SessionState {
    Init,
    Connected,
    Disconnected,
}

/// What an arriving packet asks of the surrounding tasks.
#[derive(Clone, Copy, Debug, PartialEq, Eq, Structural)]
pub enum PacketEffect {
    /// Heartbeat answered; the pong time was updated.
    Pong,
    /// A message: hand its bytes to `on_packet` and `on_data`.
    Data,
    /// The peer closed: the session is now `Disconnected`.
    Closed,
    /// Nothing to do.
    Ignored,
}

/// One peer's per-connection record.
pub struct Session {
    /// The counter value behind the session id.
    pub sid_num: u64,
    /// The opaque id text shown to the client.
    pub sid_text: Vec<u8>,
    pub state: SessionState,
    /// When the last pong arrived, on the caller's monotonic clock (ms).
    pub last_pong: u64,
    /// Packets queued for the transport, in emit order.
    pub outbound: Vec<EnginePacket>,
}

impl Session {
    /// A fresh session in `Init`, with nothing queued and the pong clock
    /// started at `now`.
    pub fn new(sid_num: u64, sid_text: Vec<u8>, now: u64) -> (s: Session)
        ensures
            s.sid_num == sid_num,
            s.sid_text == sid_text,
            s.state == SessionState::Init,
            s.last_pong == now,
            s.outbound@.len() == 0,
    {
        Session { sid_num, sid_text, state: SessionState::Init, last_pong: now, outbound: Vec::new() }
    }

    pub open spec fn is_connected_spec(&self) -> bool {
        self.state == SessionState::Connected
    }

    pub fn is_connected(&self) -> (r: bool)
        ensures
            r == self.is_connected_spec(),
    {
        matches!(self.state, SessionState::Connected)
    }

    /// The handshake completed: the session is connected.
    pub fn connect(&mut self)
        ensures
            final(self).state == SessionState::Connected,
            final(self).sid_num == old(self).sid_num,
            final(self).sid_text == old(self).sid_text,
            final(self).last_pong == old(self).last_pong,
            final(self).outbound == old(self).outbound,
    {
        self.state = SessionState::Connected;
    }

    /// Queue one packet for the transport, keeping emit order. Fails with
    /// `IllegalActionBeforeOpen`, changing nothing, exactly when the session
    /// is not connected.
    pub fn emit(&mut self, packet: EnginePacket) -> (r: Result<(), Error>)
        ensures
            final(self).sid_num == old(self).sid_num,
            final(self).sid_text == old(self).sid_text,
            final(self).state == old(self).state,
            final(self).last_pong == old(self).last_pong,
            !old(self).is_connected_spec() ==> (r matches Err(e)
                && e == Error::IllegalActionBeforeOpen && final(self).outbound == old(
                self,
            ).outbound),
            old(self).is_connected_spec() ==> r is Ok && queue_view(final(self).outbound@)
                == queue_view(old(self).outbound@).push(ep_view(packet)),
    {
        if !self.is_connected() {
            return Err(Error::IllegalActionBeforeOpen);
        }
        let ghost prev = self.outbound@;
        let ghost pv = packet;
        self.outbound.push(packet);
        proof {
            lemma_queue_view_push(prev, pv);
        }
        Ok(())
    }

    /// React to one packet from the peer: a pong refreshes the pong clock, a
    /// message is handed on, a close ends the session.
    pub fn handle_incoming_packet(&mut self, packet: &EnginePacket, now: u64) -> (r: PacketEffect)
        ensures
            final(self).sid_num == old(self).sid_num,
            final(self).sid_text == old(self).sid_text,
            final(self).outbound == old(self).outbound,
            match packet.packet_id {
                EnginePacketId::Pong => r == PacketEffect::Pong && final(self).last_pong == now
                    && final(self).state == old(self).state,
                EnginePacketId::Message | EnginePacketId::MessageBinary => r == PacketEffect::Data
                    && final(self).last_pong == old(self).last_pong && final(self).state == old(
                    self,
                ).state,
                EnginePacketId::Close => r == PacketEffect::Closed && final(self).last_pong == old(
                    self,
                ).last_pong && final(self).state == SessionState::Disconnected,
                _ => r == PacketEffect::Ignored && final(self).last_pong == old(self).last_pong
                    && final(self).state == old(self).state,
            },
    {
        match packet.packet_id {
            EnginePacketId::Pong => {
                self.last_pong = now;
                PacketEffect::Pong
            },
            EnginePacketId::Message | EnginePacketId::MessageBinary => PacketEffect::Data,
            EnginePacketId::Close => {
                self.state = SessionState::Disconnected;
                PacketEffect::Closed
            },
            _ => PacketEffect::Ignored,
        }
    }

    /// Tear the session down: queue an Engine.IO `Close` while it is still
    /// connected, and end in `Disconnected`. Returns whether this call made
    /// the transition, so `on_close` fires exactly once however many times
    /// teardown is triggered.
    pub fn disconnect(&mut self) -> (fired: bool)
        ensures
            final(self).sid_num == old(self).sid_num,
            final(self).sid_text == old(self).sid_text,
            final(self).last_pong == old(self).last_pong,
            final(self).state == SessionState::Disconnected,
            fired == old(self).is_connected_spec(),
            fired ==> queue_view(final(self).outbound@) == queue_view(old(self).outbound@).push(
                (EnginePacketId::Close, Seq::<u8>::empty()),
            ),
            !fired ==> final(self).outbound == old(self).outbound,
    {
        if self.is_connected() {
            let p = EnginePacket::new(EnginePacketId::Close, Vec::new());
            let ghost pv = p;
            let ghost prev = self.outbound@;
            self.outbound.push(p);
            proof {
                lemma_queue_view_push(prev, pv);
            }
            self.state = SessionState::Disconnected;
            true
        } else {
            self.state = SessionState::Disconnected;
            false
        }
    }

    /// Drain the queued packets for the transport, in emit order.
    pub fn take_outbound(&mut self) -> (r: Vec<EnginePacket>)
        ensures
            final(self).sid_num == old(self).sid_num,
            final(self).sid_text == old(self).sid_text,
            final(self).state == old(self).state,
            final(self).last_pong == old(self).last_pong,
            final(self).outbound@.len() == 0,
            r == old(self).outbound,
    {
        let mut taken: Vec<EnginePacket> = Vec::new();
        core::mem::swap(&mut taken, &mut self.outbound);
        taken
    }
}

/// Frames queued by consecutive emits leave in emit order: after queueing
/// `a` and then `b`, the queue ends with `a` immediately before `b`.
pub proof fn lemma_emit_fifo(q: Seq<(EnginePacketId, Seq<u8>)>, a: (EnginePacketId, Seq<u8>), b: (
    EnginePacketId,
    Seq<u8>,
))
    ensures
        q.push(a).push(b).len() == q.len() + 2,
        q.push(a).push(b)[q.len() as int] == a,
        q.push(a).push(b)[q.len() as int + 1] == b,
        forall|i: int| 0 <= i < q.len() ==> q.push(a).push(b)[i] == q[i],
{
}

} // verus!
