//! The Socket.IO socket: packet building for emits and acks, transmission as
//! Engine.IO frames, attachment pairing on receive, and the connected-state
//! machine. The transport itself lives outside; outbound packets queue here
//! in emit order and the I/O layer drains them to the wire in that order.

use vstd::prelude::*;

use crate::engine::{id_number, EnginePacket, EnginePacketId};
use crate::error::Error;
use crate::packet::{data_view, id_view, spec_decode, spec_encode, Packet, PacketId};
use crate::payload::{
    append_payload_item, atts_bytes, spec_attachments_from, spec_data_bytes, spec_payload_item,
    spec_payloads_from, Event, Payload,
};

verus! {

/// A namespace the wire form can carry: `/` itself or `/`-prefixed with no
/// comma.
pub open spec fn valid_nsp(nsp: Seq<u8>) -> bool {
    &&& nsp.len() > 0
    &&& nsp[0] == 47
    &&& forall|i: int| 0 <= i < nsp.len() ==> nsp[i] != 44
}

/// An Engine.IO packet reduced to plain values: its id and its bytes.
pub open spec fn ep_view(p: EnginePacket) -> (EnginePacketId, Seq<u8>) {
    (p.packet_id, p.data@)
}

/// An outbound queue reduced to plain values, in queue order.
pub open spec fn queue_view(q: Seq<EnginePacket>) -> Seq<(EnginePacketId, Seq<u8>)> {
    q.map_values(|p: EnginePacket| ep_view(p))
}

/// Mapping a queue commutes with appending one packet.
pub proof fn lemma_queue_view_push(q: Seq<EnginePacket>, p: EnginePacket)
    ensures
        queue_view(q.push(p)) == queue_view(q).push(ep_view(p)),
{
    assert(queue_view(q.push(p)) =~= queue_view(q).push(ep_view(p)));
}

/// The binary frames that carry a list of attachment bodies, in order.
pub open spec fn att_frames(atts: Seq<Seq<u8>>) -> Seq<(EnginePacketId, Seq<u8>)> {
    atts.map_values(|a: Seq<u8>| (EnginePacketId::MessageBinary, a))
}

/// The Engine.IO packets that carry one Socket.IO packet: a message frame
/// with the encoded head, then one binary frame per attachment, in order.
pub open spec fn spec_send_frames(head: Seq<u8>, atts: Seq<Seq<u8>>) -> Seq<
    (EnginePacketId, Seq<u8>),
> {
    seq![(EnginePacketId::Message, head)] + att_frames(atts)
}

/// Mapping attachment bodies commutes with appending one body.
pub proof fn lemma_att_frames_push(atts: Seq<Seq<u8>>, a: Seq<u8>)
    ensures
        att_frames(atts.push(a)) == att_frames(atts).push((EnginePacketId::MessageBinary, a)),
{
    assert(att_frames(atts.push(a)) =~= att_frames(atts).push(
        (EnginePacketId::MessageBinary, a),
    ));
}

/// Handles communication in the Socket.IO protocol over an Engine.IO
/// transport whose I/O runs outside this crate.
pub struct Socket {
    /// Whether the Engine.IO transport is connected.
    pub engine_connected: bool,
    /// Whether the Socket.IO layer is connected.
    pub connected: bool,
    /// Engine.IO packets queued for the transport, in emit order.
    pub outbound: Vec<EnginePacket>,
}

impl Socket {
    /// A fresh socket: nothing connected, nothing queued.
    pub fn new() -> (s: Socket)
        ensures
            !s.engine_connected,
            !s.connected,
            s.outbound@.len() == 0,
    {
        Socket { engine_connected: false, connected: false, outbound: Vec::new() }
    }

    /// The transport has connected and the opening request succeeded: mark
    /// the socket connected.
    pub fn connect(&mut self)
        ensures
            final(self).engine_connected,
            final(self).connected,
            final(self).outbound == old(self).outbound,
    {
        self.engine_connected = true;
        self.connected = true;
    }

    /// Disconnect: queue an Engine.IO `Close` while the transport is up, and
    /// drop the connected flags.
    pub fn disconnect(&mut self)
        ensures
            !final(self).engine_connected,
            !final(self).connected,
            old(self).engine_connected ==> queue_view(final(self).outbound@) == queue_view(
                old(self).outbound@,
            ).push((EnginePacketId::Close, Seq::<u8>::empty())),
            !old(self).engine_connected ==> final(self).outbound == old(self).outbound,
    {
        if self.engine_connected {
            let p = EnginePacket::new(EnginePacketId::Close, Vec::new());
            let ghost pv = p;
            let ghost prev = self.outbound@;
            self.outbound.push(p);
            proof {
                lemma_queue_view_push(prev, pv);
            }
        }
        self.engine_connected = false;
        self.connected = false;
    }

    pub open spec fn is_connected(&self) -> bool {
        self.engine_connected && self.connected
    }

    /// Whether the Engine.IO transport is connected.
    pub fn is_engineio_connected(&self) -> (r: bool)
        ensures
            r == self.engine_connected,
    {
        self.engine_connected
    }

    /// Send a Socket.IO packet: one message frame with the encoded head,
    /// then one binary frame per attachment, queued in that order. Fails
    /// with `IllegalActionBeforeOpen`, changing nothing, exactly when the
    /// socket is not connected.
    pub fn send(&mut self, packet: Packet) -> (r: Result<(), Error>)
        requires
            packet.id matches Some(n) ==> n >= 0,
        ensures
            final(self).engine_connected == old(self).engine_connected,
            final(self).connected == old(self).connected,
            !old(self).is_connected() ==> (r matches Err(e) && e == Error::IllegalActionBeforeOpen
                && final(self).outbound == old(self).outbound),
            old(self).is_connected() ==> r is Ok && queue_view(final(self).outbound@)
                == queue_view(old(self).outbound@) + spec_send_frames(
                spec_encode(
                    packet.packet_type,
                    packet.attachment_count,
                    packet.nsp@,
                    id_view(packet.id),
                    data_view(packet.data),
                ),
                atts_bytes(match packet.attachments {
                    Some(a) => a@,
                    None => Seq::<Vec<u8>>::empty(),
                }),
            ),
    {
        if !self.is_engineio_connected() || !self.connected {
            return Err(Error::IllegalActionBeforeOpen);
        }
        let head = packet.encode();
        let hp = EnginePacket::new(EnginePacketId::Message, head);
        let ghost hpv = hp;
        let ghost prev0 = self.outbound@;
        self.outbound.push(hp);
        let ghost mid = queue_view(self.outbound@);
        let ghost headv = spec_encode(
            packet.packet_type,
            packet.attachment_count,
            packet.nsp@,
            id_view(packet.id),
            data_view(packet.data),
        );
        proof {
            lemma_queue_view_push(prev0, hpv);
            assert(mid == queue_view(old(self).outbound@).push((EnginePacketId::Message, headv)));
        }
        if let Some(attachments) = packet.attachments {
            let n = attachments.len();
            let mut i: usize = 0;
            while i < n
                invariant
                    n == attachments@.len(),
                    0 <= i <= n,
                    self.engine_connected == old(self).engine_connected,
                    self.connected == old(self).connected,
                    queue_view(self.outbound@) =~= mid + att_frames(
                        atts_bytes(attachments@).take(i as int),
                    ),
                decreases n - i,
            {
                let a = attachments[i].clone();
                let p = EnginePacket::new(EnginePacketId::MessageBinary, a);
                let ghost pv = p;
                let ghost prev = self.outbound@;
                self.outbound.push(p);
                proof {
                    lemma_queue_view_push(prev, pv);
                    assert(ep_view(pv) == (EnginePacketId::MessageBinary, attachments@[i as int]@));
                    assert(atts_bytes(attachments@).take(i + 1) =~= atts_bytes(
                        attachments@,
                    ).take(i as int).push(attachments@[i as int]@));
                    lemma_att_frames_push(
                        atts_bytes(attachments@).take(i as int),
                        attachments@[i as int]@,
                    );
                    assert(queue_view(self.outbound@) =~= mid + att_frames(
                        atts_bytes(attachments@).take(i + 1),
                    ));
                }
                i = i + 1;
            }
            proof {
                assert(atts_bytes(attachments@).take(n as int) =~= atts_bytes(attachments@));
                assert(queue_view(self.outbound@) =~= queue_view(old(self).outbound@)
                    + spec_send_frames(headv, atts_bytes(attachments@)));
            }
        } else {
            proof {
                assert(queue_view(self.outbound@) =~= queue_view(old(self).outbound@)
                    + spec_send_frames(headv, atts_bytes(Seq::<Vec<u8>>::empty())));
            }
        }
        Ok(())
    }

    /// Emit one payload to an event, as `emit_multi` with a single element.
    pub fn emit(&mut self, nsp: &[u8], event: Event, data: Payload) -> (r: Result<(), Error>)
        requires
            valid_nsp(nsp@),
        ensures
            final(self).engine_connected == old(self).engine_connected,
            final(self).connected == old(self).connected,
            !old(self).is_connected() ==> (r matches Err(e) && e == Error::IllegalActionBeforeOpen
                && final(self).outbound == old(self).outbound),
            old(self).is_connected() ==> r is Ok && queue_view(final(self).outbound@)
                == queue_view(old(self).outbound@) + spec_send_frames(
                spec_encode(
                    event_packet_type(seq![data]),
                    spec_attachments_from(seq![data], 0).len() as u8,
                    nsp@,
                    None,
                    Some(spec_data_bytes(Some(event), seq![data])),
                ),
                spec_attachments_from(seq![data], 0),
            ),
    {
        let mut v: Vec<Payload> = Vec::new();
        v.push(data);
        let ghost dv = v@;
        proof {
            assert(dv =~= seq![data]);
        }
        self.emit_multi(nsp, event, v)
    }

    /// Build the event packet for the payloads and send it: the message
    /// frame with the encoded head, then the binary payloads as attachment
    /// frames, queued in emit order.
    pub fn emit_multi(&mut self, nsp: &[u8], event: Event, data: Vec<Payload>) -> (r: Result<
        (),
        Error,
    >)
        requires
            valid_nsp(nsp@),
            data@.len() <= 255,
        ensures
            final(self).engine_connected == old(self).engine_connected,
            final(self).connected == old(self).connected,
            !old(self).is_connected() ==> (r matches Err(e) && e == Error::IllegalActionBeforeOpen
                && final(self).outbound == old(self).outbound),
            old(self).is_connected() ==> r is Ok && queue_view(final(self).outbound@)
                == queue_view(old(self).outbound@) + spec_send_frames(
                spec_encode(
                    event_packet_type(data@),
                    spec_attachments_from(data@, 0).len() as u8,
                    nsp@,
                    None,
                    Some(spec_data_bytes(Some(event), data@)),
                ),
                spec_attachments_from(data@, 0),
            ),
    {
        let packet = Self::build_packet_for_payloads(data, Some(event), nsp, None, false);
        match packet {
            Ok(p) => self.send(p),
            Err(e) => Err(e),
        }
    }

    /// The packet for a list of payloads: an event or an ack, binary exactly
    /// when some payload is binary, with the JSON data array and the
    /// attachment list the payload encoding produces.
    pub fn build_packet_for_payloads(
        payloads: Vec<Payload>,
        event: Option<Event>,
        nsp: &[u8],
        id: Option<i32>,
        is_ack: bool,
    ) -> (r: Result<Packet, Error>)
        requires
            valid_nsp(nsp@),
            payloads@.len() <= 255,
            id matches Some(n) ==> n >= 0,
        ensures
            r matches Ok(p) && {
                let atts = spec_attachments_from(payloads@, 0);
                &&& p.packet_type == (if atts.len() == 0 {
                    if is_ack {
                        PacketId::Ack
                    } else {
                        PacketId::Event
                    }
                } else {
                    if is_ack {
                        PacketId::BinaryAck
                    } else {
                        PacketId::BinaryEvent
                    }
                })
                &&& p.nsp@ == nsp@
                &&& data_view(p.data) == Some(spec_data_bytes(event, payloads@))
                &&& p.id == id
                &&& p.attachment_count == atts.len()
                &&& atts_bytes(match p.attachments {
                    Some(a) => a@,
                    None => Seq::<Vec<u8>>::empty(),
                }) == atts
                &&& p.wf()
            },
    {
        let (data, attachments) = Self::encode_data(event, &payloads);
        proof {
            lemma_attachments_bound(payloads@, 0);
        }
        let packet_type = if attachments.len() == 0 {
            if is_ack {
                PacketId::Ack
            } else {
                PacketId::Event
            }
        } else {
            if is_ack {
                PacketId::BinaryAck
            } else {
                PacketId::BinaryEvent
            }
        };
        let count = attachments.len() as u8;
        Ok(Packet::new(
            packet_type,
            vstd::slice::slice_to_vec(nsp),
            Some(data),
            id,
            count,
            Some(attachments),
        ))
    }

    /// The JSON data array for an event and its payloads, together with the
    /// attachment bodies the binary payloads contribute.
    pub fn encode_data(event: Option<Event>, payloads: &Vec<Payload>) -> (r: (
        Vec<u8>,
        Vec<Vec<u8>>,
    ))
        ensures
            r.0@ == spec_data_bytes(event, payloads@),
            atts_bytes(r.1@) == spec_attachments_from(payloads@, 0),
    {
        let mut attachments: Vec<Vec<u8>> = Vec::new();
        let mut data: Vec<u8> = Vec::new();
        data.push(91);
        if let Some(ev) = &event {
            data.push(34);
            data.extend_from_slice(ev.0.as_slice());
            data.push(34);
            if payloads.len() > 0 {
                data.push(44);
            }
        }
        let ghost before = data@;
        Self::encode_payloads(&mut data, payloads, &mut attachments);
        data.push(93);
        proof {
            assert(data@ =~= before + spec_payloads_from(payloads@, 0, 0) + seq![93u8]);
            assert(data@ =~= spec_data_bytes(event, payloads@));
        }
        (data, attachments)
    }

    /// Append the comma-joined payload embeddings to `data`, pushing each
    /// binary body onto `attachments` at the index its placeholder names.
    pub fn encode_payloads(
        data: &mut Vec<u8>,
        payloads: &Vec<Payload>,
        attachments: &mut Vec<Vec<u8>>,
    )
        ensures
            final(data)@ == old(data)@ + spec_payloads_from(
                payloads@,
                0,
                old(attachments)@.len() as nat,
            ),
            atts_bytes(final(attachments)@) == atts_bytes(old(attachments)@)
                + spec_attachments_from(payloads@, 0),
    {
        let n = payloads.len();
        let mut i: usize = 0;
        while i < n
            invariant
                n == payloads@.len(),
                0 <= i <= n,
                data@ + spec_payloads_from(payloads@, i as int, atts_bytes(attachments@).len())
                    =~= old(data)@ + spec_payloads_from(
                    payloads@,
                    0,
                    old(attachments)@.len() as nat,
                ),
                atts_bytes(attachments@) + spec_attachments_from(payloads@, i as int)
                    =~= atts_bytes(old(attachments)@) + spec_attachments_from(payloads@, 0),
            decreases n - i,
        {
            let ghost data_in = data@;
            let ghost atts_in = atts_bytes(attachments@);
            append_payload_item(data, attachments, &payloads[i]);
            if i < n - 1 {
                data.push(44);
                proof {
                    assert(data@ =~= data_in + (spec_payload_item(
                        payloads@[i as int],
                        atts_in.len(),
                    ) + seq![44u8]));
                }
            }
            proof {
                lemma_payload_step(payloads@, i as int, atts_in.len(), data_in, data@);
                assert(atts_bytes(attachments@) + spec_attachments_from(payloads@, i + 1)
                    =~= atts_in + spec_attachments_from(payloads@, i as int));
            }
            i = i + 1;
        }
    }
}

/// One loop step of the payload emitter keeps the join equation.
proof fn lemma_payload_step(ps: Seq<Payload>, i: int, k: nat, data_in: Seq<u8>, data_out: Seq<u8>)
    requires
        0 <= i < ps.len(),
        data_out == if i < ps.len() - 1 {
            data_in + (spec_payload_item(ps[i], k) + seq![44u8])
        } else {
            data_in + spec_payload_item(ps[i], k)
        },
    ensures
        data_out + spec_payloads_from(
            ps,
            i + 1,
            if ps[i] is Binary {
                (k + 1) as nat
            } else {
                k
            },
        ) == data_in + spec_payloads_from(ps, i, k),
{
    let k2: nat = if ps[i] is Binary {
        (k + 1) as nat
    } else {
        k
    };
    if i < ps.len() - 1 {
        assert(spec_payloads_from(ps, i, k) == spec_payload_item(ps[i], k) + seq![44u8]
            + spec_payloads_from(ps, i + 1, k2));
        assert(data_out + spec_payloads_from(ps, i + 1, k2) =~= data_in + spec_payloads_from(
            ps,
            i,
            k,
        ));
    } else {
        assert(spec_payloads_from(ps, i + 1, k2) =~= Seq::<u8>::empty());
        assert(data_out + spec_payloads_from(ps, i + 1, k2) =~= data_in + spec_payloads_from(
            ps,
            i,
            k,
        ));
    }
}

/// No payload list contributes more attachments than it has payloads.
proof fn lemma_attachments_bound(ps: Seq<Payload>, i: int)
    requires
        0 <= i <= ps.len(),
    ensures
        spec_attachments_from(ps, i).len() <= ps.len() - i,
    decreases ps.len() - i,
{
    if i < ps.len() {
        lemma_attachments_bound(ps, i + 1);
    }
}


/// The bodies of a list of frames, in order.
pub open spec fn frame_bodies(frames: Seq<(EnginePacketId, Seq<u8>)>) -> Seq<Seq<u8>> {
    frames.map_values(|f: (EnginePacketId, Seq<u8>)| f.1)
}

/// The packet type an event with these payloads gets: binary exactly when
/// some payload is binary.
pub open spec fn event_packet_type(ps: Seq<Payload>) -> PacketId {
    if spec_attachments_from(ps, 0).len() == 0 {
        PacketId::Event
    } else {
        PacketId::BinaryEvent
    }
}

/// The connected flag after a packet of type `t` arrives.
pub open spec fn connected_after(t: PacketId, was: bool) -> bool {
    match t {
        PacketId::Connect => true,
        PacketId::ConnectError => false,
        PacketId::Disconnect => false,
        _ => was,
    }
}

/// An id a message-bearing frame may carry while attachments are awaited.
pub open spec fn is_msg(id: EnginePacketId) -> bool {
    id is Message || id is MessageBinary
}

/// The first index below `n` (and in range) whose frame is not a message,
/// scanning from `i`; `min(n, frames.len())` when there is none.
pub open spec fn first_bad_from(frames: Seq<(EnginePacketId, Seq<u8>)>, n: int, i: int) -> int
    decreases frames.len() - i,
{
    if i < 0 || i >= n || i >= frames.len() {
        i
    } else if !is_msg(frames[i].0) {
        i
    } else {
        first_bad_from(frames, n, i + 1)
    }
}

/// What attachment pairing yields for a packet that expects `n` bodies,
/// given the following frames: the error of the first offending frame, or
/// `IncompletePacket` when the stream ends early, or the bodies in order.
pub open spec fn spec_collect(n: int, frames: Seq<(EnginePacketId, Seq<u8>)>) -> Result<
    Seq<Seq<u8>>,
    Error,
> {
    let m = first_bad_from(frames, n, 0);
    if m < n && m < frames.len() {
        Err(Error::InvalidAttachmentPacketType(id_number(frames[m].0)))
    } else if frames.len() < n {
        Err(Error::IncompletePacket)
    } else {
        Ok(frame_bodies(frames.take(n)))
    }
}

/// What decoding one message frame and pairing its attachments yields: the
/// head fields, and the attachment bodies when the head announced any.
pub open spec fn spec_handle(
    data: Seq<u8>,
    following: Seq<(EnginePacketId, Seq<u8>)>,
) -> Result<(crate::packet::PacketFields, Option<Seq<Seq<u8>>>), Error> {
    match spec_decode(data) {
        None => Err(Error::InvalidPacket),
        Some(f) => if f.1 == 0 {
            Ok((f, None))
        } else {
            match spec_collect(f.1 as int, following) {
                Err(e) => Err(e),
                Ok(atts) => Ok((f, Some(atts))),
            }
        },
    }
}

/// A returned packet carries exactly the decoded head fields and bodies.
pub open spec fn packet_matches(
    p: Packet,
    f: crate::packet::PacketFields,
    atts: Option<Seq<Seq<u8>>>,
) -> bool {
    &&& p.packet_type == f.0
    &&& p.attachment_count == f.1
    &&& p.nsp@ == f.2
    &&& id_view(p.id) == f.3
    &&& data_view(p.data) == f.4
    &&& match atts {
        None => p.attachments is None,
        Some(a) => p.attachments matches Some(v) && atts_bytes(v@) == a,
    }
}

proof fn lemma_first_bad_is(frames: Seq<(EnginePacketId, Seq<u8>)>, n: int, i: int, k: int)
    requires
        0 <= i <= k,
        k <= n,
        k <= frames.len(),
        forall|j: int| i <= j < k ==> is_msg(#[trigger] frames[j].0),
        k == n || k == frames.len() || !is_msg(frames[k].0),
    ensures
        first_bad_from(frames, n, i) == k,
    decreases k - i,
{
    if i < k {
        lemma_first_bad_is(frames, n, i + 1, k);
    }
}

impl Socket {
    /// Decode one message-bearing Engine.IO packet into a Socket.IO packet,
    /// pairing its binary attachments from the frames that follow it.
    pub fn handle_engineio_packet(packet: &EnginePacket, following: &Vec<EnginePacket>) -> (r:
        Result<Packet, Error>)
        ensures
            match spec_handle(packet.data@, queue_view(following@)) {
                Err(e) => r == Err::<Packet, Error>(e),
                Ok(d) => r matches Ok(p) && packet_matches(p, d.0, d.1),
            },
    {
        let decoded = Packet::decode(packet.data.as_slice());
        let mut socket_packet = match decoded {
            Ok(p) => p,
            Err(e) => {
                return Err(e);
            },
        };
        if socket_packet.attachment_count > 0 {
            let n = socket_packet.attachment_count as usize;
            let ghost fv = queue_view(following@);
            let mut attachments: Vec<Vec<u8>> = Vec::new();
            let mut i: usize = 0;
            while i < n
                invariant
                    n <= 255,
                    0 < n,
                    n == socket_packet.attachment_count as usize,
                    socket_packet.attachments is None,
                    spec_decode(packet.data@) == Some(
                        (
                            socket_packet.packet_type,
                            socket_packet.attachment_count,
                            socket_packet.nsp@,
                            id_view(socket_packet.id),
                            data_view(socket_packet.data),
                        ),
                    ),
                    0 <= i <= n,
                    i <= following@.len(),
                    fv == queue_view(following@),
                    forall|j: int| 0 <= j < i ==> is_msg(#[trigger] fv[j].0),
                    atts_bytes(attachments@) =~= frame_bodies(fv.take(i as int)),
                decreases n - i,
            {
                if i >= following.len() {
                    proof {
                        lemma_first_bad_is(fv, n as int, 0, i as int);
                        assert(fv.len() == following@.len());
                    }
                    return Err(Error::IncompletePacket);
                }
                let next = &following[i];
                proof {
                    assert(fv[i as int] == ep_view(following@[i as int]));
                }
                match next.packet_id {
                    EnginePacketId::Message | EnginePacketId::MessageBinary => {
                        let ghost prev_atts = attachments@;
                        attachments.push(next.data.clone());
                        proof {
                            crate::payload::lemma_atts_bytes_push(prev_atts, next.data);
                            assert(fv[i as int] == ep_view(following@[i as int]));
                            assert(fv.take(i + 1) =~= fv.take(i as int).push(fv[i as int]));
                            assert(frame_bodies(fv.take(i + 1)) =~= frame_bodies(
                                fv.take(i as int),
                            ).push(fv[i as int].1));
                            assert(atts_bytes(attachments@) =~= frame_bodies(fv.take(i + 1)));
                        }
                    },
                    _ => {
                        proof {
                            lemma_first_bad_is(fv, n as int, 0, i as int);
                            assert(fv[i as int].0 == following@[i as int].packet_id);
                        }
                        return Err(Error::InvalidAttachmentPacketType(next.packet_id.to_u8()));
                    },
                }
                i = i + 1;
            }
            proof {
                lemma_first_bad_is(fv, n as int, 0, n as int);
                assert(fv.len() == following@.len());
            }
            socket_packet.attachments = Some(attachments);
        }
        Ok(socket_packet)
    }

    /// Track the connection state a Connect, ConnectError or Disconnect
    /// packet announces; every other type leaves it alone.
    pub fn handle_socketio_packet(&mut self, socket_packet: &Packet)
        ensures
            final(self).engine_connected == old(self).engine_connected,
            final(self).outbound == old(self).outbound,
            final(self).connected == match socket_packet.packet_type {
                PacketId::Connect => true,
                PacketId::ConnectError => false,
                PacketId::Disconnect => false,
                _ => old(self).connected,
            },
    {
        match socket_packet.packet_type {
            PacketId::Connect => {
                self.connected = true;
            },
            PacketId::ConnectError => {
                self.connected = false;
            },
            PacketId::Disconnect => {
                self.connected = false;
            },
            _ => {},
        }
    }

    /// One step of the receive loop: skip frames that carry no message,
    /// decode a message with its attachments, and track the state change it
    /// announces. The transport reads the frames; this decides.
    pub fn handle_incoming(&mut self, packet: &EnginePacket, following: &Vec<EnginePacket>) -> (r:
        Result<Option<Packet>, Error>)
        ensures
            final(self).engine_connected == old(self).engine_connected,
            final(self).outbound == old(self).outbound,
            !is_msg(packet.packet_id) ==> (r matches Ok(p) && p is None && final(self).connected
                == old(self).connected),
            is_msg(packet.packet_id) ==> match spec_handle(
                packet.data@,
                queue_view(following@),
            ) {
                Err(e) => r == Err::<Option<Packet>, Error>(e) && final(self).connected == old(
                    self,
                ).connected,
                Ok(d) => (r matches Ok(p) && p matches Some(q) && packet_matches(q, d.0, d.1))
                    && final(self).connected == connected_after(d.0.0, old(self).connected),
            },
    {
        match packet.packet_id {
            EnginePacketId::Message | EnginePacketId::MessageBinary => {
                let socket_packet = match Self::handle_engineio_packet(packet, following) {
                    Ok(p) => p,
                    Err(e) => {
                        return Err(e);
                    },
                };
                self.handle_socketio_packet(&socket_packet);
                Ok(Some(socket_packet))
            },
            _ => Ok(None),
        }
    }
}

/// Round trip of a full packet: the head that `spec_encode` writes decodes
/// back to the same fields, and pairing the binary frames that carry
/// `atts` restores exactly `atts`, for every well-formed combination.
pub proof fn lemma_socket_round_trip(
    t: PacketId,
    count: u8,
    nsp: Seq<u8>,
    id: Option<int>,
    data: Option<Seq<u8>>,
    atts: Seq<Seq<u8>>,
)
    requires
        crate::packet::wf_fields(t, count, nsp, id, data),
        atts.len() == count as int,
    ensures
        spec_decode(spec_encode(t, count, nsp, id, data)) == Some((t, count, nsp, id, data)),
        spec_collect(count as int, att_frames(atts)) == Ok::<Seq<Seq<u8>>, Error>(atts),
{
    crate::packet::lemma_packet_round_trip(t, count, nsp, id, data);
    let frames = att_frames(atts);
    assert(frames.len() == atts.len());
    assert(forall|j: int| 0 <= j < frames.len() ==> is_msg(#[trigger] frames[j].0));
    lemma_first_bad_is(frames, count as int, 0, count as int);
    assert(frame_bodies(frames.take(count as int)) =~= atts);
}

} // verus!
