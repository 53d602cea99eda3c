//! The Socket.IO packet codec: `<type><attachmentCount>-<namespace>,<id><data>`
//! on top of an Engine.IO message frame. The attachment count (with its
//! trailing `-`) appears only for the binary types, the namespace (with its
//! trailing `,`) only when it is not `/`, and the id only when present.

use vstd::prelude::*;

use crate::decimal::{
    dec_digits, dec_value, digit_run_end, is_digit, lemma_dec_digits_len,
    lemma_dec_value_of_digits, lemma_digit_run_end_is, scan_decimal,
};
use crate::error::Error;

verus! {

/// The Socket.IO packet types.
#[derive(Clone, Copy, Debug, PartialEq, Eq, Structural)]
pub enum PacketId {
    Connect,
    Disconnect,
    Event,
    Ack,
    ConnectError,
    BinaryEvent,
    BinaryAck,
}

/// The ASCII digit that opens the wire form of each packet type.
pub open spec fn type_digit(t: PacketId) -> u8 {
    match t {
        PacketId::Connect => 48,
        PacketId::Disconnect => 49,
        PacketId::Event => 50,
        PacketId::Ack => 51,
        PacketId::ConnectError => 52,
        PacketId::BinaryEvent => 53,
        PacketId::BinaryAck => 54,
    }
}

pub open spec fn digit_type(b: u8) -> Option<PacketId> {
    if b == 48 {
        Some(PacketId::Connect)
    } else if b == 49 {
        Some(PacketId::Disconnect)
    } else if b == 50 {
        Some(PacketId::Event)
    } else if b == 51 {
        Some(PacketId::Ack)
    } else if b == 52 {
        Some(PacketId::ConnectError)
    } else if b == 53 {
        Some(PacketId::BinaryEvent)
    } else if b == 54 {
        Some(PacketId::BinaryAck)
    } else {
        None
    }
}

/// The types that carry binary attachments, and hence an attachment count.
pub open spec fn is_binary_type(t: PacketId) -> bool {
    t is BinaryEvent || t is BinaryAck
}

/// The default namespace `/` as bytes.
pub open spec fn default_nsp() -> Seq<u8> {
    seq![47u8]
}

/// The decoded head of a packet: type, attachment count, namespace, id, data.
pub type PacketFields = (PacketId, u8, Seq<u8>, Option<int>, Option<Seq<u8>>);

/// The wire bytes of a packet head. `data` is emitted verbatim; attachments
/// travel as separate binary frames and do not appear here.
pub open spec fn spec_encode(
    t: PacketId,
    count: u8,
    nsp: Seq<u8>,
    id: Option<int>,
    data: Option<Seq<u8>>,
) -> Seq<u8> {
    seq![type_digit(t)] + (if is_binary_type(t) {
        dec_digits(count as nat) + seq![45u8]
    } else {
        Seq::<u8>::empty()
    }) + (if nsp != default_nsp() {
        nsp + seq![44u8]
    } else {
        Seq::<u8>::empty()
    }) + (match id {
        Some(n) => dec_digits(n as nat),
        None => Seq::<u8>::empty(),
    }) + (match data {
        Some(d) => d,
        None => Seq::<u8>::empty(),
    })
}

/// Parsing, stage one: the type digit and, for binary types, the attachment
/// count up to its `-`. `None` stands for `Error::InvalidPacket`.
pub open spec fn spec_decode(s: Seq<u8>) -> Option<PacketFields> {
    if s.len() == 0 {
        None
    } else {
        match digit_type(s[0]) {
            None => None,
            Some(t) => if is_binary_type(t) {
                let k = digit_run_end(s, 1);
                if k >= s.len() || s[k] != 45 {
                    None
                } else if dec_value(s.subrange(1, k)) > 255 {
                    None
                } else {
                    spec_decode_nsp(s, k + 1, t, dec_value(s.subrange(1, k)) as u8)
                }
            } else {
                spec_decode_nsp(s, 1, t, 0)
            },
        }
    }
}

/// Parsing, stage two: the namespace, present exactly when a `/` follows.
pub open spec fn spec_decode_nsp(s: Seq<u8>, pos: int, t: PacketId, count: u8) -> Option<
    PacketFields,
> {
    if pos < s.len() && s[pos] == 47 {
        let j = find_byte(s, pos, 44);
        if j == s.len() {
            None
        } else {
            spec_decode_id(s, j + 1, t, count, s.subrange(pos, j))
        }
    } else {
        spec_decode_id(s, pos, t, count, default_nsp())
    }
}

/// Parsing, stage three: the optional decimal id, then the data tail.
pub open spec fn spec_decode_id(
    s: Seq<u8>,
    pos: int,
    t: PacketId,
    count: u8,
    nsp: Seq<u8>,
) -> Option<PacketFields> {
    let k = digit_run_end(s, pos);
    if k == pos {
        Some((t, count, nsp, None, spec_data_tail(s, pos)))
    } else if dec_value(s.subrange(pos, k)) > 0x7fff_ffff {
        None
    } else {
        Some((t, count, nsp, Some(dec_value(s.subrange(pos, k)) as int), spec_data_tail(s, k)))
    }
}

pub open spec fn spec_data_tail(s: Seq<u8>, pos: int) -> Option<Seq<u8>> {
    if pos == s.len() {
        None
    } else {
        Some(s.skip(pos))
    }
}

/// Index of the first occurrence of `b` at or after `from` (or the length).
pub open spec fn find_byte(s: Seq<u8>, from: int, b: u8) -> int
    decreases s.len() - from,
{
    if from < 0 || from >= s.len() {
        s.len() as int
    } else if s[from] == b {
        from
    } else {
        find_byte(s, from + 1, b)
    }
}

pub proof fn lemma_find_byte_is(s: Seq<u8>, from: int, k: int, b: u8)
    requires
        0 <= from <= k <= s.len(),
        forall|i: int| from <= i < k ==> s[i] != b,
        k == s.len() || s[k] == b,
    ensures
        find_byte(s, from, b) == k,
    decreases k - from,
{
    if from < k {
        lemma_find_byte_is(s, from + 1, k, b);
    }
}

/// What `find_byte` finds: `b` at the index, and nothing earlier.
pub proof fn lemma_find_byte_found(s: Seq<u8>, from: int, b: u8)
    requires
        0 <= from <= s.len(),
    ensures
        from <= find_byte(s, from, b) <= s.len(),
        find_byte(s, from, b) < s.len() ==> s[find_byte(s, from, b)] == b,
        forall|j: int| from <= j < find_byte(s, from, b) ==> s[j] != b,
    decreases s.len() - from,
{
    if from < s.len() && s[from] != b {
        lemma_find_byte_found(s, from + 1, b);
    }
}

/// The head fields that the wire form can carry faithfully: the namespace is
/// `/` itself or starts with `/` and holds no comma, the id is a non-negative
/// `i32`, the data is a non-empty JSON value starting with `[` or `{`, and
/// only binary types carry a count.
pub open spec fn wf_fields(
    t: PacketId,
    count: u8,
    nsp: Seq<u8>,
    id: Option<int>,
    data: Option<Seq<u8>>,
) -> bool {
    &&& !is_binary_type(t) ==> count == 0
    &&& nsp.len() > 0
    &&& nsp[0] == 47
    &&& forall|i: int| 0 <= i < nsp.len() ==> nsp[i] != 44
    &&& match id {
        Some(n) => 0 <= n <= 0x7fff_ffff,
        None => true,
    }
    &&& match data {
        Some(d) => d.len() > 0 && (d[0] == 91 || d[0] == 123),
        None => true,
    }
}

/// Round trip: decoding an encoded packet head gives the fields back, for
/// every well-formed combination of type, count, namespace, id and data.
proof fn lemma_append_skip(a: Seq<u8>, b: Seq<u8>)
    ensures
        (a + b).skip(a.len() as int) == b,
{
    assert((a + b).skip(a.len() as int) =~= b);
}

pub proof fn lemma_packet_round_trip(
    t: PacketId,
    count: u8,
    nsp: Seq<u8>,
    id: Option<int>,
    data: Option<Seq<u8>>,
)
    requires
        wf_fields(t, count, nsp, id, data),
    ensures
        spec_decode(spec_encode(t, count, nsp, id, data)) == Some((t, count, nsp, id, data)),
{
    if is_binary_type(t) {
        lemma_round_trip_binary(t, count, nsp, id, data);
    } else {
        lemma_round_trip_text(t, count, nsp, id, data);
    }
}

proof fn lemma_round_trip_text(
    t: PacketId,
    count: u8,
    nsp: Seq<u8>,
    id: Option<int>,
    data: Option<Seq<u8>>,
)
    requires
        wf_fields(t, count, nsp, id, data),
        !is_binary_type(t),
    ensures
        spec_decode(spec_encode(t, count, nsp, id, data)) == Some((t, count, nsp, id, data)),
{
    let npart: Seq<u8> = if nsp != default_nsp() {
        nsp + seq![44u8]
    } else {
        Seq::<u8>::empty()
    };
    let ipart: Seq<u8> = match id {
        Some(n) => dec_digits(n as nat),
        None => Seq::<u8>::empty(),
    };
    let dpart: Seq<u8> = match data {
        Some(d) => d,
        None => Seq::<u8>::empty(),
    };
    let e = spec_encode(t, count, nsp, id, data);
    let head = seq![type_digit(t)];
    let tail = npart + ipart + dpart;
    assert(e =~= head + tail);
    lemma_append_skip(head, tail);
    assert(e.skip(1) == tail);
    assert(e[0] == type_digit(t));
    assert(digit_type(type_digit(t)) == Some(t));
    lemma_round_trip_nsp(e, 1, t, count, nsp, id, data, npart, ipart, dpart);
}

#[verifier::rlimit(60)]
proof fn lemma_round_trip_binary(
    t: PacketId,
    count: u8,
    nsp: Seq<u8>,
    id: Option<int>,
    data: Option<Seq<u8>>,
)
    requires
        wf_fields(t, count, nsp, id, data),
        is_binary_type(t),
    ensures
        spec_decode(spec_encode(t, count, nsp, id, data)) == Some((t, count, nsp, id, data)),
{
    let cpart: Seq<u8> = dec_digits(count as nat) + seq![45u8];
    let npart: Seq<u8> = if nsp != default_nsp() {
        nsp + seq![44u8]
    } else {
        Seq::<u8>::empty()
    };
    let ipart: Seq<u8> = match id {
        Some(n) => dec_digits(n as nat),
        None => Seq::<u8>::empty(),
    };
    let dpart: Seq<u8> = match data {
        Some(d) => d,
        None => Seq::<u8>::empty(),
    };
    let e = spec_encode(t, count, nsp, id, data);
    assert(e == seq![type_digit(t)] + cpart + npart + ipart + dpart);
    let head = seq![type_digit(t)] + cpart;
    let tail = npart + ipart + dpart;
    assert(e =~= head + tail);
    lemma_append_skip(head, tail);
    let p1 = 1 + cpart.len() as int;
    assert(e.skip(p1) == tail);
    assert(e[0] == head[0]);
    assert(e[0] == type_digit(t));
    assert(digit_type(type_digit(t)) == Some(t));

    lemma_dec_digits_len(count as nat);
    let dd = dec_digits(count as nat);
    let ddl = dd.len() as int;
    assert forall|i: int| 1 <= i < 1 + ddl implies is_digit(e[i]) by {
        assert(e[i] == head[i]);
        assert(head[i] == cpart[i - 1]);
        assert(cpart[i - 1] == dd[i - 1]);
    }
    assert(e[1 + ddl] == 45u8) by {
        assert(e[1 + ddl] == head[1 + ddl]);
        assert(head[1 + ddl] == cpart[ddl]);
    }
    assert(!is_digit(45u8));
    lemma_digit_run_end_is(e, 1, 1 + ddl);
    assert forall|i: int| 0 <= i < ddl implies e[1 + i] == dd[i] by {
        assert(e[1 + i] == head[1 + i]);
        assert(head[1 + i] == cpart[i]);
    }
    assert(e.subrange(1, 1 + ddl) =~= dd);
    lemma_dec_value_of_digits(count as nat);
    assert(dec_value(e.subrange(1, 1 + ddl)) == count as nat);
    lemma_round_trip_nsp(e, p1, t, count, nsp, id, data, npart, ipart, dpart);
    assert(p1 == 1 + ddl + 1);
}

proof fn lemma_round_trip_nsp(
    e: Seq<u8>,
    pos: int,
    t: PacketId,
    count: u8,
    nsp: Seq<u8>,
    id: Option<int>,
    data: Option<Seq<u8>>,
    npart: Seq<u8>,
    ipart: Seq<u8>,
    dpart: Seq<u8>,
)
    requires
        wf_fields(t, count, nsp, id, data),
        npart == if nsp != default_nsp() { nsp + seq![44u8] } else { Seq::<u8>::empty() },
        ipart == match id {
            Some(n) => dec_digits(n as nat),
            None => Seq::<u8>::empty(),
        },
        dpart == match data {
            Some(d) => d,
            None => Seq::<u8>::empty(),
        },
        0 <= pos <= e.len(),
        e.skip(pos) == npart + ipart + dpart,
    ensures
        spec_decode_nsp(e, pos, t, count) == Some((t, count, nsp, id, data)),
{
    let s0 = npart + ipart + dpart;
    assert(e.len() == pos + s0.len());
    if nsp != default_nsp() {
        let ln = nsp.len() as int;
        assert(e[pos] == 47) by {
            assert(e.skip(pos)[0] == e[pos]);
            assert(s0[0] == nsp[0]);
        }
        assert forall|i: int| pos <= i < pos + ln implies e[i] != 44 by {
            assert(e.skip(pos)[i - pos] == e[i]);
            assert(s0[i - pos] == nsp[i - pos]);
        }
        assert(e[pos + ln] == 44) by {
            assert(e.skip(pos)[ln] == e[pos + ln]);
            assert(s0[ln] == 44);
        }
        lemma_find_byte_is(e, pos, pos + ln, 44);
        assert forall|i: int| 0 <= i < ln implies e[pos + i] == nsp[i] by {
            assert(e.skip(pos)[i] == e[pos + i]);
            assert(s0[i] == nsp[i]);
        }
        assert(e.subrange(pos, pos + ln) =~= nsp);
        let rest = ipart + dpart;
        assert forall|i: int| 0 <= i < rest.len() implies e.skip(pos + ln + 1)[i] == rest[i] by {
            assert(e.skip(pos + ln + 1)[i] == e[pos + ln + 1 + i]);
            assert(e.skip(pos)[ln + 1 + i] == e[pos + ln + 1 + i]);
            assert(s0[ln + 1 + i] == rest[i]);
        }
        assert(e.skip(pos + ln + 1) =~= rest);
        lemma_round_trip_id(e, pos + ln + 1, t, count, nsp, id, data, ipart, dpart);
    } else {
        assert(s0 =~= ipart + dpart);
        if pos < e.len() {
            assert(e[pos] != 47) by {
                assert(e.skip(pos)[0] == e[pos]);
                if ipart.len() > 0 {
                    lemma_dec_digits_len(id->Some_0 as nat);
                    assert(s0[0] == ipart[0]);
                    assert(is_digit(ipart[0]));
                } else {
                    assert(s0[0] == dpart[0]);
                }
            }
        }
        lemma_round_trip_id(e, pos, t, count, nsp, id, data, ipart, dpart);
    }
}

proof fn lemma_round_trip_id(
    e: Seq<u8>,
    pos: int,
    t: PacketId,
    count: u8,
    nsp: Seq<u8>,
    id: Option<int>,
    data: Option<Seq<u8>>,
    ipart: Seq<u8>,
    dpart: Seq<u8>,
)
    requires
        wf_fields(t, count, nsp, id, data),
        ipart == match id {
            Some(n) => dec_digits(n as nat),
            None => Seq::<u8>::empty(),
        },
        dpart == match data {
            Some(d) => d,
            None => Seq::<u8>::empty(),
        },
        0 <= pos <= e.len(),
        e.skip(pos) == ipart + dpart,
    ensures
        spec_decode_id(e, pos, t, count, nsp) == Some((t, count, nsp, id, data)),
{
    let s0 = ipart + dpart;
    assert(e.len() == pos + s0.len());
    match id {
        Some(n) => {
            let dd = dec_digits(n as nat);
            let ddl = dd.len() as int;
            lemma_dec_digits_len(n as nat);
            assert forall|i: int| pos <= i < pos + ddl implies is_digit(e[i]) by {
                assert(e.skip(pos)[i - pos] == e[i]);
                assert(s0[i - pos] == dd[i - pos]);
            }
            if dpart.len() > 0 {
                assert(!is_digit(e[pos + ddl])) by {
                    assert(e.skip(pos)[ddl] == e[pos + ddl]);
                    assert(s0[ddl] == dpart[0]);
                }
            }
            lemma_digit_run_end_is(e, pos, pos + ddl);
            assert forall|i: int| 0 <= i < ddl implies e[pos + i] == dd[i] by {
                assert(e.skip(pos)[i] == e[pos + i]);
                assert(s0[i] == dd[i]);
            }
            assert(e.subrange(pos, pos + ddl) =~= dd);
            lemma_dec_value_of_digits(n as nat);
            assert forall|i: int| 0 <= i < dpart.len() implies e.skip(pos + ddl)[i] == dpart[i] by {
                assert(e.skip(pos + ddl)[i] == e[pos + ddl + i]);
                assert(e.skip(pos)[ddl + i] == e[pos + ddl + i]);
                assert(s0[ddl + i] == dpart[i]);
            }
            assert(e.skip(pos + ddl) =~= dpart);
            lemma_data_tail(e, pos + ddl, data, dpart);
        },
        None => {
            if pos < e.len() {
                assert(!is_digit(e[pos])) by {
                    assert(e.skip(pos)[0] == e[pos]);
                    assert(s0[0] == dpart[0]);
                }
            }
            lemma_digit_run_end_is(e, pos, pos);
            assert(e.skip(pos) =~= dpart);
            lemma_data_tail(e, pos, data, dpart);
        },
    }
}

proof fn lemma_data_tail(e: Seq<u8>, pos: int, data: Option<Seq<u8>>, dpart: Seq<u8>)
    requires
        dpart == match data {
            Some(d) => d,
            None => Seq::<u8>::empty(),
        },
        data matches Some(d) ==> d.len() > 0,
        0 <= pos <= e.len(),
        e.skip(pos) == dpart,
    ensures
        spec_data_tail(e, pos) == data,
{
    assert(e.len() == pos + dpart.len());
}


/// A Socket.IO packet. `attachments` is `None` until the binary frames that
/// follow the head have been paired with it.
#[derive(Clone, Debug, PartialEq, Eq)]
pub struct Packet {
    pub packet_type: PacketId,
    pub nsp: Vec<u8>,
    pub data: Option<Vec<u8>>,
    pub id: Option<i32>,
    pub attachment_count: u8,
    pub attachments: Option<Vec<Vec<u8>>>,
}

pub open spec fn id_view(id: Option<i32>) -> Option<int> {
    match id {
        Some(n) => Some(n as int),
        None => None,
    }
}

pub open spec fn data_view(d: Option<Vec<u8>>) -> Option<Seq<u8>> {
    match d {
        Some(v) => Some(v@),
        None => None,
    }
}

/// The attachment bodies as sequences of bytes (`None` counts as empty).
pub open spec fn atts_view(a: Option<Vec<Vec<u8>>>) -> Seq<Seq<u8>> {
    match a {
        Some(v) => v@.map_values(|x: Vec<u8>| x@),
        None => Seq::<Seq<u8>>::empty(),
    }
}

impl Packet {
    /// The head fields of this packet, as the codec specs speak of them.
    pub open spec fn head(&self) -> PacketFields {
        (
            self.packet_type,
            self.attachment_count,
            self.nsp@,
            id_view(self.id),
            data_view(self.data),
        )
    }

    /// The packet can be carried faithfully by the wire form.
    pub open spec fn wf(&self) -> bool {
        wf_fields(
            self.packet_type,
            self.attachment_count,
            self.nsp@,
            id_view(self.id),
            data_view(self.data),
        )
    }

    pub fn new(
        packet_type: PacketId,
        nsp: Vec<u8>,
        data: Option<Vec<u8>>,
        id: Option<i32>,
        attachment_count: u8,
        attachments: Option<Vec<Vec<u8>>>,
    ) -> (p: Packet)
        ensures
            p.packet_type == packet_type,
            p.nsp == nsp,
            p.data == data,
            p.id == id,
            p.attachment_count == attachment_count,
            p.attachments == attachments,
    {
        Packet { packet_type, nsp, data, id, attachment_count, attachments }
    }

    fn type_digit_byte(&self) -> (d: u8)
        ensures
            d == type_digit(self.packet_type),
    {
        match self.packet_type {
            PacketId::Connect => 48,
            PacketId::Disconnect => 49,
            PacketId::Event => 50,
            PacketId::Ack => 51,
            PacketId::ConnectError => 52,
            PacketId::BinaryEvent => 53,
            PacketId::BinaryAck => 54,
        }
    }

    /// Encode the packet head to its wire bytes.
    pub fn encode(&self) -> (v: Vec<u8>)
        requires
            self.id matches Some(n) ==> n >= 0,
        ensures
            v@ == spec_encode(
                self.packet_type,
                self.attachment_count,
                self.nsp@,
                id_view(self.id),
                data_view(self.data),
            ),
    {
        let ghost cpart: Seq<u8> = if is_binary_type(self.packet_type) {
            dec_digits(self.attachment_count as nat) + seq![45u8]
        } else {
            Seq::<u8>::empty()
        };
        let ghost npart: Seq<u8> = if self.nsp@ != default_nsp() {
            self.nsp@ + seq![44u8]
        } else {
            Seq::<u8>::empty()
        };
        let ghost ipart: Seq<u8> = match id_view(self.id) {
            Some(n) => dec_digits(n as nat),
            None => Seq::<u8>::empty(),
        };
        let mut v: Vec<u8> = Vec::new();
        v.push(self.type_digit_byte());
        if matches!(self.packet_type, PacketId::BinaryEvent | PacketId::BinaryAck) {
            crate::decimal::format_u64(&mut v, self.attachment_count as u64);
            v.push(45);
        }
        proof {
            assert(v@ =~= seq![type_digit(self.packet_type)] + cpart);
        }
        if !nsp_is_default(&self.nsp) {
            v.extend_from_slice(self.nsp.as_slice());
            v.push(44);
        }
        proof {
            assert(v@ =~= seq![type_digit(self.packet_type)] + cpart + npart);
        }
        if let Some(n) = self.id {
            crate::decimal::format_u64(&mut v, n as u64);
        }
        proof {
            assert(v@ =~= seq![type_digit(self.packet_type)] + cpart + npart + ipart);
        }
        if let Some(d) = &self.data {
            v.extend_from_slice(d.as_slice());
        }
        proof {
            assert(v@ =~= spec_encode(
                self.packet_type,
                self.attachment_count,
                self.nsp@,
                id_view(self.id),
                data_view(self.data),
            ));
        }
        v
    }

    /// Decode a packet head from wire bytes; attachments stay unpaired. The
    /// only failure is `InvalidPacket`, exactly where `spec_decode` gives
    /// `None`.
    pub fn decode(buf: &[u8]) -> (r: Result<Packet, Error>)
        ensures
            match spec_decode(buf@) {
                Some(f) => r matches Ok(p) && p.packet_type == f.0 && p.attachment_count == f.1
                    && p.nsp@ == f.2 && id_view(p.id) == f.3 && data_view(p.data) == f.4
                    && p.attachments is None,
                None => r matches Err(e) && e == Error::InvalidPacket,
            },
    {
        if buf.len() == 0 {
            return Err(Error::InvalidPacket);
        }
        let b0 = *vstd::slice::slice_index_get(buf, 0);
        if b0 < 48 || b0 > 54 {
            return Err(Error::InvalidPacket);
        }
        let t = match b0 {
            48 => PacketId::Connect,
            49 => PacketId::Disconnect,
            50 => PacketId::Event,
            51 => PacketId::Ack,
            52 => PacketId::ConnectError,
            53 => PacketId::BinaryEvent,
            _ => PacketId::BinaryAck,
        };
        let mut pos: usize = 1;
        let mut count: u8 = 0;
        if matches!(t, PacketId::BinaryEvent | PacketId::BinaryAck) {
            let (end, val) = scan_decimal(buf, 1, 255);
            if end == buf.len() {
                return Err(Error::InvalidPacket);
            }
            if *vstd::slice::slice_index_get(buf, end) != 45 {
                return Err(Error::InvalidPacket);
            }
            match val {
                None => {
                    return Err(Error::InvalidPacket);
                },
                Some(c) => {
                    count = c as u8;
                },
            }
            pos = end + 1;
        }
        let nsp: Vec<u8>;
        if pos < buf.len() && *vstd::slice::slice_index_get(buf, pos) == 47 {
            let j = find_byte_in(buf, pos, 44);
            if j == buf.len() {
                return Err(Error::InvalidPacket);
            }
            nsp = vstd::slice::slice_to_vec(vstd::slice::slice_subrange(buf, pos, j));
            pos = j + 1;
        } else {
            nsp = make_default_nsp();
        }
        let id: Option<i32>;
        let (end2, val2) = scan_decimal(buf, pos, 0x7fff_ffff);
        if end2 == pos {
            id = None;
        } else {
            match val2 {
                None => {
                    return Err(Error::InvalidPacket);
                },
                Some(n) => {
                    id = Some(n as i32);
                },
            }
            pos = end2;
        }
        let data: Option<Vec<u8>> = if pos == buf.len() {
            None
        } else {
            let d = vstd::slice::slice_to_vec(vstd::slice::slice_subrange(buf, pos, buf.len()));
            proof {
                assert(d@ =~= buf@.skip(pos as int));
            }
            Some(d)
        };
        Ok(Packet { packet_type: t, nsp, data, id, attachment_count: count, attachments: None })
    }
}

/// `true` exactly when the namespace is the default `/`.
fn nsp_is_default(nsp: &Vec<u8>) -> (r: bool)
    ensures
        r == (nsp@ == default_nsp()),
{
    let r = nsp.len() == 1 && *vstd::slice::slice_index_get(nsp.as_slice(), 0) == 47;
    proof {
        if r {
            assert(nsp@ =~= default_nsp());
        }
    }
    r
}

/// A fresh default namespace value.
fn make_default_nsp() -> (v: Vec<u8>)
    ensures
        v@ == default_nsp(),
{
    let mut v: Vec<u8> = Vec::new();
    v.push(47);
    proof {
        assert(v@ =~= default_nsp());
    }
    v
}

/// Find the first occurrence of `b` in `s` at or after `from`.
pub(crate) fn find_byte_in(s: &[u8], from: usize, b: u8) -> (r: usize)
    requires
        from <= s@.len(),
    ensures
        from <= r <= s@.len(),
        r == find_byte(s@, from as int, b),
{
    let mut i: usize = from;
    loop
        invariant
            from <= i <= s@.len(),
            forall|k: int| from <= k < i ==> s@[k] != b,
        decreases s@.len() - i,
    {
        if i == s.len() {
            proof {
                lemma_find_byte_is(s@, from as int, i as int, b);
            }
            return i;
        }
        if *vstd::slice::slice_index_get(s, i) == b {
            proof {
                lemma_find_byte_is(s@, from as int, i as int, b);
            }
            return i;
        }
        i = i + 1;
    }
}


} // verus!
