//! Payload values carried inside a Socket.IO data array, and their JSON
//! embedding: numbers inline, strings inline when they already are JSON and
//! quoted otherwise, binaries as `{"_placeholder":true,"num":K}` with the
//! bytes appended to the attachment list at index `K`.

use vstd::prelude::*;

use crate::decimal::{dec_digits, format_u64};

verus! {

/// The attachment list as sequences of bytes.
pub open spec fn atts_bytes(a: Seq<Vec<u8>>) -> Seq<Seq<u8>> {
    a.map_values(|x: Vec<u8>| x@)
}

/// Viewing an attachment list commutes with appending one body.
pub proof fn lemma_atts_bytes_push(a: Seq<Vec<u8>>, x: Vec<u8>)
    ensures
        atts_bytes(a.push(x)) == atts_bytes(a).push(x@),
{
    assert(atts_bytes(a.push(x)) =~= atts_bytes(a).push(x@));
}

/// A value in a packet's data array.
#[derive(Clone, Debug, PartialEq, Eq)]
pub enum Payload {
    /// UTF-8 text: emitted inline when it parses as JSON, quoted otherwise.
    String(Vec<u8>),
    /// A number, emitted as its decimal.
    Number(i64),
    /// Binary bytes: replaced by a placeholder and sent as an attachment.
    Binary(Vec<u8>),
}

/// An event name, emitted as the quoted first element of the data array.
#[derive(Clone, Debug, PartialEq, Eq)]
pub struct Event(pub Vec<u8>);

/// Whether the bytes parse as a JSON value. The JSON grammar is decided by
/// the serializer; the emitter only branches on the answer.
pub uninterp spec fn json_accepts(s: Seq<u8>) -> bool;

/// Relies on `serde_json::from_slice::<Value>`: whether the bytes parse as a
/// JSON value is a function of the bytes alone.
#[verifier::external_body]
fn is_json_value(s: &Vec<u8>) -> (r: bool)
    ensures
        r == json_accepts(s@),
{
    serde_json::from_slice::<serde_json::Value>(s).is_ok()
}

/// The decimal of `n`, with a leading `-` when negative.
pub open spec fn spec_i64_dec(n: int) -> Seq<u8> {
    if n < 0 {
        seq![45u8] + dec_digits((-n) as nat)
    } else {
        dec_digits(n as nat)
    }
}

/// The bytes of `{"_placeholder":true,"num":` — everything of the
/// placeholder object before the attachment index.
pub open spec fn placeholder_prefix() -> Seq<u8> {
    seq![
        123u8, 34, 95, 112, 108, 97, 99, 101, 104, 111, 108, 100, 101, 114, 34, 58, 116, 114,
        117, 101, 44, 34, 110, 117, 109, 34, 58,
    ]
}

/// The JSON embedding of one payload, with `k` the attachment index a binary
/// would take.
pub open spec fn spec_payload_item(p: Payload, k: nat) -> Seq<u8> {
    match p {
        Payload::Number(n) => spec_i64_dec(n as int),
        Payload::Binary(_) => placeholder_prefix() + dec_digits(k) + seq![125u8],
        Payload::String(s) => if json_accepts(s@) {
            s@
        } else {
            seq![34u8] + s@ + seq![34u8]
        },
    }
}

/// The comma-joined embedding of the payloads from index `i` on, with `k` the
/// attachment index the next binary would take.
pub open spec fn spec_payloads_from(ps: Seq<Payload>, i: int, k: nat) -> Seq<u8>
    decreases ps.len() - i,
{
    if i < 0 || i >= ps.len() {
        Seq::<u8>::empty()
    } else {
        let item = spec_payload_item(ps[i], k);
        let k2: nat = if ps[i] is Binary {
            k + 1
        } else {
            k
        };
        if i == ps.len() - 1 {
            item
        } else {
            item + seq![44u8] + spec_payloads_from(ps, i + 1, k2)
        }
    }
}

/// The attachment bodies contributed by the payloads from index `i` on.
pub open spec fn spec_attachments_from(ps: Seq<Payload>, i: int) -> Seq<Seq<u8>>
    decreases ps.len() - i,
{
    if i < 0 || i >= ps.len() {
        Seq::<Seq<u8>>::empty()
    } else {
        match ps[i] {
            Payload::Binary(b) => seq![b@] + spec_attachments_from(ps, i + 1),
            _ => spec_attachments_from(ps, i + 1),
        }
    }
}

/// The full data array: `[`, the quoted event name and its comma when
/// present, the payloads, `]`.
pub open spec fn spec_data_bytes(event: Option<Event>, ps: Seq<Payload>) -> Seq<u8> {
    seq![91u8] + (match event {
        Some(ev) => seq![34u8] + ev.0@ + seq![34u8] + (if ps.len() > 0 {
            seq![44u8]
        } else {
            Seq::<u8>::empty()
        }),
        None => Seq::<u8>::empty(),
    }) + spec_payloads_from(ps, 0, 0) + seq![93u8]
}

/// Append `n` in decimal, with a leading `-` when negative.
pub fn format_i64(out: &mut Vec<u8>, n: i64)
    ensures
        final(out)@ == old(out)@ + spec_i64_dec(n as int),
{
    if n < 0 {
        out.push(45);
        let mag: u64 = if n == i64::MIN {
            9223372036854775808u64
        } else {
            (-n) as u64
        };
        format_u64(out, mag);
        proof {
            assert(old(out)@.push(45u8) + dec_digits(mag as nat)
                =~= old(out)@ + (seq![45u8] + dec_digits((-(n as int)) as nat)));
        }
    } else {
        format_u64(out, n as u64);
    }
}

/// Append the placeholder object for attachment index `k`.
pub fn format_placeholder(out: &mut Vec<u8>, k: u64)
    ensures
        final(out)@ == old(out)@ + placeholder_prefix() + dec_digits(k as nat) + seq![125u8],
{
    let mut p: Vec<u8> = Vec::new();
    p.push(123);
    p.push(34);
    p.push(95);
    p.push(112);
    p.push(108);
    p.push(97);
    p.push(99);
    p.push(101);
    p.push(104);
    p.push(111);
    p.push(108);
    p.push(100);
    p.push(101);
    p.push(114);
    p.push(34);
    p.push(58);
    p.push(116);
    p.push(114);
    p.push(117);
    p.push(101);
    p.push(44);
    p.push(34);
    p.push(110);
    p.push(117);
    p.push(109);
    p.push(34);
    p.push(58);
    proof {
        assert(p@ =~= placeholder_prefix());
    }
    out.extend_from_slice(p.as_slice());
    format_u64(out, k);
    out.push(125);
    proof {
        assert(old(out)@ + placeholder_prefix() + dec_digits(k as nat) + seq![125u8]
            =~= (old(out)@ + placeholder_prefix() + dec_digits(k as nat)).push(125u8));
    }
}

/// Append the embedding of one payload; a binary also pushes its bytes onto
/// `atts` at the index its placeholder names.
pub fn append_payload_item(out: &mut Vec<u8>, atts: &mut Vec<Vec<u8>>, p: &Payload)
    ensures
        final(out)@ == old(out)@ + spec_payload_item(*p, old(atts)@.len() as nat),
        p is Binary ==> atts_bytes(final(atts)@) == atts_bytes(old(atts)@).push(p->Binary_0@),
        !(p is Binary) ==> final(atts)@ == old(atts)@,
{
    match p {
        Payload::Number(n) => {
            format_i64(out, *n);
        },
        Payload::Binary(b) => {
            format_placeholder(out, atts.len() as u64);
            atts.push(b.clone());
            proof {
                assert(old(out)@ + placeholder_prefix() + dec_digits(old(atts)@.len() as nat)
                    + seq![125u8] =~= old(out)@ + spec_payload_item(*p, old(atts)@.len() as nat));
                assert(atts_bytes(atts@) =~= atts_bytes(old(atts)@).push(b@));
            }
        },
        Payload::String(s) => {
            if is_json_value(s) {
                out.extend_from_slice(s.as_slice());
            } else {
                out.push(34);
                out.extend_from_slice(s.as_slice());
                out.push(34);
                proof {
                    assert(old(out)@.push(34u8) + s@ + seq![34u8]
                        =~= (old(out)@.push(34u8) + s@).push(34u8));
                    assert(old(out)@ + (seq![34u8] + s@ + seq![34u8])
                        =~= old(out)@.push(34u8) + s@ + seq![34u8]);
                }
            }
        },
    }
}

} // verus!
