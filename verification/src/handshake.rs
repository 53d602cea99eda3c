//! The handshake packet sent as the first frame after transport
//! establishment, and its JSON form:
//! `{"sid":"…","upgrades":[…],"pingInterval":N,"pingTimeout":N}`.

use vstd::prelude::*;

use crate::decimal::{dec_digits, format_u64};

verus! {

/// The first packet of a session: its id, the transports it may upgrade to,
/// and the heartbeat parameters.
#[derive(Clone, Debug, PartialEq, Eq)]
pub struct HandshakePacket {
    pub sid: Vec<u8>,
    pub upgrades: Vec<Vec<u8>>,
    pub ping_interval: u64,
    pub ping_timeout: u64,
}

/// `{"sid":"`
pub open spec fn json_head() -> Seq<u8> {
    seq![123u8, 34, 115, 105, 100, 34, 58, 34]
}

/// `","upgrades":[`
pub open spec fn json_upgrades() -> Seq<u8> {
    seq![34u8, 44, 34, 117, 112, 103, 114, 97, 100, 101, 115, 34, 58, 91]
}

/// `],"pingInterval":`
pub open spec fn json_interval() -> Seq<u8> {
    seq![93u8, 44, 34, 112, 105, 110, 103, 73, 110, 116, 101, 114, 118, 97, 108, 34, 58]
}

/// `,"pingTimeout":`
pub open spec fn json_timeout() -> Seq<u8> {
    seq![44u8, 34, 112, 105, 110, 103, 84, 105, 109, 101, 111, 117, 116, 34, 58]
}

/// The quoted, comma-joined upgrade names from index `i` on.
pub open spec fn spec_upgrade_list(ups: Seq<Seq<u8>>, i: int) -> Seq<u8>
    decreases ups.len() - i,
{
    if i < 0 || i >= ups.len() {
        Seq::<u8>::empty()
    } else {
        let q = seq![34u8] + ups[i] + seq![34u8];
        if i == ups.len() - 1 {
            q
        } else {
            q + seq![44u8] + spec_upgrade_list(ups, i + 1)
        }
    }
}

/// The JSON bytes of a handshake packet.
pub open spec fn spec_handshake_json(
    sid: Seq<u8>,
    ups: Seq<Seq<u8>>,
    interval: u64,
    timeout: u64,
) -> Seq<u8> {
    json_head() + sid + json_upgrades() + spec_upgrade_list(ups, 0) + json_interval()
        + dec_digits(interval as nat) + json_timeout() + dec_digits(timeout as nat) + seq![125u8]
}

impl HandshakePacket {
    pub fn new(sid: Vec<u8>, upgrades: Vec<Vec<u8>>, ping_interval: u64, ping_timeout: u64) -> (p:
        HandshakePacket)
        ensures
            p.sid == sid,
            p.upgrades == upgrades,
            p.ping_interval == ping_interval,
            p.ping_timeout == ping_timeout,
    {
        HandshakePacket { sid, upgrades, ping_interval, ping_timeout }
    }

    /// Serialize to the JSON object the client expects.
    #[verifier::rlimit(100)]
    pub fn to_json(&self) -> (v: Vec<u8>)
        ensures
            v@ == spec_handshake_json(
                self.sid@,
                crate::payload::atts_bytes(self.upgrades@),
                self.ping_interval,
                self.ping_timeout,
            ),
    {
        let ghost ups = crate::payload::atts_bytes(self.upgrades@);
        let mut v: Vec<u8> = Vec::new();
        v.push(123);
        v.push(34);
        v.push(115);
        v.push(105);
        v.push(100);
        v.push(34);
        v.push(58);
        v.push(34);
        proof {
            assert(v@ =~= json_head());
        }
        v.extend_from_slice(self.sid.as_slice());
        v.push(34);
        v.push(44);
        v.push(34);
        v.push(117);
        v.push(112);
        v.push(103);
        v.push(114);
        v.push(97);
        v.push(100);
        v.push(101);
        v.push(115);
        v.push(34);
        v.push(58);
        v.push(91);
        proof {
            assert(v@ =~= json_head() + self.sid@ + json_upgrades());
        }
        let ghost before = v@;
        let n = self.upgrades.len();
        let mut i: usize = 0;
        while i < n
            invariant
                n == self.upgrades@.len(),
                ups == crate::payload::atts_bytes(self.upgrades@),
                0 <= i <= n,
                v@ + spec_upgrade_list(ups, i as int) =~= before + spec_upgrade_list(ups, 0),
            decreases n - i,
        {
            let ghost v_in = v@;
            v.push(34);
            v.extend_from_slice(self.upgrades[i].as_slice());
            v.push(34);
            proof {
                assert(ups[i as int] == self.upgrades@[i as int]@);
                assert(v@ =~= v_in + (seq![34u8] + ups[i as int] + seq![34u8]));
            }
            if i < n - 1 {
                v.push(44);
                proof {
                    assert(v@ =~= v_in + (seq![34u8] + ups[i as int] + seq![34u8] + seq![44u8]));
                    assert(spec_upgrade_list(ups, i as int) =~= seq![34u8] + ups[i as int]
                        + seq![34u8] + seq![44u8] + spec_upgrade_list(ups, i + 1));
                    assert(v@ + spec_upgrade_list(ups, i + 1) =~= v_in + spec_upgrade_list(
                        ups,
                        i as int,
                    ));
                }
            } else {
                proof {
                    assert(spec_upgrade_list(ups, i as int) =~= seq![34u8] + ups[i as int]
                        + seq![34u8]);
                    assert(v@ + spec_upgrade_list(ups, i + 1) =~= v_in + spec_upgrade_list(
                        ups,
                        i as int,
                    ));
                }
            }
            i = i + 1;
        }
        v.push(93);
        v.push(44);
        v.push(34);
        v.push(112);
        v.push(105);
        v.push(110);
        v.push(103);
        v.push(73);
        v.push(110);
        v.push(116);
        v.push(101);
        v.push(114);
        v.push(118);
        v.push(97);
        v.push(108);
        v.push(34);
        v.push(58);
        proof {
            assert(v@ =~= before + spec_upgrade_list(ups, 0) + json_interval());
        }
        format_u64(&mut v, self.ping_interval);
        v.push(44);
        v.push(34);
        v.push(112);
        v.push(105);
        v.push(110);
        v.push(103);
        v.push(84);
        v.push(105);
        v.push(109);
        v.push(101);
        v.push(111);
        v.push(117);
        v.push(116);
        v.push(34);
        v.push(58);
        proof {
            assert(v@ =~= before + spec_upgrade_list(ups, 0) + json_interval() + dec_digits(
                self.ping_interval as nat,
            ) + json_timeout());
        }
        format_u64(&mut v, self.ping_timeout);
        v.push(125);
        proof {
            assert(v@ =~= spec_handshake_json(
                self.sid@,
                ups,
                self.ping_interval,
                self.ping_timeout,
            ));
        }
        v
    }
}

} // verus!
