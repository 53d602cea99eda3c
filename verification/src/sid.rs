//! Session identifiers: a process-monotonic counter whose decimal form is
//! base64-encoded. Collision-free by construction, opaque to clients.

use vstd::prelude::*;

use crate::decimal::{dec_digits, format_u64};

verus! {

/// The base64 text of some bytes (standard alphabet, padded). The encoding
/// is computed outside; only that it is a function of the bytes matters here.
pub uninterp spec fn base64_of(b: Seq<u8>) -> Seq<u8>;

/// Relies on `base64::encode`: standard-alphabet padded base64, a function
/// of the input bytes alone.
#[verifier::external_body]
fn base64_encode(b: &Vec<u8>) -> (r: Vec<u8>)
    ensures
        r@ == base64_of(b@),
{
    base64::encode(b).into_bytes()
}

/// A session id: the counter value it was generated from, and the opaque
/// text shown to the client. No two live sessions share a `num`.
#[derive(Clone, Debug, PartialEq, Eq)]
pub struct Sid {
    pub num: u64,
    pub text: Vec<u8>,
}

/// The text a counter value encodes to.
pub open spec fn sid_text_of(num: u64) -> Seq<u8> {
    base64_of(dec_digits(num as nat))
}

impl Sid {
    /// The id is the encoding of its own counter value.
    pub open spec fn wf(&self) -> bool {
        self.text@ == sid_text_of(self.num)
    }
}

/// Generates session ids from a monotonic counter.
pub struct SidGenerator {
    pub seq_no: u64,
}

impl Default for SidGenerator {
    fn default() -> (g: SidGenerator)
        ensures
            g.seq_no == 0,
    {
        SidGenerator::new()
    }
}

impl SidGenerator {
    pub fn new() -> (g: SidGenerator)
        ensures
            g.seq_no == 0,
    {
        SidGenerator { seq_no: 0 }
    }

    /// The next id: the current counter value, base64-encoded, and the
    /// counter advanced past it.
    pub fn generate(&mut self) -> (s: Sid)
        requires
            old(self).seq_no < u64::MAX,
        ensures
            final(self).seq_no == old(self).seq_no + 1,
            s.num == old(self).seq_no,
            s.wf(),
    {
        let n = self.seq_no;
        self.seq_no = self.seq_no + 1;
        let mut digits: Vec<u8> = Vec::new();
        format_u64(&mut digits, n);
        proof {
            assert(digits@ =~= dec_digits(n as nat));
        }
        let text = base64_encode(&digits);
        Sid { num: n, text }
    }
}

} // verus!
