//! ASCII decimal formatting and scanning, shared by both wire codecs and the
//! HTTP classifier.

use vstd::prelude::*;

verus! {

/// The byte is an ASCII digit `'0'..='9'`.
pub open spec fn is_digit(b: u8) -> bool {
    48 <= b && b <= 57
}

/// The decimal digit string of `n`, most significant digit first.
pub open spec fn dec_digits(n: nat) -> Seq<u8>
    decreases n,
{
    if n < 10 {
        seq![(48 + n) as u8]
    } else {
        dec_digits(n / 10).push((48 + n % 10) as u8)
    }
}

/// The value of a digit string, read most significant digit first.
pub open spec fn dec_value(s: Seq<u8>) -> nat
    decreases s.len(),
{
    if s.len() == 0 {
        0
    } else {
        (dec_value(s.drop_last()) * 10 + s.last() - 48) as nat
    }
}

/// Index of the first non-digit byte at or after `from` (or the length).
pub open spec fn digit_run_end(s: Seq<u8>, from: int) -> int
    decreases s.len() - from,
{
    if from < 0 || from >= s.len() {
        s.len() as int
    } else if is_digit(s[from]) {
        digit_run_end(s, from + 1)
    } else {
        from
    }
}

pub proof fn lemma_dec_digits_len(n: nat)
    ensures
        dec_digits(n).len() >= 1,
        forall|i: int| 0 <= i < dec_digits(n).len() ==> is_digit(#[trigger] dec_digits(n)[i]),
    decreases n,
{
    if n >= 10 {
        lemma_dec_digits_len(n / 10);
    }
}

/// Reading back the digit string of `n` yields `n`.
pub proof fn lemma_dec_value_of_digits(n: nat)
    ensures
        dec_value(dec_digits(n)) == n,
    decreases n,
{
    let s = dec_digits(n);
    if n < 10 {
        assert(s == seq![(48 + n) as u8]);
        assert(s.drop_last() =~= Seq::<u8>::empty());
        assert(dec_value(s.drop_last()) == 0);
        assert(dec_value(s) == (0 * 10 + s.last() - 48) as nat);
    } else {
        lemma_dec_value_of_digits(n / 10);
        assert(s == dec_digits(n / 10).push((48 + n % 10) as u8));
        assert(s.drop_last() =~= dec_digits(n / 10));
        assert(s.last() == (48 + n % 10) as u8);
        assert(dec_value(s) == (dec_value(s.drop_last()) * 10 + s.last() - 48) as nat);
        assert(dec_value(s.drop_last()) == n / 10);
        vstd::arithmetic::div_mod::lemma_fundamental_div_mod(n as int, 10);
    }
}

/// A digit run that spans `[from, k)` and stops at a non-digit (or the end)
/// is exactly what the scanner takes.
pub proof fn lemma_digit_run_end_is(s: Seq<u8>, from: int, k: int)
    requires
        0 <= from <= k <= s.len(),
        forall|i: int| from <= i < k ==> is_digit(#[trigger] s[i]),
        k == s.len() || !is_digit(s[k]),
    ensures
        digit_run_end(s, from) == k,
    decreases k - from,
{
    if from < k {
        lemma_digit_run_end_is(s, from + 1, k);
    }
}

/// Everything before the end of a digit run is a digit.
pub proof fn lemma_digit_run_all_digits(s: Seq<u8>, from: int)
    requires
        0 <= from <= s.len(),
    ensures
        forall|j: int| from <= j < digit_run_end(s, from) ==> is_digit(#[trigger] s[j]),
        from <= digit_run_end(s, from) <= s.len(),
        digit_run_end(s, from) < s.len() ==> !is_digit(s[digit_run_end(s, from)]),
    decreases s.len() - from,
{
    if from < s.len() && is_digit(s[from]) {
        lemma_digit_run_all_digits(s, from + 1);
    }
}

/// Append `n` in decimal to `out`.
pub fn format_u64(out: &mut Vec<u8>, n: u64)
    ensures
        final(out)@ == old(out)@ + dec_digits(n as nat),
    decreases n,
{
    if n < 10 {
        out.push(48 + n as u8);
    } else {
        format_u64(out, n / 10);
        out.push(48 + (n % 10) as u8);
        proof {
            assert(old(out)@ + dec_digits((n / 10) as nat) + seq![(48 + n % 10) as u8]
                =~= old(out)@ + dec_digits(n as nat));
        }
    }
}

/// Scan the digit run of `s` starting at `from`. Returns its end index, and
/// its value unless that value exceeds `max`.
pub fn scan_decimal(s: &[u8], from: usize, max: u64) -> (r: (usize, Option<u64>))
    requires
        from <= s@.len(),
        max <= 0x1_0000_0000,
    ensures
        from <= r.0 <= s@.len(),
        r.0 == digit_run_end(s@, from as int),
        match r.1 {
            Some(v) => v == dec_value(s@.subrange(from as int, r.0 as int)) && v <= max,
            None => dec_value(s@.subrange(from as int, r.0 as int)) > max,
        },
{
    let mut i: usize = from;
    let mut val: u64 = 0;
    let mut fits: bool = true;
    proof {
        assert(s@.subrange(from as int, from as int) =~= Seq::<u8>::empty());
    }
    loop
        invariant
            from <= i <= s@.len(),
            max <= 0x1_0000_0000,
            forall|k: int| from <= k < i ==> is_digit(#[trigger] s@[k]),
            fits ==> val == dec_value(s@.subrange(from as int, i as int)) && val <= max,
            !fits ==> dec_value(s@.subrange(from as int, i as int)) > max,
        decreases s@.len() - i,
    {
        if i == s.len() || !(48 <= s[i] && s[i] <= 57) {
            proof {
                lemma_digit_run_end_is(s@, from as int, i as int);
            }
            return (i, if fits { Some(val) } else { None });
        }
        let d = s[i];
        proof {
            assert(s@.subrange(from as int, i + 1).drop_last()
                =~= s@.subrange(from as int, i as int));
        }
        if fits {
            let next = val * 10 + (d - 48) as u64;
            if next > max {
                fits = false;
            } else {
                val = next;
            }
        } else {
            proof {
                assert(dec_value(s@.subrange(from as int, i + 1))
                    >= dec_value(s@.subrange(from as int, i as int)));
            }
        }
        i = i + 1;
    }
}

} // verus!
