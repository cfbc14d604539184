//! Decisions taken while scanning for the paired mobile device.
//!
//! The scan itself — discovery events, GATT resolution, characteristic
//! reads — is Bluetooth plumbing that stays outside the library. What is
//! decided about the values read comes from here: whether a discovered
//! device is in range, and what 16-bit PSM a characteristic's bytes
//! denote. The peer advertises its PSM as a decimal UTF-8 string.

use vstd::prelude::*;

verus! {

/// An ASCII decimal digit.
pub open spec fn is_dec_digit(b: u8) -> bool {
    48 <= b <= 57
}

/// Every byte of `s` is an ASCII decimal digit.
pub open spec fn all_dec_digits(s: Seq<u8>) -> bool {
    forall|i: int| 0 <= i < s.len() ==> is_dec_digit(#[trigger] s[i])
}

/// The integer an ASCII digit string denotes, most significant first.
pub open spec fn dec_value(s: Seq<u8>) -> int
    decreases s.len(),
{
    if s.len() == 0 {
        0
    } else {
        dec_value(s.drop_last()) * 10 + (s.last() - 48)
    }
}

/// The PSM a characteristic's bytes denote: a non-empty ASCII decimal
/// string, optionally preceded by `+`, whose value fits a `u16`. Anything
/// else — other characters, an empty read, a value past 65535 — denotes
/// none.
pub open spec fn spec_parse_psm(s: Seq<u8>) -> Option<u16> {
    let digits = if s.len() > 0 && s[0] == 43 {
        s.skip(1)
    } else {
        s
    };
    if digits.len() > 0 && all_dec_digits(digits) && dec_value(digits) <= 65535 {
        Some(dec_value(digits) as u16)
    } else {
        None
    }
}

/// A digit string denotes a non-negative value.
proof fn lemma_dec_value_nonneg(s: Seq<u8>)
    requires
        all_dec_digits(s),
    ensures
        dec_value(s) >= 0,
    decreases s.len(),
{
    if s.len() > 0 {
        assert(all_dec_digits(s.drop_last()));
        lemma_dec_value_nonneg(s.drop_last());
    }
}

/// Extending a digit string never lowers its value.
proof fn lemma_dec_value_prefix_le(s: Seq<u8>, k: int)
    requires
        all_dec_digits(s),
        0 <= k <= s.len(),
    ensures
        dec_value(s.take(k)) <= dec_value(s),
    decreases s.len() - k,
{
    if k == s.len() {
        assert(s.take(k) =~= s);
    } else {
        assert(all_dec_digits(s.take(k)));
        lemma_dec_value_nonneg(s.take(k));
        assert(s.take(k + 1).drop_last() =~= s.take(k));
        assert(dec_value(s.take(k + 1)) == dec_value(s.take(k)) * 10 + (s[k] - 48));
        lemma_dec_value_prefix_le(s, k + 1);
    }
}

/// Decodes the PSM advertised by the peer: the value of the bytes as a
/// decimal `u16`, or `None` for anything that does not denote one.
pub fn parse_psm(value: &[u8]) -> (r: Option<u16>)
    ensures
        r == spec_parse_psm(value@),
{
    let n = value.len();
    let start: usize = if n > 0 && value[0] == 43 {
        1
    } else {
        0
    };
    let ghost digits = value@.skip(start as int);
    proof {
        assert(digits =~= if value@.len() > 0 && value@[0] == 43 {
            value@.skip(1)
        } else {
            value@
        });
    }
    if n == start {
        return None;
    }
    let mut acc: u32 = 0;
    let mut i: usize = start;
    #[verifier::loop_isolation(false)]
    while i < n
        invariant
            start <= i <= n,
            all_dec_digits(value@.subrange(start as int, i as int)),
            acc == dec_value(value@.subrange(start as int, i as int)),
            acc <= 65535,
        decreases n - i,
    {
        let b = value[i];
        if b < 48 || b > 57 {
            proof {
                assert(digits[i - start] == value@[i as int]);
                assert(!all_dec_digits(digits));
            }
            return None;
        }
        let acc2 = acc * 10 + (b - 48) as u32;
        proof {
            let prefix = value@.subrange(start as int, i + 1);
            assert(prefix.drop_last() =~= value@.subrange(start as int, i as int));
            assert(prefix.last() == b);
            assert(dec_value(prefix) == acc * 10 + (b - 48));
        }
        if acc2 > 65535 {
            proof {
                let prefix = value@.subrange(start as int, i + 1);
                if all_dec_digits(digits) {
                    assert(digits.take(i + 1 - start) =~= prefix);
                    lemma_dec_value_prefix_le(digits, i + 1 - start);
                    assert(dec_value(digits) > 65535);
                }
                assert(spec_parse_psm(value@) is None);
            }
            return None;
        }
        acc = acc2;
        i += 1;
    }
    proof {
        assert(value@.subrange(start as int, n as int) =~= digits);
        assert(acc == dec_value(digits));
        assert(digits.len() > 0);
        assert(all_dec_digits(digits));
        assert(spec_parse_psm(value@) == Some(dec_value(digits) as u16));
        assert(acc as u16 == dec_value(digits) as u16);
    }
    Some(acc as u16)
}

/// Whether a discovered device passes the range gate: a reported signal
/// strength must be above −200 dBm, and a device reporting none counts
/// only if it is already connected.
pub fn device_in_range(rssi_dbm: Option<i16>, connected: bool) -> (r: bool)
    ensures
        r == match rssi_dbm {
            Some(v) => v > -200,
            None => connected,
        },
{
    match rssi_dbm {
        Some(v) => v > -200,
        None => connected,
    }
}

} // verus!
