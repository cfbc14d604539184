//! Tests of the rendezvous decisions: PSM decoding and the range gate.

use socks_forwarder::central::device_in_range;
use socks_forwarder::central::parse_psm;

#[test]
fn psm_plain_decimal() {
    assert_eq!(parse_psm(b"193"), Some(193));
    assert_eq!(parse_psm(b"0"), Some(0));
    assert_eq!(parse_psm(b"65535"), Some(65535));
}

#[test]
fn psm_leading_plus_and_zeros() {
    assert_eq!(parse_psm(b"+80"), Some(80));
    assert_eq!(parse_psm(b"000000000000070"), Some(70));
    assert_eq!(parse_psm(b"+0000193"), Some(193));
}

#[test]
fn psm_out_of_range_is_rejected() {
    assert_eq!(parse_psm(b"65536"), None);
    assert_eq!(parse_psm(b"999999999999999999999"), None);
}

#[test]
fn psm_non_decimal_is_rejected() {
    assert_eq!(parse_psm(b""), None);
    assert_eq!(parse_psm(b"+"), None);
    assert_eq!(parse_psm(b"12a"), None);
    assert_eq!(parse_psm(b"-5"), None);
    assert_eq!(parse_psm(b" 42"), None);
    assert_eq!(parse_psm(b"4 2"), None);
    assert_eq!(parse_psm(b"\xff\xfe"), None);
}

#[test]
fn range_gate() {
    assert!(device_in_range(Some(-100), false));
    assert!(device_in_range(Some(-199), false));
    assert!(!device_in_range(Some(-200), false));
    assert!(!device_in_range(Some(-300), true));
    assert!(device_in_range(None, true));
    assert!(!device_in_range(None, false));
}
