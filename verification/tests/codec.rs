//! The state-key text format: encoding, strict decoding, round trips.

use rl_examples::codec::{decode_state, encode_state};

#[test]
fn encode_concrete_key() {
    assert_eq!(encode_state(20, 7, true), "20-7-true");
    assert_eq!(encode_state(12, 2, false), "12-2-false");
    assert_eq!(encode_state(21, 11, true), "21-11-true");
    assert_eq!(encode_state(0, 0, false), "0-0-false");
}

#[test]
fn decode_concrete_key() {
    assert_eq!(decode_state(String::from("20-7-true")), Some((20, 7, true)));
    assert_eq!(decode_state(String::from("12-2-false")), Some((12, 2, false)));
    assert_eq!(decode_state(String::from("4-21-false")), Some((4, 21, false)));
}

#[test]
fn round_trip_over_state_space() {
    for p in 12..=21 {
        for d in 2..=11 {
            for u in [false, true] {
                let key = encode_state(p, d, u);
                assert_eq!(decode_state(key), Some((p, d, u)));
            }
        }
    }
}

#[test]
fn round_trip_large_values() {
    for p in [0usize, 9, 10, 99, 100, 4096, usize::MAX] {
        let key = encode_state(p, p, true);
        assert_eq!(decode_state(key), Some((p, p, true)));
    }
}

#[test]
fn decode_rejects_malformed_text() {
    for bad in [
        "",
        "20",
        "20-7",
        "20-7-",
        "20-7-maybe",
        "-7-true",
        "20--true",
        "a-7-true",
        "20-7-true ",
        " 20-7-true",
        "20-7-TRUE",
        "20-7-truee",
    ] {
        assert_eq!(decode_state(String::from(bad)), None, "{}", bad);
    }
}

#[test]
fn decode_rejects_non_canonical_numbers() {
    assert_eq!(decode_state(String::from("007-7-true")), None);
    assert_eq!(decode_state(String::from("20-07-true")), None);
    assert_eq!(decode_state(String::from("00-7-false")), None);
    // A lone zero is canonical.
    assert_eq!(decode_state(String::from("0-0-true")), Some((0, 0, true)));
}

#[test]
fn decode_rejects_overflowing_numbers() {
    // One past usize::MAX on a 64-bit machine.
    assert_eq!(decode_state(String::from("18446744073709551616-7-true")), None);
}
