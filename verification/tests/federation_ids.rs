use multimint::federation::{FederationId, FederationIdPrefix};
use multimint::hex::{byte_digit_value, decode, digit_text, push_hex};

fn counting_id() -> FederationId {
    let mut bytes = [0u8; 32];
    for (i, byte) in bytes.iter_mut().enumerate() {
        *byte = i as u8;
    }
    FederationId(bytes)
}

const COUNTING_HEX: &str = "000102030405060708090a0b0c0d0e0f101112131415161718191a1b1c1d1e1f";

#[test]
fn id_is_written_as_64_lower_case_digits() {
    assert_eq!(counting_id().to_hex(), COUNTING_HEX);
    assert_eq!(FederationId([0xab; 32]).to_hex(), "ab".repeat(32));
    assert_eq!(FederationId([0; 32]).to_hex(), "0".repeat(64));
    assert_eq!(FederationId([0xff; 32]).to_hex(), "f".repeat(64));
}

#[test]
fn id_is_read_from_its_text() {
    assert_eq!(FederationId::from_str(COUNTING_HEX), Some(counting_id()));
    assert_eq!(FederationId::from_str(&"2a".repeat(32)), Some(FederationId([42; 32])));
}

#[test]
fn id_is_read_in_either_case() {
    let upper = COUNTING_HEX.to_uppercase();
    assert_eq!(FederationId::from_str(&upper), Some(counting_id()));
    let mixed = format!("{}{}", "Ab".repeat(16), "aB".repeat(16));
    assert_eq!(FederationId::from_str(&mixed), Some(FederationId([0xab; 32])));
}

#[test]
fn id_text_reads_back_as_the_id() {
    for seed in [0u8, 1, 17, 128, 200, 255] {
        let mut bytes = [0u8; 32];
        for (i, byte) in bytes.iter_mut().enumerate() {
            *byte = seed.wrapping_mul(31).wrapping_add(i as u8);
        }
        let id = FederationId(bytes);
        assert_eq!(FederationId::from_str(&id.to_hex()), Some(id));
    }
}

#[test]
fn id_of_wrong_length_is_refused() {
    assert_eq!(FederationId::from_str(""), None);
    assert_eq!(FederationId::from_str(&"0".repeat(63)), None);
    assert_eq!(FederationId::from_str(&"0".repeat(62)), None);
    assert_eq!(FederationId::from_str(&"0".repeat(65)), None);
    assert_eq!(FederationId::from_str(&"0".repeat(66)), None);
    assert_eq!(FederationId::from_str(&"0".repeat(128)), None);
}

#[test]
fn id_with_other_characters_is_refused() {
    let mut text = "0".repeat(63);
    text.push('g');
    assert_eq!(FederationId::from_str(&text), None);
    let mut text = "0".repeat(63);
    text.push(' ');
    assert_eq!(FederationId::from_str(&text), None);
    let text = format!("0x{}", "0".repeat(62));
    assert_eq!(FederationId::from_str(&text), None);
    let text = format!("{}é", "0".repeat(63));
    assert_eq!(FederationId::from_str(&text), None);
    let text = format!("{}é", "0".repeat(62));
    assert_eq!(FederationId::from_str(&text), None);
    let text = "０".repeat(64);
    assert_eq!(FederationId::from_str(&text), None);
}

#[test]
fn prefix_is_the_first_four_bytes() {
    assert_eq!(counting_id().to_prefix(), FederationIdPrefix([0, 1, 2, 3]));
    assert_eq!(FederationId([9; 32]).to_prefix(), FederationIdPrefix([9, 9, 9, 9]));
}

#[test]
fn prefixes_are_compared_by_their_bytes() {
    let a = FederationIdPrefix([1, 2, 3, 4]);
    assert!(a.same(&FederationIdPrefix([1, 2, 3, 4])));
    assert!(!a.same(&FederationIdPrefix([1, 2, 3, 5])));
    assert!(!a.same(&FederationIdPrefix([0, 2, 3, 4])));
}

#[test]
fn ids_are_ordered_byte_by_byte() {
    let low = FederationId([0; 32]);
    let mut bytes = [0u8; 32];
    bytes[31] = 1;
    let next = FederationId(bytes);
    let mut bytes = [0u8; 32];
    bytes[0] = 1;
    let high = FederationId(bytes);
    assert!(low.precedes(&next));
    assert!(next.precedes(&high));
    assert!(low.precedes(&high));
    assert!(!next.precedes(&low));
    assert!(!high.precedes(&next));
    assert!(!low.precedes(&low));
    assert!(low.same(&low));
    assert!(!low.same(&next));
}

#[test]
fn order_of_ids_is_the_order_of_their_bytes() {
    let samples: Vec<FederationId> = [[0u8; 32], [1; 32], [0xff; 32], counting_id().0, {
        let mut b = [7u8; 32];
        b[16] = 6;
        b
    }, {
        let mut b = [7u8; 32];
        b[16] = 8;
        b
    }]
        .into_iter()
        .map(FederationId)
        .collect();
    for a in &samples {
        for b in &samples {
            assert_eq!(a.precedes(b), a.0 < b.0);
            assert_eq!(a.same(b), a.0 == b.0);
            assert_eq!(a.precedes(b), a < b);
        }
    }
}

#[test]
fn hex_digits_have_their_values() {
    assert_eq!(byte_digit_value(b'0'), Some(0));
    assert_eq!(byte_digit_value(b'9'), Some(9));
    assert_eq!(byte_digit_value(b'a'), Some(10));
    assert_eq!(byte_digit_value(b'f'), Some(15));
    assert_eq!(byte_digit_value(b'A'), Some(10));
    assert_eq!(byte_digit_value(b'F'), Some(15));
    for byte in 0..=255u8 {
        let expected = (byte as char).to_digit(16).map(|value| value as u8);
        assert_eq!(byte_digit_value(byte), expected);
    }
}

#[test]
fn hex_digits_are_written_in_lower_case() {
    let digits: Vec<&str> = (0u8..16).map(digit_text).collect();
    assert_eq!(
        digits,
        vec!["0", "1", "2", "3", "4", "5", "6", "7", "8", "9", "a", "b", "c", "d", "e", "f"]
    );
}

#[test]
fn hex_text_is_decoded_two_digits_a_byte() {
    assert_eq!(decode(""), Some(vec![]));
    assert_eq!(decode("00"), Some(vec![0]));
    assert_eq!(decode("ff"), Some(vec![255]));
    assert_eq!(decode("0aF1"), Some(vec![10, 241]));
    assert_eq!(decode("deadBEEF"), Some(vec![0xde, 0xad, 0xbe, 0xef]));
    assert_eq!(decode("1"), None);
    assert_eq!(decode("123"), None);
    assert_eq!(decode("zz"), None);
    assert_eq!(decode("0 "), None);
    assert_eq!(decode("é0"), None);
}

#[test]
fn hex_text_is_appended() {
    let mut out = String::from("id:");
    push_hex(&mut out, &[0x01, 0xab, 0xff]);
    assert_eq!(out, "id:01abff");
    push_hex(&mut out, &[]);
    assert_eq!(out, "id:01abff");
}
