//! UTXO record parsing, including the compacted-P2PK offset quirk.

use btc_utxo_dump::UtxoError;
use btc_utxo_dump::utxo::UtxoValue;

fn encode_varint(mut n: u64) -> Vec<u8> {
    let mut tmp: Vec<u8> = Vec::new();
    loop {
        tmp.push((n & 0x7f) as u8 | if tmp.is_empty() { 0x00 } else { 0x80 });
        if n <= 0x7f {
            break;
        }
        n = (n >> 7) - 1;
    }
    tmp.reverse();
    tmp
}

fn record(height: u64, coinbase: bool, compressed_amount: u64, nsize: u64, script: &[u8]) -> Vec<u8> {
    let mut data = encode_varint(height * 2 + if coinbase { 1 } else { 0 });
    data.extend_from_slice(&encode_varint(compressed_amount));
    data.extend_from_slice(&encode_varint(nsize));
    data.extend_from_slice(script);
    data
}

#[test]
fn parses_generic_record() {
    let script = [0xaau8; 20];
    // Compressed amount 9 decompresses to 100_000_000.
    let data = record(100, true, 9, 0, &script);
    let u = UtxoValue::parse(&data, false).unwrap();
    assert_eq!(u.height, 100);
    assert!(u.coinbase);
    assert_eq!(u.amount, 100_000_000);
    assert_eq!(u.script_type, 0);
    assert_eq!(u.script, script.to_vec());
}

#[test]
fn compacted_key_rewinds_one_byte() {
    // For type codes 2..=5 the script starts one byte early, so the stored
    // script begins with the type-code byte itself followed by the X
    // coordinate: exactly a compacted public key.
    let x = [0x17u8; 32];
    let mut tail = vec![0x02u8];
    tail.extend_from_slice(&x);
    let data = record(7, false, 0, 2, &x);
    let u = UtxoValue::parse(&data, false).unwrap();
    assert_eq!(u.script_type, 2);
    assert_eq!(u.script, tail);
}

#[test]
fn decompresses_p2pk_key_when_requested() {
    // The generator point's X coordinate, stored as an even-Y compacted key
    // (type code 4).
    let x = hex::decode("79be667ef9dcbbac55a06295ce870b07029bfcdb2dce28d959f2815b16f81798")
        .unwrap();
    let data = record(1, false, 1, 4, &x);
    let u = UtxoValue::parse(&data, true).unwrap();
    assert_eq!(u.script.len(), 65);
    assert_eq!(u.script[0], 0x04);
    assert_eq!(&u.script[1..33], &x[..]);
    // Without the request the compacted form is kept.
    let u2 = UtxoValue::parse(&data, false).unwrap();
    assert_eq!(u2.script.len(), 33);
    assert_eq!(u2.script[0], 0x04);
}

#[test]
fn invalid_curve_point_fails_decompression() {
    // All-0xff is larger than the field prime, so it is never a valid X.
    let x = [0xffu8; 32];
    let data = record(1, false, 1, 4, &x);
    assert_eq!(UtxoValue::parse(&data, true).unwrap_err(), UtxoError::InvalidPublicKey);
}

#[test]
fn short_compacted_key_fails_decompression() {
    let x = [0x11u8; 10];
    let data = record(1, false, 1, 5, &x);
    assert_eq!(UtxoValue::parse(&data, true).unwrap_err(), UtxoError::PubkeyTooShort);
}

#[test]
fn truncated_varint_is_fatal() {
    assert_eq!(UtxoValue::parse(&[], false).unwrap_err(), UtxoError::TruncatedVarint);
    assert_eq!(UtxoValue::parse(&[0x80], false).unwrap_err(), UtxoError::TruncatedVarint);
    // First varint terminates, the second runs off the buffer.
    assert_eq!(
        UtxoValue::parse(&[0x00, 0x80, 0xff], false).unwrap_err(),
        UtxoError::TruncatedVarint
    );
}

#[test]
fn oversized_varint_is_reported_not_masked() {
    // A first varint beyond i64::MAX.
    let mut data = vec![0xffu8, 0xff, 0xff, 0xff, 0xff, 0xff, 0xff, 0xff, 0xff, 0x7f];
    data.extend_from_slice(&[0x00, 0x00]);
    assert_eq!(UtxoValue::parse(&data, false).unwrap_err(), UtxoError::ValueOverflow);
    // A height that does not fit a u32.
    let data2 = record(0x1_0000_0000, false, 0, 0, &[]);
    assert_eq!(UtxoValue::parse(&data2, false).unwrap_err(), UtxoError::ValueOverflow);
}

#[test]
fn empty_script_is_allowed() {
    let data = record(9, false, 0, 77, &[]);
    let u = UtxoValue::parse(&data, false).unwrap();
    assert_eq!(u.script_type, 77);
    assert!(u.script.is_empty());
    assert_eq!(u.amount, 0);
}
