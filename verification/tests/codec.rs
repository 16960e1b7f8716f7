//! Varint, amount-compression and deobfuscation behaviour.

use btc_utxo_dump::amount::{decompress_value, decompress_value_checked};
use btc_utxo_dump::chainstate::ChainStateValue;
use btc_utxo_dump::varint::{varint128_decode, varint128_decode_checked, varint128_read};

/// Bitcoin Core's forward varint encoder.
fn encode_varint(mut n: u64) -> Vec<u8> {
    let mut tmp: Vec<u8> = Vec::new();
    loop {
        tmp.push((n & 0x7f) as u8 | if tmp.is_empty() { 0x00 } else { 0x80 });
        if n <= 0x7f {
            break;
        }
        n = (n >> 7) - 1;
    }
    tmp.reverse();
    tmp
}

/// Bitcoin Core's forward amount compression.
fn compress_amount(mut n: u64) -> u64 {
    if n == 0 {
        return 0;
    }
    let mut e = 0u64;
    while n % 10 == 0 && e < 9 {
        n /= 10;
        e += 1;
    }
    if e < 9 {
        let d = n % 10;
        n /= 10;
        1 + (n * 9 + d - 1) * 10 + e
    } else {
        1 + (n - 1) * 10 + 9
    }
}

#[test]
fn varint_read_stops_at_terminator() {
    let data = [0x85u8, 0x3f, 0x7a];
    let (n, bytes) = varint128_read(&data, 0);
    assert_eq!(n, 2);
    assert_eq!(bytes, vec![0x85, 0x3f]);
    let (n2, bytes2) = varint128_read(&data, 2);
    assert_eq!(n2, 1);
    assert_eq!(bytes2, vec![0x7a]);
}

#[test]
fn varint_read_exhausted_buffer_reports_zero() {
    let data = [0x85u8, 0xff, 0x80];
    let (n, bytes) = varint128_read(&data, 0);
    assert_eq!(n, 0);
    assert_eq!(bytes, vec![0x85, 0xff, 0x80]);
    let empty: [u8; 0] = [];
    let (n2, bytes2) = varint128_read(&empty, 0);
    assert_eq!(n2, 0);
    assert!(bytes2.is_empty());
}

#[test]
fn varint_decode_known_values() {
    assert_eq!(varint128_decode(&[0x00]), 0);
    assert_eq!(varint128_decode(&[0x7f]), 127);
    assert_eq!(varint128_decode(&[0x80, 0x00]), 128);
    assert_eq!(varint128_decode(&[0x85, 0x3f]), 831);
    assert_eq!(varint128_decode(&[0x80, 0x49]), 201);
}

#[test]
fn varint_decode_inverts_forward_encoder() {
    let values: [u64; 12] = [
        0,
        1,
        127,
        128,
        129,
        255,
        16383,
        16384,
        65535,
        1000000,
        4294967295,
        1512347850130,
    ];
    for &v in values.iter() {
        let enc = encode_varint(v);
        let (n, bytes) = varint128_read(&enc, 0);
        assert_eq!(n, enc.len());
        assert_eq!(bytes, enc);
        assert_eq!(varint128_decode(&bytes) as u64, v);
    }
}

#[test]
fn varint_decode_checked_rejects_oversized() {
    // Ten continuation bytes of 0x7f-heavy data exceed an i64.
    let huge = [0xffu8, 0xff, 0xff, 0xff, 0xff, 0xff, 0xff, 0xff, 0xff, 0x7f];
    assert_eq!(varint128_decode_checked(&huge), None);
    assert_eq!(varint128_decode_checked(&[0x80, 0x00]), Some(128));
}

#[test]
fn amount_decompression_known_values() {
    assert_eq!(decompress_value(0), 0);
    assert_eq!(decompress_value(1), 1);
    // 1 BTC (100_000_000 satoshis) compresses to 9.
    assert_eq!(compress_amount(100_000_000), 9);
    assert_eq!(decompress_value(9), 100_000_000);
}

#[test]
fn amount_decompression_inverts_compression_for_every_exponent() {
    // Values ending in each digit 0-9, exercising every exponent branch.
    let mut values: Vec<u64> = Vec::new();
    for d in 0..10u64 {
        values.push(100 + d);
    }
    for e in 0..12u32 {
        values.push(7 * 10u64.pow(e));
        values.push(10u64.pow(e));
    }
    values.push(2_100_000_000_000_000); // all the satoshis there will be
    for &v in values.iter() {
        let c = compress_amount(v);
        assert_eq!(decompress_value(c as i64) as u64, v, "round trip of {}", v);
        assert_eq!(decompress_value_checked(c as i64), Some(v as i64));
    }
}

#[test]
fn deobfuscate_applies_cycled_key() {
    let value = ChainStateValue::new(vec![0x10, 0x20, 0x30, 0x40, 0x50]);
    let key = [0x01u8, 0x02];
    let out = value.deobfuscate(&key);
    assert_eq!(out, vec![0x11, 0x22, 0x31, 0x42, 0x51]);
}

#[test]
fn deobfuscate_twice_returns_original() {
    let v = vec![0xde, 0xad, 0xbe, 0xef, 0x00, 0x55, 0x13];
    let k = [0x0fu8, 0xf0, 0x3c];
    let once = ChainStateValue::new(v.clone()).deobfuscate(&k);
    let twice = ChainStateValue::new(once).deobfuscate(&k);
    assert_eq!(twice, v);
}

#[test]
fn deobfuscate_with_empty_key_yields_empty() {
    let value = ChainStateValue::new(vec![1, 2, 3]);
    let out = value.deobfuscate(&[]);
    assert!(out.is_empty());
}
