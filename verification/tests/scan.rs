//! End-to-end scans over synthetic key-value sequences.

use btc_utxo_dump::address::{hash160_to_address, segwit_address};
use btc_utxo_dump::chainstate::{ChainStateKey, ChainStateValue};
use btc_utxo_dump::UtxoError;
use btc_utxo_dump::dump::{dump_entries, ScanState};
use btc_utxo_dump::fields::{num_fields, FieldIndices};

fn encode_varint(mut n: u64) -> Vec<u8> {
    let mut tmp: Vec<u8> = Vec::new();
    loop {
        tmp.push((n & 0x7f) as u8 | if tmp.is_empty() { 0x00 } else { 0x80 });
        if n <= 0x7f {
            break;
        }
        n = (n >> 7) - 1;
    }
    tmp.reverse();
    tmp
}

fn xor_with(plain: &[u8], key: &[u8]) -> Vec<u8> {
    plain.iter().enumerate().map(|(i, b)| b ^ key[i % key.len()]).collect()
}

fn utxo_key(txid: &[u8; 32], vout: u64) -> Vec<u8> {
    let mut key = vec![0x43u8];
    key.extend_from_slice(txid);
    key.extend_from_slice(&encode_varint(vout));
    key
}

fn record(height: u64, coinbase: bool, compressed_amount: u64, nsize: u64, script: &[u8]) -> Vec<u8> {
    let mut data = encode_varint(height * 2 + if coinbase { 1 } else { 0 });
    data.extend_from_slice(&encode_varint(compressed_amount));
    data.extend_from_slice(&encode_varint(nsize));
    data.extend_from_slice(script);
    data
}

const OBF_KEY: [u8; 4] = [0x11, 0x22, 0x33, 0x44];

/// One sentinel entry, then two UTXO entries obfuscated under its key, plus
/// an entry with an unknown prefix that must be ignored.
fn synthetic_entries() -> Vec<(Vec<u8>, Vec<u8>)> {
    let mut entries: Vec<(Vec<u8>, Vec<u8>)> = Vec::new();
    let mut sentinel_value = vec![OBF_KEY.len() as u8];
    sentinel_value.extend_from_slice(&OBF_KEY);
    entries.push((vec![0x0e], sentinel_value));

    // Ignored: unknown prefix.
    entries.push((vec![0x42, 0x01, 0x02], vec![0x99, 0x98]));

    let txid1: [u8; 32] = core::array::from_fn(|i| (i + 1) as u8);
    let plain1 = record(100, true, 9, 0, &[0xaa; 20]);
    entries.push((utxo_key(&txid1, 0), xor_with(&plain1, &OBF_KEY)));

    let txid2: [u8; 32] = [0xab; 32];
    let mut script2 = vec![0x00u8, 0x14];
    script2.extend_from_slice(&hex::decode("751e76e8199196d454941c45d1b3a323f1433bd6").unwrap());
    let plain2 = record(250000, false, 1, 28, &script2);
    entries.push((utxo_key(&txid2, 7), xor_with(&plain2, &OBF_KEY)));

    entries
}

const ALL_FIELDS: &str = "count,txid,vout,height,coinbase,amount,nsize,script,type,address";

#[test]
fn full_pipeline_emits_expected_rows() {
    let entries = synthetic_entries();
    let indices = FieldIndices::from_str(ALL_FIELDS);
    let width = num_fields(ALL_FIELDS);
    assert_eq!(width, 10);
    let rows = dump_entries(&entries, &indices, width, false, false, 0).unwrap();
    assert_eq!(rows.len(), 2);

    let row1 = &rows[0];
    assert_eq!(row1.len(), 10);
    assert_eq!(row1[0], "1");
    assert_eq!(
        row1[1],
        "201f1e1d1c1b1a191817161514131211100f0e0d0c0b0a090807060504030201"
    );
    assert_eq!(row1[2], "0");
    assert_eq!(row1[3], "100");
    assert_eq!(row1[4], "1");
    assert_eq!(row1[5], "100000000");
    assert_eq!(row1[6], "0");
    assert_eq!(row1[7], "aa".repeat(20));
    assert_eq!(row1[8], "p2pkh");
    assert_eq!(row1[9], hash160_to_address(&[0xaa; 20], 0x00));

    let row2 = &rows[1];
    assert_eq!(row2[0], "2");
    assert_eq!(row2[1], "ab".repeat(32));
    assert_eq!(row2[2], "7");
    assert_eq!(row2[3], "250000");
    assert_eq!(row2[4], "0");
    assert_eq!(row2[5], "1");
    assert_eq!(row2[6], "28");
    assert_eq!(
        row2[7],
        format!("0014{}", "751e76e8199196d454941c45d1b3a323f1433bd6")
    );
    assert_eq!(row2[8], "p2wpkh");
    assert_eq!(
        row2[9],
        segwit_address(
            0,
            &hex::decode("751e76e8199196d454941c45d1b3a323f1433bd6").unwrap(),
            false
        )
        .unwrap()
    );
}

#[test]
fn max_utxos_stops_after_exactly_that_many_rows() {
    let entries = synthetic_entries();
    let indices = FieldIndices::from_str(ALL_FIELDS);
    let width = num_fields(ALL_FIELDS);
    let rows = dump_entries(&entries, &indices, width, false, false, 1).unwrap();
    assert_eq!(rows.len(), 1);
    assert_eq!(rows[0][0], "1");
    let rows2 = dump_entries(&entries, &indices, width, false, false, 5).unwrap();
    assert_eq!(rows2.len(), 2);
}

#[test]
fn unselected_columns_stay_empty() {
    let entries = synthetic_entries();
    let fields = "txid,count";
    let indices = FieldIndices::from_str(fields);
    let width = num_fields(fields);
    let rows = dump_entries(&entries, &indices, width, false, false, 0).unwrap();
    assert_eq!(rows.len(), 2);
    assert_eq!(rows[0][1], "1");
    assert_eq!(
        rows[0][0],
        "201f1e1d1c1b1a191817161514131211100f0e0d0c0b0a090807060504030201"
    );
}

#[test]
fn process_entry_dispatches_on_prefix() {
    let indices = FieldIndices::from_str("count");
    let mut state = ScanState::new();
    // Unknown prefix: ignored.
    let r = state.process_entry(
        &ChainStateKey::new(vec![0x42]),
        &ChainStateValue::new(vec![]),
        &indices,
        1,
        false,
        false,
    );
    assert_eq!(r.unwrap(), None);
    assert_eq!(state.utxo_count, 0);
    // Sentinel captures the key.
    let r = state.process_entry(
        &ChainStateKey::new(vec![0x0e]),
        &ChainStateValue::new(vec![0x02, 0x55, 0x66]),
        &indices,
        1,
        false,
        false,
    );
    assert_eq!(r.unwrap(), None);
    assert_eq!(state.obfuscation_key, vec![0x55, 0x66]);
    // A UTXO entry produces a row and bumps the counter.
    let plain = record(1, false, 0, 77, &[]);
    let txid = [0u8; 32];
    let r = state.process_entry(
        &ChainStateKey::new(utxo_key(&txid, 3)),
        &ChainStateValue::new(xor_with(&plain, &[0x55, 0x66])),
        &indices,
        1,
        false,
        false,
    );
    let row = r.unwrap().unwrap();
    assert_eq!(row, vec!["1".to_string()]);
    assert_eq!(state.utxo_count, 1);
}

#[test]
fn short_utxo_key_is_malformed() {
    let indices = FieldIndices::from_str("count");
    let mut state = ScanState::new();
    let r = state.process_entry(
        &ChainStateKey::new(vec![0x43, 0x01, 0x02]),
        &ChainStateValue::new(vec![]),
        &indices,
        1,
        false,
        false,
    );
    assert_eq!(r.unwrap_err(), UtxoError::MalformedKey);
    assert_eq!(state.utxo_count, 0);
}

#[test]
fn empty_sentinel_value_is_malformed() {
    let indices = FieldIndices::from_str("count");
    let mut state = ScanState::new();
    let r = state.process_entry(
        &ChainStateKey::new(vec![0x0e]),
        &ChainStateValue::new(vec![]),
        &indices,
        1,
        false,
        false,
    );
    assert_eq!(r.unwrap_err(), UtxoError::MalformedObfuscationEntry);
    assert!(state.obfuscation_key.is_empty());
}

#[test]
fn truncated_record_aborts_scan() {
    let mut entries = synthetic_entries();
    // Corrupt the second UTXO value so its varints never terminate.
    let last = entries.len() - 1;
    entries[last].1 = xor_with(&[0xff, 0xff, 0xff], &OBF_KEY);
    let indices = FieldIndices::from_str(ALL_FIELDS);
    let width = num_fields(ALL_FIELDS);
    assert!(dump_entries(&entries, &indices, width, false, false, 0).is_err());
}
