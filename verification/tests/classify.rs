//! Script classification fixtures and rule precedence.

use btc_utxo_dump::utxo::{ScriptType, UtxoValue};

fn classify(nsize: u64, script: Vec<u8>) -> ScriptType {
    let utxo = UtxoValue { height: 0, coinbase: false, amount: 0, script_type: nsize, script };
    utxo.get_script_type()
}

#[test]
fn nsize_zero_is_p2pkh() {
    assert_eq!(classify(0, vec![0xaa; 20]), ScriptType::P2PKH);
}

#[test]
fn nsize_one_is_p2sh() {
    assert_eq!(classify(1, vec![0xbb; 20]), ScriptType::P2SH);
}

#[test]
fn nsize_two_to_five_is_p2pk() {
    for nsize in 2..=5u64 {
        assert_eq!(classify(nsize, vec![0x02; 33]), ScriptType::P2PK);
    }
}

#[test]
fn nsize_28_with_witness_v0_prefix_is_p2wpkh() {
    let mut script = vec![0x00, 0x14];
    script.extend_from_slice(&[0xcc; 20]);
    assert_eq!(classify(28, script), ScriptType::P2WPKH);
}

#[test]
fn nsize_40_with_witness_v0_prefix_is_p2wsh() {
    let mut script = vec![0x00, 0x20];
    script.extend_from_slice(&[0xdd; 32]);
    assert_eq!(classify(40, script), ScriptType::P2WSH);
}

#[test]
fn nsize_40_with_taproot_prefix_is_p2tr() {
    let mut script = vec![0x51, 0x20];
    script.extend_from_slice(&[0xee; 32]);
    assert_eq!(classify(40, script), ScriptType::P2TR);
}

#[test]
fn trailing_checkmultisig_with_unmatched_nsize_is_p2ms() {
    let script = vec![0x52, 0x21, 0x03, 0x52, 174];
    assert_eq!(classify(99, script), ScriptType::P2MS);
}

#[test]
fn anything_else_is_nonstandard() {
    assert_eq!(classify(99, vec![0x6a, 0x04, 0x01, 0x02]), ScriptType::NonStandard);
    assert_eq!(classify(28, vec![0x00, 0x20, 0x01]), ScriptType::NonStandard);
    assert_eq!(classify(40, vec![]), ScriptType::NonStandard);
}

#[test]
fn segwit_prefix_wins_over_trailing_multisig_opcode() {
    // A 40-code script with the P2WSH prefix that also ends in the multisig
    // opcode is classified by its prefix: the rule order is a tie-break.
    let mut script = vec![0x00, 0x20];
    script.extend_from_slice(&[0x11; 31]);
    script.push(174);
    assert_eq!(classify(40, script), ScriptType::P2WSH);
    // With a non-segwit nsize the same bytes fall through to P2MS.
    let mut script2 = vec![0x00, 0x20];
    script2.extend_from_slice(&[0x11; 31]);
    script2.push(174);
    assert_eq!(classify(39, script2), ScriptType::P2MS);
}

#[test]
fn script_type_names() {
    assert_eq!(ScriptType::P2PKH.name(), "p2pkh");
    assert_eq!(ScriptType::P2SH.name(), "p2sh");
    assert_eq!(ScriptType::P2PK.name(), "p2pk");
    assert_eq!(ScriptType::P2MS.name(), "p2ms");
    assert_eq!(ScriptType::P2WPKH.name(), "p2wpkh");
    assert_eq!(ScriptType::P2WSH.name(), "p2wsh");
    assert_eq!(ScriptType::P2TR.name(), "p2tr");
    assert_eq!(ScriptType::NonStandard.name(), "non-standard");
}
