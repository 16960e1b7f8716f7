//! The two address-encoding schemes: legacy Base58Check and segwit
//! Bech32/Bech32m.

use vstd::prelude::*;
use sha2::Digest;

verus! {

use crate::pubkey::secp_uncompressed;
use crate::utxo::ScriptType;
use vstd::slice::slice_to_vec;

/// The SHA-256 digest of the input. Computed by the sha2 library; only
/// named here.
pub uninterp spec fn sha256_of(data: Seq<u8>) -> Seq<u8>;

/// The RIPEMD-160 digest of the input. Computed by the ripemd library; only
/// named here.
pub uninterp spec fn ripemd160_of(data: Seq<u8>) -> Seq<u8>;

/// The base-58 rendering of the input under the Bitcoin alphabet. Computed
/// by the bs58 library; only named here.
pub uninterp spec fn base58_of(data: Seq<u8>) -> Seq<char>;

/// The Bech32 (witness version 0) or Bech32m (higher versions) segwit
/// address for a witness program on the chosen network. Computed by the
/// bitcoin_bech32 library; only named here.
pub uninterp spec fn bech32_address_of(version: u8, program: Seq<u8>, testnet: bool) -> Seq<char>;

/// A Base58Check rendering: the payload followed by the first four bytes of
/// its double SHA-256, all base58-encoded.
pub open spec fn base58check(payload: Seq<u8>) -> Seq<char> {
    base58_of(payload + sha256_of(sha256_of(payload)).take(4))
}

/// The constraints under which a witness program can be encoded as an
/// address: version at most 16, program 2 to 40 bytes, and for version 0
/// exactly a 20-byte key hash or a 32-byte script hash.
pub open spec fn valid_witness(version: u8, program_len: nat) -> bool {
    &&& version <= 16
    &&& 2 <= program_len <= 40
    &&& (version == 0 ==> program_len == 20 || program_len == 32)
}

/// Relies on sha2::Sha256 (Digest::digest): a 32-byte digest determined by
/// the input alone.
#[verifier::external_body]
fn sha256(data: &[u8]) -> (r: Vec<u8>)
    ensures
        r@ == sha256_of(data@),
        r@.len() == 32,
{
    sha2::Sha256::digest(data).to_vec()
}

/// Relies on ripemd::Ripemd160 (Digest::digest): a 20-byte digest determined
/// by the input alone.
#[verifier::external_body]
fn ripemd160(data: &[u8]) -> (r: Vec<u8>)
    ensures
        r@ == ripemd160_of(data@),
        r@.len() == 20,
{
    ripemd::Ripemd160::digest(data).to_vec()
}

/// Relies on bs58::encode with its default (Bitcoin) alphabet: the text is
/// determined by the input bytes alone.
#[verifier::external_body]
fn base58_encode(data: &[u8]) -> (r: String)
    ensures
        r@ == base58_of(data@),
{
    bs58::encode(data).into_string()
}

/// Relies on bitcoin_bech32::u5::try_from_u8, WitnessProgram::new and
/// to_address: construction succeeds exactly for witness versions up to 16
/// with programs of 2 to 40 bytes (20 or 32 bytes for version 0), and the
/// address text depends only on version, program and network.
#[verifier::external_body]
fn bech32_encode(version: u8, program: &Vec<u8>, testnet: bool) -> (r: Option<String>)
    ensures
        r is Some <==> valid_witness(version, program@.len()),
        r matches Some(s) ==> s@ == bech32_address_of(version, program@, testnet),
{
    let network = if testnet {
        bitcoin_bech32::constants::Network::Testnet
    } else {
        bitcoin_bech32::constants::Network::Bitcoin
    };
    let v5 = match bitcoin_bech32::u5::try_from_u8(version) {
        Ok(v) => v,
        Err(_) => return None,
    };
    match bitcoin_bech32::WitnessProgram::new(v5, program.clone(), network) {
        Ok(wp) => Some(wp.to_address()),
        Err(_) => None,
    }
}

/// Why no segwit address could be produced for a record.
#[derive(Clone, Copy, Debug, PartialEq, Eq, Structural)]
pub enum AddressError {
    /// The witness version or program length is outside the encodable range.
    InvalidWitnessProgram,
}

/// Encodes a 20-byte hash as a Base58Check address under the given network
/// version byte.
pub fn hash160_to_address(hash: &[u8], prefix: u8) -> (r: String)
    ensures
        r@ == base58check(seq![prefix] + hash@),
{
    let mut address: Vec<u8> = Vec::new();
    address.push(prefix);
    address.extend_from_slice(hash);
    let ghost payload = seq![prefix] + hash@;
    proof {
        assert(address@ =~= payload);
    }
    let d1 = sha256(address.as_slice());
    let d2 = sha256(d1.as_slice());
    let checksum = &d2.as_slice()[0..4];
    proof {
        assert(checksum@ =~= sha256_of(sha256_of(payload)).take(4));
    }
    address.extend_from_slice(checksum);
    proof {
        assert(address@ =~= payload + sha256_of(sha256_of(payload)).take(4));
    }
    base58_encode(address.as_slice())
}

/// Encodes a public key as a Base58Check address of its hash160
/// (RIPEMD-160 of SHA-256).
pub fn public_key_to_address(pubkey: &[u8], prefix: u8) -> (r: String)
    ensures
        r@ == base58check(seq![prefix] + ripemd160_of(sha256_of(pubkey@))),
{
    let d = sha256(pubkey);
    let h160 = ripemd160(d.as_slice());
    hash160_to_address(h160.as_slice(), prefix)
}

/// Encodes a witness program as a segwit address: Bech32 for version 0,
/// Bech32m for versions 1 through 16. Fails exactly when the version or
/// program length cannot be encoded.
pub fn segwit_address(version: u8, program: &[u8], testnet: bool) -> (r: Result<
    String,
    AddressError,
>)
    ensures
        r is Ok <==> valid_witness(version, program@.len()),
        r matches Ok(s) ==> s@ == bech32_address_of(version, program@, testnet),
{
    let prog = slice_to_vec(program);
    match bech32_encode(version, &prog, testnet) {
        Some(s) => Ok(s),
        None => Err(AddressError::InvalidWitnessProgram),
    }
}

/// The displayable address for a classified script, if the category has a
/// canonical form: Base58Check for P2PKH and P2SH (and P2PK when enabled,
/// over the key's hash160), a segwit address for P2WPKH, P2WSH and P2TR
/// (witness program: the script bytes past the two-byte prefix), and none
/// otherwise.
pub open spec fn spec_address(
    script_type: ScriptType,
    script: Seq<u8>,
    testnet: bool,
    p2pk_addresses: bool,
) -> Option<Seq<char>> {
    match script_type {
        ScriptType::P2PKH => Some(
            base58check(
                seq![
                    if testnet {
                        0x6fu8
                    } else {
                        0x00u8
                    },
                ] + script,
            ),
        ),
        ScriptType::P2SH => Some(
            base58check(
                seq![
                    if testnet {
                        0xc4u8
                    } else {
                        0x05u8
                    },
                ] + script,
            ),
        ),
        ScriptType::P2PK => if p2pk_addresses {
            Some(
                base58check(
                    seq![
                        if testnet {
                            0x6fu8
                        } else {
                            0x00u8
                        },
                    ] + ripemd160_of(sha256_of(script)),
                ),
            )
        } else {
            None
        },
        ScriptType::P2WPKH | ScriptType::P2WSH => if script.len() >= 2 && valid_witness(
            0,
            (script.len() - 2) as nat,
        ) {
            Some(bech32_address_of(0, script.skip(2), testnet))
        } else {
            None
        },
        ScriptType::P2TR => if script.len() >= 2 && valid_witness(1, (script.len() - 2) as nat) {
            Some(bech32_address_of(1, script.skip(2), testnet))
        } else {
            None
        },
        _ => None,
    }
}

} // verus!
