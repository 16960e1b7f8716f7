//! Decoder for Bitcoin Core's on-disk chainstate database: the compact,
//! partially-obfuscated binary encoding of the unspent-transaction-output
//! (UTXO) set.
//!
//! The library reverses the storage encoding only: the chainstate's
//! non-standard base-128 varint, the reversible satoshi-amount compression,
//! the XOR value obfuscation, the record layout with its positional quirks,
//! script-type inference, and the two address-encoding schemes (Base58Check
//! and Bech32/Bech32m). Opening the underlying LevelDB store and writing CSV
//! output are left to the surrounding application.

pub mod address;
pub mod amount;
pub mod chainstate;
pub mod cli;
pub mod dump;
pub mod fields;
pub mod pubkey;
pub mod utxo;
pub mod varint;

use vstd::prelude::*;

verus! {

/// Why decoding a chainstate record failed. Any of these indicates a
/// corrupted database or an unsupported format version; the scan stops.
#[derive(Clone, Copy, Debug, PartialEq, Eq, Structural)]
pub enum UtxoError {
    /// A varint ran past the end of its buffer before a terminating byte.
    TruncatedVarint,
    /// A decoded integer does not fit the field it is stored in.
    ValueOverflow,
    /// A UTXO entry key is too short to hold a transaction id.
    MalformedKey,
    /// An obfuscation-key record has no length byte.
    MalformedObfuscationEntry,
    /// A compacted public key is shorter than 33 bytes.
    PubkeyTooShort,
    /// A compacted public key's X coordinate is not on the curve.
    InvalidPublicKey,
}

} // verus!
