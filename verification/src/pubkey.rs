//! Reconstruction of an uncompressed public key from the chainstate's
//! 33-byte compacted P2PK form (storage type 4: even Y, 5: odd Y).

use vstd::prelude::*;

verus! {

use crate::UtxoError;

/// The uncompressed SEC1 serialization (0x04, then X, then Y) of the
/// secp256k1 point whose compressed SEC1 serialization is the argument.
/// Computed by the secp256k1 library; only named here.
pub uninterp spec fn secp_uncompressed(compressed: Seq<u8>) -> Seq<u8>;

/// Whether the secp256k1 library accepts a 33-byte compressed SEC1 key:
/// exactly when its X coordinate is that of a curve point. Decided by the
/// library; only named here.
pub uninterp spec fn secp_accepts(compressed: Seq<u8>) -> bool;

/// The standard compressed SEC1 form a compacted chainstate key stands for:
/// storage prefix 5 means an odd Y (SEC1 prefix 3), any other an even Y
/// (SEC1 prefix 2), followed by the 32-byte X coordinate.
pub open spec fn compressed_form(stored: Seq<u8>) -> Seq<u8>
    recommends
        stored.len() >= 33,
{
    seq![
        if stored[0] == 5u8 {
            3u8
        } else {
            2u8
        },
    ] + stored.subrange(1, 33)
}

/// Relies on secp256k1::PublicKey::from_slice and
/// PublicKey::serialize_uncompressed: parsing a 33-byte key with a valid
/// SEC1 prefix fails exactly when the X coordinate is not a curve point's
/// (both steps depend on the bytes alone), and the uncompressed
/// serialization is 65 bytes — 0x04 followed by the same X coordinate and
/// the recovered Y.
#[verifier::external_body]
fn secp256k1_decompress(compressed: &Vec<u8>) -> (r: Option<Vec<u8>>)
    requires
        compressed@.len() == 33,
        compressed@[0] == 2 || compressed@[0] == 3,
    ensures
        r is Some <==> secp_accepts(compressed@),
        r matches Some(u) ==> u@ == secp_uncompressed(compressed@) && u@.len() == 65 && u@[0] == 4
            && u@.subrange(1, 33) == compressed@.subrange(1, 33),
{
    match secp256k1::PublicKey::from_slice(compressed.as_slice()) {
        Ok(pk) => Some(pk.serialize_uncompressed().to_vec()),
        Err(_) => None,
    }
}

/// Rebuilds the 65-byte uncompressed public key for a compacted P2PK script.
/// Byte 0 selects the Y parity, bytes 1..33 are the X coordinate; the rest
/// is ignored. Fails when fewer than 33 bytes are stored or the X coordinate
/// is not on the curve.
pub fn decompress_public_key(compressed: &[u8]) -> (r: Result<Vec<u8>, UtxoError>)
    ensures
        compressed@.len() < 33 ==> r == Result::<Vec<u8>, UtxoError>::Err(
            UtxoError::PubkeyTooShort,
        ),
        compressed@.len() >= 33 ==> (r is Ok <==> secp_accepts(compressed_form(compressed@))),
        r matches Err(e) ==> compressed@.len() >= 33 ==> e == UtxoError::InvalidPublicKey,
        r matches Ok(u) ==> compressed@.len() >= 33 && u@ == secp_uncompressed(
            compressed_form(compressed@),
        ) && u@.len() == 65 && u@[0] == 4 && u@.subrange(1, 33) == compressed@.subrange(1, 33),
{
    if compressed.len() < 33 {
        return Err(UtxoError::PubkeyTooShort);
    }
    let mut key: Vec<u8> = Vec::new();
    key.push(if compressed[0] == 5 {
        3
    } else {
        2
    });
    let x = &compressed[1..33];
    key.extend_from_slice(x);
    proof {
        assert(key@ =~= compressed_form(compressed@));
        assert(key@.subrange(1, 33) =~= compressed@.subrange(1, 33));
    }
    match secp256k1_decompress(&key) {
        Some(u) => Ok(u),
        None => Err(UtxoError::InvalidPublicKey),
    }
}

} // verus!
