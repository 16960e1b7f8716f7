//! The decoded UTXO record and the inference of its script category.
//!
//! A deobfuscated value blob holds three varints — height and coinbase flag
//! packed together, the compressed amount, and the script type code — then
//! the script bytes. Type codes 2 through 5 store a compacted key whose
//! layout consumes one fewer length-prefix byte than the generic case, so
//! the script starts one byte earlier (a documented format quirk).

use vstd::prelude::*;

verus! {

use crate::UtxoError;
use crate::address::hash160_to_address;
use crate::address::public_key_to_address;
use crate::address::segwit_address;
use crate::address::spec_address;
use crate::amount::decompress_amount;
use crate::amount::decompress_value_checked;
use crate::pubkey::compressed_form;
use crate::pubkey::decompress_public_key;
use crate::pubkey::secp_accepts;
use crate::pubkey::secp_uncompressed;
use crate::varint::has_cont_bit;
use crate::varint::varint_value;
use crate::varint::varint128_decode_checked;
use crate::varint::varint128_read;
use vstd::slice::slice_to_vec;

/// The index just past the varint that starts at `off`, or `None` when the
/// buffer ends before a byte with a clear continuation bit.
pub open spec fn varint_end(data: Seq<u8>, off: int) -> Option<int>
    decreases data.len() - off,
{
    if off < 0 || off >= data.len() {
        None
    } else if !has_cont_bit(data[off]) {
        Some(off + 1)
    } else {
        varint_end(data, off + 1)
    }
}

/// The three header varints of a record and the script offset after the
/// compacted-P2PK rewind quirk, when all three varints terminate in the
/// buffer: (height and coinbase word, compressed amount, type code, offset).
pub open spec fn spec_layout(data: Seq<u8>) -> Option<(nat, nat, nat, int)> {
    match varint_end(data, 0) {
        Option::None => None,
        Option::Some(e1) => match varint_end(data, e1) {
            Option::None => None,
            Option::Some(e2) => match varint_end(data, e2) {
                Option::None => None,
                Option::Some(e3) => {
                    let v3 = varint_value(data.subrange(e2, e3));
                    Some(
                        (
                            varint_value(data.subrange(0, e1)),
                            varint_value(data.subrange(e1, e2)),
                            v3,
                            if 1 < v3 < 6 {
                                e3 - 1
                            } else {
                                e3
                            },
                        ),
                    )
                },
            },
        },
    }
}

/// The decoded integers fit the record's machine fields: the height in a
/// `u32`, the decompressed amount and type code in an `i64`.
pub open spec fn layout_fits(v1: nat, v2: nat, v3: nat) -> bool {
    &&& v1 / 2 <= u32::MAX
    &&& v1 <= i64::MAX
    &&& v2 <= i64::MAX
    &&& decompress_amount(v2) <= i64::MAX
    &&& v3 <= i64::MAX
}

/// A successful varint read pins down `varint_end`.
proof fn lemma_varint_end_from_read(data: Seq<u8>, off: int, end: int)
    requires
        0 <= off < end <= data.len(),
        !has_cont_bit(data[end - 1]),
        forall|j: int| off <= j < end - 1 ==> has_cont_bit(data[j]),
    ensures
        varint_end(data, off) == Some(end),
    decreases end - off,
{
    if off < end - 1 {
        lemma_varint_end_from_read(data, off + 1, end);
    }
}

/// A buffer with no terminating byte past `off` has no varint there.
proof fn lemma_varint_end_none(data: Seq<u8>, off: int)
    requires
        0 <= off,
        forall|j: int| off <= j < data.len() ==> has_cont_bit(data[j]),
    ensures
        varint_end(data, off) is None,
    decreases data.len() - off,
{
    if off < data.len() {
        lemma_varint_end_none(data, off + 1);
    }
}

/// The closed set of script categories a record can be classified into.
/// Derived from the type code and script bytes, never stored.
#[derive(Clone, Copy, Debug, PartialEq, Eq, Structural)]
pub enum ScriptType {
    P2PKH,
    P2SH,
    P2PK,
    P2MS,
    P2WPKH,
    P2WSH,
    P2TR,
    NonStandard,
}

impl ScriptType {
    /// The lowercase display name of the category.
    pub open spec fn spec_name(self) -> Seq<char> {
        match self {
            ScriptType::P2PKH => "p2pkh"@,
            ScriptType::P2SH => "p2sh"@,
            ScriptType::P2PK => "p2pk"@,
            ScriptType::P2MS => "p2ms"@,
            ScriptType::P2WPKH => "p2wpkh"@,
            ScriptType::P2WSH => "p2wsh"@,
            ScriptType::P2TR => "p2tr"@,
            ScriptType::NonStandard => "non-standard"@,
        }
    }

    pub fn name(&self) -> (r: String)
        ensures
            r@ == self.spec_name(),
    {
        match self {
            ScriptType::P2PKH => "p2pkh".to_owned(),
            ScriptType::P2SH => "p2sh".to_owned(),
            ScriptType::P2PK => "p2pk".to_owned(),
            ScriptType::P2MS => "p2ms".to_owned(),
            ScriptType::P2WPKH => "p2wpkh".to_owned(),
            ScriptType::P2WSH => "p2wsh".to_owned(),
            ScriptType::P2TR => "p2tr".to_owned(),
            ScriptType::NonStandard => "non-standard".to_owned(),
        }
    }
}

/// The ordered classification rules, first match wins: the fixed type codes,
/// then the segwit prefixes, then the trailing multisig opcode. A script
/// that matches a segwit prefix is classified by that prefix even when it
/// also ends in the multisig opcode — the order is a deliberate tie-break.
pub open spec fn spec_script_type(nsize: u64, script: Seq<u8>) -> ScriptType {
    if nsize == 0 {
        ScriptType::P2PKH
    } else if nsize == 1 {
        ScriptType::P2SH
    } else if 2 <= nsize && nsize <= 5 {
        ScriptType::P2PK
    } else if nsize == 28 && script.len() >= 2 && script[0] == 0x00 && script[1] == 0x14 {
        ScriptType::P2WPKH
    } else if nsize == 40 && script.len() >= 2 && script[0] == 0x00 && script[1] == 0x20 {
        ScriptType::P2WSH
    } else if nsize == 40 && script.len() >= 2 && script[0] == 0x51 && script[1] == 0x20 {
        ScriptType::P2TR
    } else if script.len() > 0 && script.last() == 174 {
        ScriptType::P2MS
    } else {
        ScriptType::NonStandard
    }
}

/// A decoded UTXO record.
#[derive(Debug)]
pub struct UtxoValue {
    /// Block height the output was created at.
    pub height: u32,
    /// Whether the creating transaction was a coinbase.
    pub coinbase: bool,
    /// The output's value in satoshis, decompressed exactly.
    pub amount: i64,
    /// The stored script type code ("nsize").
    pub script_type: u64,
    /// The script payload (possibly a decompressed public key).
    pub script: Vec<u8>,
}

impl UtxoValue {
    /// Decodes a deobfuscated value blob. `need_decompression` asks for the
    /// compacted P2PK key (type code 4 or 5) to be replaced by the 65-byte
    /// uncompressed public key — a cost gate, not a semantic switch.
    ///
    /// Decode failures are fatal for the record: a truncated varint, an
    /// integer that does not fit its field, or a bad compacted key.
    pub fn parse(data: &[u8], need_decompression: bool) -> (r: Result<UtxoValue, UtxoError>)
        ensures
            spec_layout(data@) is None ==> r == Result::<UtxoValue, UtxoError>::Err(
                UtxoError::TruncatedVarint,
            ),
            r matches Ok(rec) ==> spec_layout(data@) matches Some(l) && {
                &&& layout_fits(l.0, l.1, l.2)
                &&& rec.height == l.0 / 2
                &&& rec.coinbase == (l.0 % 2 == 1)
                &&& rec.amount == decompress_amount(l.1)
                &&& rec.script_type == l.2
                &&& ({
                    let base = data@.subrange(l.3, data@.len() as int);
                    if need_decompression && (l.2 == 4 || l.2 == 5) {
                        &&& base.len() >= 33
                        &&& secp_accepts(compressed_form(base))
                        &&& rec.script@ == secp_uncompressed(compressed_form(base))
                        &&& rec.script@.len() == 65
                        &&& rec.script@[0] == 4
                        &&& rec.script@.subrange(1, 33) == base.subrange(1, 33)
                    } else {
                        rec.script@ == base
                    }
                })
            },
            spec_layout(data@) matches Some(l) && !layout_fits(l.0, l.1, l.2) ==> r
                == Result::<UtxoValue, UtxoError>::Err(UtxoError::ValueOverflow),
            spec_layout(data@) matches Some(l) && layout_fits(l.0, l.1, l.2) && !(
            need_decompression && (l.2 == 4 || l.2 == 5)) ==> r is Ok,
            spec_layout(data@) matches Some(l) ==> layout_fits(l.0, l.1, l.2)
                && need_decompression && (l.2 == 4 || l.2 == 5) ==> {
                let base = data@.subrange(l.3, data@.len() as int);
                &&& (base.len() < 33 ==> r == Result::<UtxoValue, UtxoError>::Err(
                    UtxoError::PubkeyTooShort,
                ))
                &&& (base.len() >= 33 && !secp_accepts(compressed_form(base)) ==> r
                    == Result::<UtxoValue, UtxoError>::Err(UtxoError::InvalidPublicKey))
                &&& (base.len() >= 33 && secp_accepts(compressed_form(base)) ==> r is Ok)
            },
    {
        let dlen = data.len();
        let (n1, b1) = varint128_read(data, 0);
        if n1 == 0 {
            proof {
                lemma_varint_end_none(data@, 0);
            }
            return Err(UtxoError::TruncatedVarint);
        }
        let e1 = n1;
        proof {
            lemma_varint_end_from_read(data@, 0, e1 as int);
        }
        let (n2, b2) = varint128_read(data, e1);
        if n2 == 0 {
            proof {
                lemma_varint_end_none(data@, e1 as int);
            }
            return Err(UtxoError::TruncatedVarint);
        }
        proof {
            assert(e1 + n2 <= dlen);
        }
        let e2 = e1 + n2;
        proof {
            lemma_varint_end_from_read(data@, e1 as int, e2 as int);
        }
        let (n3, b3) = varint128_read(data, e2);
        if n3 == 0 {
            proof {
                lemma_varint_end_none(data@, e2 as int);
            }
            return Err(UtxoError::TruncatedVarint);
        }
        proof {
            assert(e2 + n3 <= dlen);
        }
        let e3 = e2 + n3;
        proof {
            lemma_varint_end_from_read(data@, e2 as int, e3 as int);
        }
        let ghost l = spec_layout(data@)->Some_0;
        let v1 = match varint128_decode_checked(b1.as_slice()) {
            Some(v) => v,
            None => {
                return Err(UtxoError::ValueOverflow);
            },
        };
        let v2 = match varint128_decode_checked(b2.as_slice()) {
            Some(v) => v,
            None => {
                return Err(UtxoError::ValueOverflow);
            },
        };
        let v3 = match varint128_decode_checked(b3.as_slice()) {
            Some(v) => v,
            None => {
                return Err(UtxoError::ValueOverflow);
            },
        };
        proof {
            assert(l.0 == v1 as nat);
            assert(l.1 == v2 as nat);
            assert(l.2 == v3 as nat);
        }
        let height64 = v1 / 2;
        if height64 > 0xffff_ffff {
            return Err(UtxoError::ValueOverflow);
        }
        let height = height64 as u32;
        let coinbase = v1 % 2 == 1;
        let amount = match decompress_value_checked(v2) {
            Some(a) => a,
            None => {
                return Err(UtxoError::ValueOverflow);
            },
        };
        let script_type = v3 as u64;
        let off = if 1 < v3 && v3 < 6 {
            e3 - 1
        } else {
            e3
        };
        proof {
            assert(off as int == l.3);
        }
        let tail = &data[off..data.len()];
        proof {
            assert(tail@ =~= data@.subrange(l.3, data@.len() as int));
        }
        let script = if need_decompression && (v3 == 4 || v3 == 5) {
            match decompress_public_key(tail) {
                Ok(s) => s,
                Err(e) => {
                    return Err(e);
                },
            }
        } else {
            slice_to_vec(tail)
        };
        Ok(
            UtxoValue {
                height,
                coinbase,
                amount,
                script_type,
                script,
            },
        )
    }

    /// Produces the displayable address for an already-classified script, or
    /// `None` when the category has no canonical address form, P2PK
    /// addresses are not enabled, or the witness program cannot be encoded.
    pub fn get_address_with_type(
        &self,
        script_type: ScriptType,
        testnet: bool,
        p2pk_addresses: bool,
    ) -> (r: Option<String>)
        requires
            (script_type == ScriptType::P2WPKH || script_type == ScriptType::P2WSH || script_type
                == ScriptType::P2TR) ==> self.script@.len() >= 2,
        ensures
            r is Some <==> spec_address(script_type, self.script@, testnet, p2pk_addresses)
                is Some,
            r matches Some(s) ==> spec_address(script_type, self.script@, testnet, p2pk_addresses)
                matches Some(t) && s@ == t,
    {
        match script_type {
            ScriptType::P2PKH => {
                let prefix: u8 = if testnet {
                    0x6f
                } else {
                    0x00
                };
                Some(hash160_to_address(self.script.as_slice(), prefix))
            },
            ScriptType::P2SH => {
                let prefix: u8 = if testnet {
                    0xc4
                } else {
                    0x05
                };
                Some(hash160_to_address(self.script.as_slice(), prefix))
            },
            ScriptType::P2PK => {
                if p2pk_addresses {
                    let prefix: u8 = if testnet {
                        0x6f
                    } else {
                        0x00
                    };
                    Some(public_key_to_address(self.script.as_slice(), prefix))
                } else {
                    None
                }
            },
            ScriptType::P2WPKH | ScriptType::P2WSH | ScriptType::P2TR => {
                let version: u8 = if matches!(script_type, ScriptType::P2TR) {
                    1
                } else {
                    0
                };
                let s = self.script.as_slice();
                let program = &s[2..s.len()];
                proof {
                    assert(program@ =~= self.script@.skip(2));
                }
                match segwit_address(version, program, testnet) {
                    Ok(addr) => Some(addr),
                    Err(_) => None,
                }
            },
            _ => None,
        }
    }

    /// Classifies the record's output script; see `spec_script_type` for the
    /// rule order.
    pub fn get_script_type(&self) -> (r: ScriptType)
        ensures
            r == spec_script_type(self.script_type, self.script@),
    {
        if self.script_type == 0 {
            ScriptType::P2PKH
        } else if self.script_type == 1 {
            ScriptType::P2SH
        } else if 2 <= self.script_type && self.script_type <= 5 {
            ScriptType::P2PK
        } else if self.script_type == 28 && self.script.len() >= 2 && self.script[0] == 0x00
            && self.script[1] == 0x14 {
            ScriptType::P2WPKH
        } else if self.script_type == 40 && self.script.len() >= 2 && self.script[0] == 0x00
            && self.script[1] == 0x20 {
            ScriptType::P2WSH
        } else if self.script_type == 40 && self.script.len() >= 2 && self.script[0] == 0x51
            && self.script[1] == 0x20 {
            ScriptType::P2TR
        } else if self.script.len() > 0 && self.script[self.script.len() - 1] == 174 {
            ScriptType::P2MS
        } else {
            ScriptType::NonStandard
        }
    }
}

} // verus!
