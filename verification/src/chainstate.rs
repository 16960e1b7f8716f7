//! Raw chainstate entries: the tagged keys, the obfuscated values, and the
//! XOR obfuscation layer.

use vstd::prelude::*;

verus! {

use crate::varint::varint_value;
use crate::varint::varint128_decode;
use crate::varint::varint128_decode_checked;

/// Byte-wise XOR of `v` against `k` repeated (cycled) to `v`'s length.
pub open spec fn xor_cycle(v: Seq<u8>, k: Seq<u8>) -> Seq<u8>
    recommends
        k.len() > 0,
{
    Seq::new(v.len(), |i: int| v[i] ^ k[i % k.len() as int])
}

/// The lowercase hexadecimal digits.
pub open spec fn hex_digits() -> Seq<char> {
    seq!['0', '1', '2', '3', '4', '5', '6', '7', '8', '9', 'a', 'b', 'c', 'd', 'e', 'f']
}

/// Lowercase hexadecimal of a byte sequence: two digits per byte, most
/// significant digit first.
pub open spec fn hex_seq(bytes: Seq<u8>) -> Seq<char> {
    Seq::new(
        bytes.len() * 2,
        |i: int|
            if i % 2 == 0 {
                hex_digits()[bytes[i / 2] as int / 16]
            } else {
                hex_digits()[bytes[i / 2] as int % 16]
            },
    )
}

/// Relies on hex::encode: lowercase hexadecimal, two digits per byte, most
/// significant digit first.
#[verifier::external_body]
pub(crate) fn hex_encode(bytes: &[u8]) -> (r: String)
    ensures
        r@ == hex_seq(bytes@),
{
    hex::encode(bytes)
}

/// A raw key from the chainstate store, tagged by its first byte: `0x43`
/// introduces a UTXO entry (32-byte little-endian txid, then a varint vout),
/// `0x0e` the obfuscation-key sentinel.
pub struct ChainStateKey(Vec<u8>);

impl View for ChainStateKey {
    type V = Seq<u8>;

    closed spec fn view(&self) -> Seq<u8> {
        self.0@
    }
}

impl ChainStateKey {
    pub fn new(data: Vec<u8>) -> (r: Self)
        ensures
            r@ == data@,
    {
        Self(data)
    }

    pub fn len(&self) -> (r: usize)
        ensures
            r == self@.len(),
    {
        self.0.len()
    }

    pub fn first_byte(&self) -> (r: u8)
        requires
            self@.len() >= 1,
        ensures
            r == self@[0],
    {
        self.0[0]
    }

    /// The transaction id as lowercase big-endian hex: bytes 1..33 of the
    /// key, reversed out of their little-endian storage order.
    pub fn txid(&self) -> (r: String)
        requires
            self@.len() >= 33,
        ensures
            r@ == hex_seq(self@.subrange(1, 33).reverse()),
    {
        let mut rev: Vec<u8> = Vec::new();
        let mut i: usize = 0;
        while i < 32
            invariant
                0 <= i <= 32,
                self@.len() >= 33,
                rev@.len() == i,
                forall|j: int| 0 <= j < i ==> rev@[j] == self@[32 - j],
            decreases 32 - i,
        {
            rev.push(self.0[32 - i]);
            i += 1;
        }
        proof {
            assert(rev@ =~= self@.subrange(1, 33).reverse());
        }
        hex_encode(rev.as_slice())
    }

    /// The output index: the varint that occupies the whole key past byte 33.
    /// The caller must know the value fits an `i64`; `vout_checked` tests
    /// that at run time.
    pub fn vout(&self) -> (r: i64)
        requires
            self@.len() >= 33,
            varint_value(self@.skip(33)) <= i64::MAX,
        ensures
            r == varint_value(self@.skip(33)),
    {
        let s = self.0.as_slice();
        let tail = &s[33..s.len()];
        proof {
            assert(tail@ =~= self@.skip(33));
        }
        varint128_decode(tail)
    }

    /// The output index, with an out-of-range value reported as `None`.
    pub fn vout_checked(&self) -> (r: Option<i64>)
        requires
            self@.len() >= 33,
        ensures
            r matches Some(v) ==> v == varint_value(self@.skip(33)) && varint_value(self@.skip(33))
                <= i64::MAX,
            r is None ==> varint_value(self@.skip(33)) > i64::MAX,
    {
        let s = self.0.as_slice();
        let tail = &s[33..s.len()];
        proof {
            assert(tail@ =~= self@.skip(33));
        }
        varint128_decode_checked(tail)
    }
}

/// A raw value from the chainstate store, still XOR-obfuscated.
pub struct ChainStateValue(Vec<u8>);

impl View for ChainStateValue {
    type V = Seq<u8>;

    closed spec fn view(&self) -> Seq<u8> {
        self.0@
    }
}

impl ChainStateValue {
    pub fn new(data: Vec<u8>) -> (r: Self)
        ensures
            r@ == data@,
    {
        Self(data)
    }

    pub fn as_bytes(&self) -> (r: &[u8])
        ensures
            r@ == self@,
    {
        self.0.as_slice()
    }

    /// XORs the value against `key` cycled to the value's length. With an
    /// empty key nothing can be cycled and the result is empty (the scan
    /// never reaches a UTXO value before the key sentinel, but an early call
    /// must not panic).
    pub fn deobfuscate(&self, key: &[u8]) -> (r: Vec<u8>)
        ensures
            key@.len() > 0 ==> r@ == xor_cycle(self@, key@),
            key@.len() == 0 ==> r@ == Seq::<u8>::empty(),
    {
        let mut out: Vec<u8> = Vec::new();
        if key.len() == 0 {
            return out;
        }
        let mut i: usize = 0;
        while i < self.0.len()
            invariant
                key@.len() > 0,
                0 <= i <= self@.len(),
                out@.len() == i,
                forall|j: int| 0 <= j < i ==> out@[j] == (self@[j] ^ key@[j % key@.len() as int]),
            decreases self@.len() - i,
        {
            out.push(self.0[i] ^ key[i % key.len()]);
            i += 1;
        }
        proof {
            assert(out@ =~= xor_cycle(self@, key@));
        }
        out
    }
}

/// Law: deobfuscation is self-inverse — applying the XOR stream twice with
/// the same non-empty key returns the original bytes.
pub proof fn lemma_deobfuscate_involutive(v: Seq<u8>, k: Seq<u8>)
    requires
        k.len() > 0,
    ensures
        xor_cycle(xor_cycle(v, k), k) == v,
{
    let w = xor_cycle(xor_cycle(v, k), k);
    assert forall|i: int| 0 <= i < v.len() implies w[i] == v[i] by {
        let b = v[i];
        let x = k[i % k.len() as int];
        assert((b ^ x) ^ x == b) by (bit_vector);
    }
    assert(w =~= v);
}

} // verus!
