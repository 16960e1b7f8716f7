//! The chainstate's non-standard base-128 variable-length integer.
//!
//! Each byte carries 7 data bits; the high bit is a continuation flag.
//! Unlike LEB128, every byte whose continuation bit is set adds 1 to the
//! accumulator, which removes redundant leading-zero encodings.

use vstd::prelude::*;

verus! {

use vstd::arithmetic::div_mod::lemma_fundamental_div_mod;

/// The 7 data bits of an encoded byte.
pub open spec fn low7(b: u8) -> nat {
    (b % 128) as nat
}

/// Whether the continuation (high) bit of an encoded byte is set.
pub open spec fn has_cont_bit(b: u8) -> bool {
    b >= 128
}

/// The integer a complete varint byte sequence stands for: each byte shifts
/// the accumulator left 7 bits and contributes its data bits, and each byte
/// with the continuation bit set adds 1.
pub open spec fn varint_value(bytes: Seq<u8>) -> nat
    decreases bytes.len(),
{
    if bytes.len() == 0 {
        0
    } else {
        let b = bytes.last();
        varint_value(bytes.drop_last()) * 128 + low7(b) + (if has_cont_bit(b) {
            1nat
        } else {
            0nat
        })
    }
}

/// The continuation-byte prefix a forward encoder emits for the carry `r`:
/// every byte has the continuation bit set.
pub open spec fn varint_encode_cont(r: nat) -> Seq<u8>
    decreases r,
{
    if r == 0 {
        Seq::empty()
    } else {
        varint_encode_cont((((r - 1) / 128) as nat)).push(((((r - 1) % 128) + 128) as u8))
    }
}

/// The byte sequence a correct forward varint encoder produces for `v`.
pub open spec fn varint_encode(v: nat) -> Seq<u8> {
    varint_encode_cont(v / 128).push(((v % 128) as u8))
}

/// Bridges the exec-level bit tests to the arithmetic spec.
proof fn lemma_byte_bits(b: u8)
    ensures
        (b & 0x7f) == b % 128,
        (b & 0x80 != 0) == (b >= 128),
{
    assert((b & 0x7f) == b % 128) by (bit_vector);
    assert((b & 0x80 != 0) == (b >= 128)) by (bit_vector);
}

/// A varint's value never shrinks as more bytes are appended.
proof fn lemma_varint_prefix_le(bytes: Seq<u8>, i: int)
    requires
        0 <= i <= bytes.len(),
    ensures
        varint_value(bytes.take(i)) <= varint_value(bytes),
    decreases bytes.len() - i,
{
    if i == bytes.len() {
        assert(bytes.take(i) =~= bytes);
    } else {
        assert(bytes.take(i + 1).drop_last() =~= bytes.take(i));
        assert(bytes.take(i + 1).last() == bytes[i]);
        assert(varint_value(bytes.take(i)) <= varint_value(bytes.take(i + 1)));
        lemma_varint_prefix_le(bytes, i + 1);
    }
}

/// Reads one varint from `data` starting at `offset`: returns the count of
/// bytes consumed (through the first byte whose continuation bit is clear,
/// inclusive) and those bytes. A count of 0 means the buffer was exhausted
/// before a terminating byte was found; the partial bytes are still returned.
pub fn varint128_read(data: &[u8], offset: usize) -> (r: (usize, Vec<u8>))
    requires
        offset <= data@.len(),
    ensures
        r.0 > 0 ==> {
            &&& offset + r.0 <= data@.len()
            &&& r.1@ =~= data@.subrange(offset as int, offset + r.0)
            &&& !has_cont_bit(data@[offset + r.0 - 1])
            &&& forall|j: int| offset <= j < offset + r.0 - 1 ==> has_cont_bit(data@[j])
        },
        r.0 == 0 ==> {
            &&& forall|j: int| offset <= j < data@.len() ==> has_cont_bit(data@[j])
            &&& r.1@ =~= data@.subrange(offset as int, data@.len() as int)
        },
{
    let mut result: Vec<u8> = Vec::new();
    let mut i: usize = offset;
    while i < data.len()
        invariant
            offset <= i <= data@.len(),
            result@ =~= data@.subrange(offset as int, i as int),
            forall|j: int| offset <= j < i ==> has_cont_bit(data@[j]),
        decreases data@.len() - i,
    {
        let byte = data[i];
        result.push(byte);
        proof {
            lemma_byte_bits(byte);
            assert(result@ =~= data@.subrange(offset as int, i + 1));
        }
        if byte & 0x80 == 0 {
            return (i + 1 - offset, result);
        }
        i += 1;
    }
    (0, result)
}

/// Decodes a complete varint byte sequence. The caller must know the value
/// fits an `i64`; `varint128_decode_checked` tests that at run time.
pub fn varint128_decode(bytes: &[u8]) -> (n: i64)
    requires
        varint_value(bytes@) <= i64::MAX,
    ensures
        n == varint_value(bytes@),
{
    let mut n: i64 = 0;
    let mut i: usize = 0;
    while i < bytes.len()
        invariant
            0 <= i <= bytes@.len(),
            n == varint_value(bytes@.take(i as int)),
            varint_value(bytes@) <= i64::MAX,
        decreases bytes@.len() - i,
    {
        let b = bytes[i];
        proof {
            lemma_byte_bits(b);
            assert(bytes@.take(i + 1).drop_last() =~= bytes@.take(i as int));
            assert(bytes@.take(i + 1).last() == b);
            lemma_varint_prefix_le(bytes@, i + 1);
        }
        n = n * 128 + ((b & 0x7f) as i64) + (if b & 0x80 != 0 {
            1i64
        } else {
            0i64
        });
        i += 1;
    }
    proof {
        assert(bytes@.take(bytes@.len() as int) =~= bytes@);
    }
    n
}

/// Decodes a complete varint byte sequence, reporting a value that does not
/// fit an `i64` as `None` instead of masking it.
pub fn varint128_decode_checked(bytes: &[u8]) -> (r: Option<i64>)
    ensures
        r matches Some(n) ==> n == varint_value(bytes@) && varint_value(bytes@) <= i64::MAX,
        r is None ==> varint_value(bytes@) > i64::MAX,
{
    let mut n: i64 = 0;
    let mut i: usize = 0;
    while i < bytes.len()
        invariant
            0 <= i <= bytes@.len(),
            n == varint_value(bytes@.take(i as int)),
        decreases bytes@.len() - i,
    {
        let b = bytes[i];
        let add: i64 = ((b & 0x7f) as i64) + (if b & 0x80 != 0 {
            1i64
        } else {
            0i64
        });
        proof {
            lemma_byte_bits(b);
            assert(bytes@.take(i + 1).drop_last() =~= bytes@.take(i as int));
            assert(bytes@.take(i + 1).last() == b);
            lemma_fundamental_div_mod(i64::MAX - add, 128);
        }
        if n > (i64::MAX - add) / 128 {
            proof {
                lemma_varint_prefix_le(bytes@, i + 1);
            }
            return None;
        }
        n = n * 128 + add;
        i += 1;
    }
    proof {
        assert(bytes@.take(bytes@.len() as int) =~= bytes@);
    }
    Some(n)
}

/// Every byte the forward encoder emits for the carry has the continuation
/// bit set, and the prefix decodes back to the carry.
proof fn lemma_varint_encode_cont_value(r: nat)
    ensures
        varint_value(varint_encode_cont(r)) == r,
        forall|j: int|
            0 <= j < varint_encode_cont(r).len() ==> has_cont_bit(varint_encode_cont(r)[j]),
    decreases r,
{
    if r > 0 {
        let q = ((r - 1) / 128) as nat;
        let m = (r - 1) % 128;
        lemma_varint_encode_cont_value(q);
        let b = ((m + 128) as u8);
        assert(0 <= m < 128);
        assert(b == m + 128);
        assert(low7(b) == m);
        assert(has_cont_bit(b));
        let s = varint_encode_cont(r);
        assert(s.drop_last() =~= varint_encode_cont(q));
        assert(s.last() == b);
        lemma_fundamental_div_mod(r - 1, 128);
        assert(varint_value(s) == q * 128 + m + 1);
    }
}

/// Law: the encoding is canonical for the reader — at least one byte, all
/// bytes but the last carry the continuation bit, and the last does not.
pub proof fn lemma_varint_encode_wf(v: nat)
    ensures
        varint_encode(v).len() >= 1,
        !has_cont_bit(varint_encode(v).last()),
        forall|j: int| 0 <= j < varint_encode(v).len() - 1 ==> has_cont_bit(varint_encode(v)[j]),
{
    lemma_varint_encode_cont_value(v / 128);
    let last = ((v % 128) as u8);
    assert(last == v % 128);
    assert(!has_cont_bit(last));
    assert(varint_encode(v).drop_last() =~= varint_encode_cont(v / 128));
}

/// Law: decoding inverts the forward varint encoder on every value.
pub proof fn lemma_varint_round_trip(v: nat)
    ensures
        varint_value(varint_encode(v)) == v,
{
    lemma_varint_encode_cont_value(v / 128);
    let s = varint_encode(v);
    let last = ((v % 128) as u8);
    assert(last == v % 128);
    assert(low7(last) == v % 128);
    assert(!has_cont_bit(last));
    assert(s.drop_last() =~= varint_encode_cont(v / 128));
    assert(s.last() == last);
    lemma_fundamental_div_mod(v as int, 128);
    assert(varint_value(s) == (v / 128) * 128 + v % 128);
}

} // verus!
