//! The caller-selected output columns: parsing the comma-separated field
//! list into per-column positions.
//!
//! The functions work on the UTF-8 bytes of the field string. A comma byte
//! only ever encodes the comma character, so splitting the bytes on 0x2c is
//! splitting the string on ','.

use vstd::prelude::*;

verus! {

use vstd::slice::slice_to_vec;
use vstd::string::StringSliceAdditionalSpecFns;

/// The comma byte, the token separator of the field list.
pub open spec fn is_comma(b: u8) -> bool {
    b == 44
}

/// The one-byte UTF-8 whitespace characters: tab, line feed, vertical tab,
/// form feed, carriage return, space.
pub open spec fn is_ws_byte1(b: u8) -> bool {
    b == 9 || b == 10 || b == 11 || b == 12 || b == 13 || b == 32
}

/// The two-byte UTF-8 whitespace encodings: next line (U+0085) and no-break
/// space (U+00A0).
pub open spec fn is_ws_bytes2(a: u8, b: u8) -> bool {
    a == 0xc2 && (b == 0x85 || b == 0xa0)
}

/// The three-byte UTF-8 whitespace encodings: ogham space mark (U+1680),
/// the typographic spaces U+2000 through U+200A, the line and paragraph
/// separators (U+2028, U+2029), narrow no-break space (U+202F), medium
/// mathematical space (U+205F) and ideographic space (U+3000).
pub open spec fn is_ws_bytes3(a: u8, b: u8, c: u8) -> bool {
    ||| (a == 0xe1 && b == 0x9a && c == 0x80)
    ||| (a == 0xe2 && b == 0x80 && (0x80 <= c <= 0x8a || c == 0xa8 || c == 0xa9 || c == 0xaf))
    ||| (a == 0xe2 && b == 0x81 && c == 0x9f)
    ||| (a == 0xe3 && b == 0x80 && c == 0x80)
}

/// The length of the UTF-8 whitespace encoding that starts `s`, or 0. The
/// three forms together encode exactly the characters of Unicode's
/// White_Space set — what `char::is_whitespace` accepts and `str::trim`
/// removes.
pub open spec fn ws_prefix_len(s: Seq<u8>) -> nat {
    if s.len() >= 1 && is_ws_byte1(s[0]) {
        1
    } else if s.len() >= 2 && is_ws_bytes2(s[0], s[1]) {
        2
    } else if s.len() >= 3 && is_ws_bytes3(s[0], s[1], s[2]) {
        3
    } else {
        0
    }
}

/// The length of the UTF-8 whitespace encoding that ends `s`, or 0. In
/// valid UTF-8 the lead bytes 0xc2, 0xe1, 0xe2 and 0xe3 never occur as
/// continuation bytes, so matching backwards from the end finds exactly the
/// final character.
pub open spec fn ws_suffix_len(s: Seq<u8>) -> nat {
    let n = s.len() as int;
    if s.len() >= 1 && is_ws_byte1(s[n - 1]) {
        1
    } else if s.len() >= 2 && is_ws_bytes2(s[n - 2], s[n - 1]) {
        2
    } else if s.len() >= 3 && is_ws_bytes3(s[n - 3], s[n - 2], s[n - 1]) {
        3
    } else {
        0
    }
}

/// The tokens of `s` split on commas: always one more token than there are
/// commas, and the empty input gives one empty token.
pub open spec fn split_commas(s: Seq<u8>) -> Seq<Seq<u8>>
    decreases s.len(),
{
    if s.len() == 0 {
        seq![Seq::<u8>::empty()]
    } else if is_comma(s[0]) {
        seq![Seq::<u8>::empty()] + split_commas(s.drop_first())
    } else {
        let rest = split_commas(s.drop_first());
        seq![seq![s[0]] + rest[0]] + rest.skip(1)
    }
}

/// A split with `pre` prepended to its first token.
pub open spec fn split_prepend(pre: Seq<u8>, sp: Seq<Seq<u8>>) -> Seq<Seq<u8>>
    recommends
        sp.len() > 0,
{
    seq![pre + sp[0]] + sp.skip(1)
}

pub proof fn lemma_split_nonempty(s: Seq<u8>)
    ensures
        split_commas(s).len() >= 1,
    decreases s.len(),
{
    if s.len() > 0 {
        lemma_split_nonempty(s.drop_first());
    }
}

/// `s` with leading whitespace characters removed.
pub open spec fn trim_start_bytes(s: Seq<u8>) -> Seq<u8>
    decreases s.len(),
{
    let p = ws_prefix_len(s);
    if p == 0 {
        s
    } else {
        trim_start_bytes(s.skip(p as int))
    }
}

/// `s` with trailing whitespace characters removed.
pub open spec fn trim_end_bytes(s: Seq<u8>) -> Seq<u8>
    decreases s.len(),
{
    let p = ws_suffix_len(s);
    if p == 0 {
        s
    } else {
        trim_end_bytes(s.take(s.len() - p))
    }
}

/// `s` with whitespace removed from both ends: on the UTF-8 bytes of a
/// string this is what `str::trim` does.
pub open spec fn trim_bytes(s: Seq<u8>) -> Seq<u8> {
    trim_end_bytes(trim_start_bytes(s))
}

/// The index of the first token equal to `name`, if any.
pub open spec fn token_position(tokens: Seq<Seq<u8>>, name: Seq<u8>) -> Option<int>
    decreases tokens.len(),
{
    if tokens.len() == 0 {
        None
    } else if tokens[0] == name {
        Some(0)
    } else {
        match token_position(tokens.drop_first(), name) {
            Option::None => None,
            Option::Some(i) => Some(1 + i),
        }
    }
}

/// The position of the column `name` in the comma-separated field list `s`
/// (token equality is exact, with no trimming, as the selection is).
pub open spec fn field_position(s: Seq<u8>, name: Seq<u8>) -> Option<int> {
    token_position(split_commas(s), name)
}

/// The ten supported column names.
pub open spec fn is_valid_field(t: Seq<u8>) -> bool {
    ||| t == "count".spec_bytes()
    ||| t == "txid".spec_bytes()
    ||| t == "vout".spec_bytes()
    ||| t == "height".spec_bytes()
    ||| t == "coinbase".spec_bytes()
    ||| t == "amount".spec_bytes()
    ||| t == "nsize".spec_bytes()
    ||| t == "script".spec_bytes()
    ||| t == "type".spec_bytes()
    ||| t == "address".spec_bytes()
}

/// An `Option<usize>` holding exactly the spec-level position.
pub open spec fn opt_pos(o: Option<usize>, p: Option<int>) -> bool {
    match (o, p) {
        (Option::None, Option::None) => true,
        (Option::Some(a), Option::Some(b)) => a == b,
        _ => false,
    }
}

/// Splits `bytes` on comma bytes.
pub(crate) fn split_commas_exec(bytes: &[u8]) -> (r: Vec<Vec<u8>>)
    ensures
        r.deep_view() == split_commas(bytes@),
{
    let mut tokens: Vec<Vec<u8>> = Vec::new();
    let mut cur: Vec<u8> = Vec::new();
    let mut i: usize = 0;
    proof {
        lemma_split_nonempty(bytes@);
        assert(bytes@.skip(0) =~= bytes@);
        assert(cur@ + split_commas(bytes@)[0] =~= split_commas(bytes@)[0]);
        assert(tokens.deep_view() + split_prepend(cur@, split_commas(bytes@.skip(0))) =~~= split_commas(
            bytes@,
        ));
    }
    while i < bytes.len()
        invariant
            0 <= i <= bytes@.len(),
            split_commas(bytes@.skip(i as int)).len() >= 1,
            split_commas(bytes@) =~~= tokens.deep_view() + split_prepend(
                cur@,
                split_commas(bytes@.skip(i as int)),
            ),
        decreases bytes@.len() - i,
    {
        let b = bytes[i];
        let ghost pre = bytes@.skip(i as int);
        let ghost post = bytes@.skip(i as int + 1);
        proof {
            lemma_split_nonempty(post);
            assert(pre.drop_first() =~= post);
            assert(pre[0] == b);
        }
        if b == 44 {
            let ghost old_tokens = tokens.deep_view();
            let ghost old_cur = cur@;
            tokens.push(cur);
            cur = Vec::new();
            proof {
                assert(split_commas(pre) =~~= seq![Seq::<u8>::empty()] + split_commas(post));
                assert(old_cur + split_commas(pre)[0] =~= old_cur);
                assert(split_prepend(old_cur, split_commas(pre)).skip(1) =~~= split_commas(post));
                assert(tokens.deep_view() =~~= old_tokens + seq![old_cur]);
                assert(cur@ + split_commas(post)[0] =~= split_commas(post)[0]);
                assert(split_prepend(cur@, split_commas(post)) =~~= split_commas(post));
                assert(old_tokens + split_prepend(old_cur, split_commas(pre)) =~~= tokens.deep_view()
                    + split_prepend(cur@, split_commas(post)));
            }
        } else {
            let ghost old_cur = cur@;
            cur.push(b);
            proof {
                assert(split_commas(pre) =~~= split_prepend(seq![b], split_commas(post)));
                assert(old_cur + split_prepend(seq![b], split_commas(post))[0] =~= cur@
                    + split_commas(post)[0]);
                assert(split_prepend(old_cur, split_commas(pre)) =~~= split_prepend(
                    cur@,
                    split_commas(post),
                ));
            }
        }
        i += 1;
    }
    let ghost old_tokens = tokens.deep_view();
    let ghost last_cur = cur@;
    tokens.push(cur);
    proof {
        assert(bytes@.skip(i as int) =~= Seq::<u8>::empty());
        assert(split_commas(Seq::<u8>::empty()) =~~= seq![Seq::<u8>::empty()]);
        assert(last_cur + Seq::<u8>::empty() =~= last_cur);
        assert(split_prepend(last_cur, split_commas(Seq::<u8>::empty())) =~~= seq![last_cur]);
        assert(tokens.deep_view() =~~= old_tokens + seq![last_cur]);
        assert(tokens.deep_view() =~~= split_commas(bytes@));
    }
    tokens
}

/// Exact byte-sequence equality.
pub(crate) fn bytes_eq(a: &[u8], b: &[u8]) -> (r: bool)
    ensures
        r == (a@ == b@),
{
    if a.len() != b.len() {
        return false;
    }
    let mut i: usize = 0;
    while i < a.len()
        invariant
            0 <= i <= a@.len(),
            a@.len() == b@.len(),
            forall|j: int| 0 <= j < i ==> a@[j] == b@[j],
        decreases a@.len() - i,
    {
        if a[i] != b[i] {
            return false;
        }
        i += 1;
    }
    proof {
        assert(a@ =~= b@);
    }
    true
}

fn is_ws1_exec(b: u8) -> (r: bool)
    ensures
        r == is_ws_byte1(b),
{
    b == 9 || b == 10 || b == 11 || b == 12 || b == 13 || b == 32
}

fn is_ws2_exec(a: u8, b: u8) -> (r: bool)
    ensures
        r == is_ws_bytes2(a, b),
{
    a == 0xc2 && (b == 0x85 || b == 0xa0)
}

fn is_ws3_exec(a: u8, b: u8, c: u8) -> (r: bool)
    ensures
        r == is_ws_bytes3(a, b, c),
{
    (a == 0xe1 && b == 0x9a && c == 0x80) || (a == 0xe2 && b == 0x80 && (0x80 <= c && c <= 0x8a
        || c == 0xa8 || c == 0xa9 || c == 0xaf)) || (a == 0xe2 && b == 0x81 && c == 0x9f) || (a
        == 0xe3 && b == 0x80 && c == 0x80)
}

/// The length of the whitespace character encoded at position `i`, or 0.
fn ws_prefix_at(t: &[u8], i: usize) -> (r: usize)
    requires
        i <= t@.len(),
    ensures
        r == ws_prefix_len(t@.skip(i as int)),
        i + r <= t@.len(),
{
    let n = t.len();
    proof {
        let s = t@.skip(i as int);
        if s.len() >= 1 {
            assert(s[0] == t@[i as int]);
        }
        if s.len() >= 2 {
            assert(s[1] == t@[i as int + 1]);
        }
        if s.len() >= 3 {
            assert(s[2] == t@[i as int + 2]);
        }
    }
    if n - i >= 1 && is_ws1_exec(t[i]) {
        1
    } else if n - i >= 2 && is_ws2_exec(t[i], t[i + 1]) {
        2
    } else if n - i >= 3 && is_ws3_exec(t[i], t[i + 1], t[i + 2]) {
        3
    } else {
        0
    }
}

/// The length of the whitespace character whose encoding ends just before
/// position `hi`, within `t[lo..hi]`, or 0.
fn ws_suffix_at(t: &[u8], lo: usize, hi: usize) -> (r: usize)
    requires
        lo <= hi <= t@.len(),
    ensures
        r == ws_suffix_len(t@.subrange(lo as int, hi as int)),
        r <= hi - lo,
{
    proof {
        let s = t@.subrange(lo as int, hi as int);
        if s.len() >= 1 {
            assert(s[s.len() - 1] == t@[hi as int - 1]);
        }
        if s.len() >= 2 {
            assert(s[s.len() - 2] == t@[hi as int - 2]);
        }
        if s.len() >= 3 {
            assert(s[s.len() - 3] == t@[hi as int - 3]);
        }
    }
    if hi - lo >= 1 && is_ws1_exec(t[hi - 1]) {
        1
    } else if hi - lo >= 2 && is_ws2_exec(t[hi - 2], t[hi - 1]) {
        2
    } else if hi - lo >= 3 && is_ws3_exec(t[hi - 3], t[hi - 2], t[hi - 1]) {
        3
    } else {
        0
    }
}

/// Trims whitespace from both ends of a token, as `str::trim` would.
pub(crate) fn trim_exec(t: &[u8]) -> (r: Vec<u8>)
    ensures
        r@ == trim_bytes(t@),
{
    let tlen = t.len();
    let mut lo: usize = 0;
    proof {
        assert(t@.skip(0) =~= t@);
    }
    let mut p = ws_prefix_at(t, 0);
    while p != 0
        invariant
            tlen == t@.len(),
            0 <= lo <= t@.len(),
            lo + p <= t@.len(),
            p == ws_prefix_len(t@.skip(lo as int)),
            trim_start_bytes(t@) == trim_start_bytes(t@.skip(lo as int)),
        decreases t@.len() - lo,
    {
        proof {
            assert(t@.skip(lo as int).skip(p as int) =~= t@.skip(lo as int + p as int));
        }
        lo += p;
        p = ws_prefix_at(t, lo);
    }
    proof {
        assert(trim_start_bytes(t@.skip(lo as int)) == t@.skip(lo as int));
        assert(trim_start_bytes(t@) == t@.skip(lo as int));
        assert(t@.skip(lo as int) =~= t@.subrange(lo as int, t@.len() as int));
    }
    let mut hi: usize = t.len();
    let mut q = ws_suffix_at(t, lo, hi);
    while q != 0
        invariant
            lo <= hi <= t@.len(),
            q <= hi - lo,
            q == ws_suffix_len(t@.subrange(lo as int, hi as int)),
            trim_start_bytes(t@) == t@.subrange(lo as int, t@.len() as int),
            trim_bytes(t@) == trim_end_bytes(t@.subrange(lo as int, hi as int)),
        decreases hi,
    {
        proof {
            let s = t@.subrange(lo as int, hi as int);
            assert(s.take(s.len() - q) =~= t@.subrange(lo as int, hi as int - q as int));
        }
        hi -= q;
        q = ws_suffix_at(t, lo, hi);
    }
    proof {
        assert(trim_end_bytes(t@.subrange(lo as int, hi as int)) == t@.subrange(
            lo as int,
            hi as int,
        ));
        assert(trim_bytes(t@) == t@.subrange(lo as int, hi as int));
    }
    let s = &t[lo..hi];
    slice_to_vec(s)
}

/// The scanned prefix holding no match pins the position down.
proof fn lemma_token_position_found(tokens: Seq<Seq<u8>>, name: Seq<u8>, i: int)
    requires
        0 <= i < tokens.len(),
        tokens[i] == name,
        forall|j: int| 0 <= j < i ==> tokens[j] != name,
    ensures
        token_position(tokens, name) == Some(i),
    decreases i,
{
    if i > 0 {
        lemma_token_position_found(tokens.drop_first(), name, i - 1);
    }
}

/// No token matching anywhere means no position.
proof fn lemma_token_position_absent(tokens: Seq<Seq<u8>>, name: Seq<u8>)
    requires
        forall|j: int| 0 <= j < tokens.len() ==> tokens[j] != name,
    ensures
        token_position(tokens, name) is None,
    decreases tokens.len(),
{
    if tokens.len() > 0 {
        lemma_token_position_absent(tokens.drop_first(), name);
    }
}

/// The index of the first token equal to `name`, if any.
fn position_of(tokens: &Vec<Vec<u8>>, name: &[u8]) -> (r: Option<usize>)
    ensures
        opt_pos(r, token_position(tokens.deep_view(), name@)),
{
    let mut i: usize = 0;
    while i < tokens.len()
        invariant
            0 <= i <= tokens@.len(),
            forall|j: int| 0 <= j < i ==> tokens.deep_view()[j] != name@,
        decreases tokens@.len() - i,
    {
        proof {
            assert(tokens.deep_view()[i as int] =~= tokens@[i as int]@);
        }
        if bytes_eq(tokens[i].as_slice(), name) {
            proof {
                lemma_token_position_found(tokens.deep_view(), name@, i as int);
            }
            return Some(i);
        }
        i += 1;
    }
    proof {
        lemma_token_position_absent(tokens.deep_view(), name@);
    }
    None
}

/// The number of comma-separated tokens in the field list: the width of
/// every output row.
pub fn num_fields(fields: &str) -> (r: usize)
    ensures
        r == split_commas(fields.spec_bytes()).len(),
{
    let tokens = split_commas_exec(fields.as_bytes());
    tokens.len()
}

/// Where each supported output column sits in the caller's field list, or
/// `None` for a column that was not selected.
pub struct FieldIndices {
    pub count: Option<usize>,
    pub txid: Option<usize>,
    pub vout: Option<usize>,
    pub height: Option<usize>,
    pub coinbase: Option<usize>,
    pub amount: Option<usize>,
    pub nsize: Option<usize>,
    pub script: Option<usize>,
    pub script_type: Option<usize>,
    pub address: Option<usize>,
}

impl FieldIndices {
    /// Locates every supported column in the comma-separated field list.
    /// Tokens are compared exactly, without trimming.
    pub fn from_str(fields: &str) -> (r: FieldIndices)
        ensures
            opt_pos(r.count, field_position(fields.spec_bytes(), "count".spec_bytes())),
            opt_pos(r.txid, field_position(fields.spec_bytes(), "txid".spec_bytes())),
            opt_pos(r.vout, field_position(fields.spec_bytes(), "vout".spec_bytes())),
            opt_pos(r.height, field_position(fields.spec_bytes(), "height".spec_bytes())),
            opt_pos(r.coinbase, field_position(fields.spec_bytes(), "coinbase".spec_bytes())),
            opt_pos(r.amount, field_position(fields.spec_bytes(), "amount".spec_bytes())),
            opt_pos(r.nsize, field_position(fields.spec_bytes(), "nsize".spec_bytes())),
            opt_pos(r.script, field_position(fields.spec_bytes(), "script".spec_bytes())),
            opt_pos(r.script_type, field_position(fields.spec_bytes(), "type".spec_bytes())),
            opt_pos(r.address, field_position(fields.spec_bytes(), "address".spec_bytes())),
    {
        let bytes = fields.as_bytes();
        let tokens = split_commas_exec(bytes);
        FieldIndices {
            count: position_of(&tokens, "count".as_bytes()),
            txid: position_of(&tokens, "txid".as_bytes()),
            vout: position_of(&tokens, "vout".as_bytes()),
            height: position_of(&tokens, "height".as_bytes()),
            coinbase: position_of(&tokens, "coinbase".as_bytes()),
            amount: position_of(&tokens, "amount".as_bytes()),
            nsize: position_of(&tokens, "nsize".as_bytes()),
            script: position_of(&tokens, "script".as_bytes()),
            script_type: position_of(&tokens, "type".as_bytes()),
            address: position_of(&tokens, "address".as_bytes()),
        }
    }

    /// Whether the selection requires decoding the record value at all.
    pub fn needs_utxo_parsing(&self) -> (r: bool)
        ensures
            r == (self.height is Some || self.coinbase is Some || self.amount is Some
                || self.nsize is Some || self.script is Some || self.script_type is Some
                || self.address is Some),
    {
        self.height.is_some() || self.coinbase.is_some() || self.amount.is_some()
            || self.nsize.is_some() || self.script.is_some() || self.script_type.is_some()
            || self.address.is_some()
    }

    /// Whether compacted P2PK keys must be decompressed: the script column
    /// always shows the decompressed key, the address column only when P2PK
    /// addresses are enabled.
    pub fn needs_decompression(&self, include_p2pk: bool) -> (r: bool)
        ensures
            r == (self.script is Some || (self.address is Some && include_p2pk)),
    {
        self.script.is_some() || (self.address.is_some() && include_p2pk)
    }
}

} // verus!
