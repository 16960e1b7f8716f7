//! The scan itself: one pass over the store's (key, value) pairs, threading
//! the write-once obfuscation key and the record counter through a small
//! state struct, and rendering each accepted UTXO entry as one row of
//! column strings.

use vstd::prelude::*;

verus! {

use crate::UtxoError;
use crate::amount::decompress_amount;
use crate::chainstate::ChainStateKey;
use crate::chainstate::ChainStateValue;
use crate::chainstate::hex_digits;
use crate::chainstate::hex_encode;
use crate::chainstate::hex_seq;
use crate::chainstate::xor_cycle;
use crate::address::spec_address;
use crate::fields::FieldIndices;
use crate::pubkey::compressed_form;
use crate::pubkey::secp_accepts;
use crate::pubkey::secp_uncompressed;
use crate::utxo::UtxoValue;
use crate::utxo::layout_fits;
use crate::utxo::spec_layout;
use crate::utxo::spec_script_type;
use crate::varint::varint_value;

/// The decimal digits of `n`, most significant first, with no sign and no
/// leading zeroes (a lone zero for 0).
pub open spec fn decimal_chars(n: nat) -> Seq<char>
    decreases n,
{
    if n < 10 {
        seq![hex_digits()[n as int]]
    } else {
        decimal_chars(n / 10) + seq![hex_digits()[(n % 10) as int]]
    }
}

fn digit_str(d: u64) -> (r: &'static str)
    requires
        d < 10,
    ensures
        r@ == seq![hex_digits()[d as int]],
{
    proof {
        reveal_strlit("0");
        reveal_strlit("1");
        reveal_strlit("2");
        reveal_strlit("3");
        reveal_strlit("4");
        reveal_strlit("5");
        reveal_strlit("6");
        reveal_strlit("7");
        reveal_strlit("8");
        reveal_strlit("9");
        assert("0"@ =~= seq![hex_digits()[0]]);
        assert("1"@ =~= seq![hex_digits()[1]]);
        assert("2"@ =~= seq![hex_digits()[2]]);
        assert("3"@ =~= seq![hex_digits()[3]]);
        assert("4"@ =~= seq![hex_digits()[4]]);
        assert("5"@ =~= seq![hex_digits()[5]]);
        assert("6"@ =~= seq![hex_digits()[6]]);
        assert("7"@ =~= seq![hex_digits()[7]]);
        assert("8"@ =~= seq![hex_digits()[8]]);
        assert("9"@ =~= seq![hex_digits()[9]]);
    }
    match d {
        0 => "0",
        1 => "1",
        2 => "2",
        3 => "3",
        4 => "4",
        5 => "5",
        6 => "6",
        7 => "7",
        8 => "8",
        _ => "9",
    }
}

/// Renders an unsigned integer in decimal.
pub fn u64_to_decimal(n: u64) -> (r: String)
    ensures
        r@ == decimal_chars(n as nat),
    decreases n,
{
    if n < 10 {
        digit_str(n).to_owned()
    } else {
        let mut s = u64_to_decimal(n / 10);
        s.append(digit_str(n % 10));
        s
    }
}

/// What a UTXO value decodes to once the obfuscation key is applied: with an
/// empty key nothing can be cycled and the plain bytes are empty.
pub open spec fn spec_plain(value: Seq<u8>, obf: Seq<u8>) -> Seq<u8> {
    if obf.len() > 0 {
        xor_cycle(value, obf)
    } else {
        Seq::empty()
    }
}

/// The record's final script bytes: the payload past the (possibly rewound)
/// script offset, with a compacted P2PK key replaced by its decompressed
/// form when that was requested.
pub open spec fn spec_script(plain: Seq<u8>, need: bool) -> Seq<u8>
    recommends
        spec_layout(plain) is Some,
{
    let l = spec_layout(plain)->Some_0;
    let base = plain.subrange(l.3, plain.len() as int);
    if need && (l.2 == 4 || l.2 == 5) {
        secp_uncompressed(compressed_form(base))
    } else {
        base
    }
}

/// Whether the selection forces the record value to be decoded.
pub open spec fn spec_needs_parsing(ind: FieldIndices) -> bool {
    ind.height is Some || ind.coinbase is Some || ind.amount is Some || ind.nsize is Some
        || ind.script is Some || ind.script_type is Some || ind.address is Some
}

/// Whether compacted P2PK keys are decompressed for the selection.
pub open spec fn spec_needs_decompression(ind: FieldIndices, include_p2pk: bool) -> bool {
    ind.script is Some || (ind.address is Some && include_p2pk)
}

/// The text of cell `j` of a UTXO row. A position claimed by several
/// columns goes to the column written last (count, then address, type,
/// script, nsize, amount, coinbase, height, vout, txid); an unclaimed cell
/// is empty.
pub open spec fn spec_cell(
    j: usize,
    ind: FieldIndices,
    key: Seq<u8>,
    plain: Seq<u8>,
    need: bool,
    testnet: bool,
    include_p2pk: bool,
    count: nat,
) -> Seq<char> {
    let l = spec_layout(plain)->Some_0;
    let script = spec_script(plain, need);
    let stype = spec_script_type(l.2 as u64, script);
    if ind.count == Some(j) {
        decimal_chars(count)
    } else if ind.address == Some(j) {
        match spec_address(stype, script, testnet, include_p2pk) {
            Option::Some(a) => a,
            Option::None => Seq::empty(),
        }
    } else if ind.script_type == Some(j) {
        stype.spec_name()
    } else if ind.script == Some(j) {
        hex_seq(script)
    } else if ind.nsize == Some(j) {
        decimal_chars(l.2)
    } else if ind.amount == Some(j) {
        decimal_chars(decompress_amount(l.1))
    } else if ind.coinbase == Some(j) {
        if l.0 % 2 == 1 {
            "1"@
        } else {
            "0"@
        }
    } else if ind.height == Some(j) {
        decimal_chars(l.0 / 2)
    } else if ind.vout == Some(j) {
        decimal_chars(varint_value(key.skip(33)))
    } else if ind.txid == Some(j) {
        hex_seq(key.subrange(1, 33).reverse())
    } else {
        Seq::empty()
    }
}

fn opt_is(o: Option<usize>, j: usize) -> (r: bool)
    ensures
        r == (o == Some(j)),
{
    match o {
        Some(p) => p == j,
        None => false,
    }
}

/// The key prefix byte that introduces a UTXO entry.
pub const UTXO_PREFIX: u8 = 0x43;

/// The key prefix byte of the obfuscation-key sentinel record.
pub const OBFUSCATION_KEY_PREFIX: u8 = 0x0e;

/// The mutable state a single scan threads along: the obfuscation key
/// captured from the sentinel record, and the 1-based UTXO counter.
pub struct ScanState {
    /// The obfuscation key, empty until the sentinel record is seen.
    pub obfuscation_key: Vec<u8>,
    /// How many UTXO rows have been produced.
    pub utxo_count: u64,
}

impl ScanState {
    pub fn new() -> (r: ScanState)
        ensures
            r.obfuscation_key@ == Seq::<u8>::empty(),
            r.utxo_count == 0,
    {
        ScanState { obfuscation_key: Vec::new(), utxo_count: 0 }
    }

    /// Consumes one (key, value) pair of the scan. An entry with an unknown
    /// prefix is ignored; the sentinel replaces the obfuscation key; a UTXO
    /// entry is decoded and rendered as one row of `field_count` cells laid
    /// out by `indices`. Decode failures leave the state unchanged and are
    /// fatal for the scan.
    #[verifier::loop_isolation(false)]
    pub fn process_entry(
        &mut self,
        key: &ChainStateKey,
        value: &ChainStateValue,
        indices: &FieldIndices,
        field_count: usize,
        testnet: bool,
        include_p2pk: bool,
    ) -> (r: Result<Option<Vec<String>>, UtxoError>)
        requires
            old(self).utxo_count < u64::MAX,
        ensures
            key@.len() == 0 || (key@[0] != UTXO_PREFIX && key@[0] != OBFUSCATION_KEY_PREFIX) ==> r
                == Result::<Option<Vec<String>>, UtxoError>::Ok(None) && *final(self) == *old(
                self,
            ),
            key@.len() > 0 && key@[0] == OBFUSCATION_KEY_PREFIX ==> {
                &&& value@.len() == 0 ==> r == Result::<Option<Vec<String>>, UtxoError>::Err(
                    UtxoError::MalformedObfuscationEntry,
                ) && *final(self) == *old(self)
                &&& value@.len() > 0 ==> r == Result::<Option<Vec<String>>, UtxoError>::Ok(None)
                    && final(self).obfuscation_key@ == value@.skip(1) && final(self).utxo_count
                    == old(self).utxo_count
            },
            key@.len() > 0 && key@[0] == UTXO_PREFIX ==> {
                &&& key@.len() < 33 ==> r == Result::<Option<Vec<String>>, UtxoError>::Err(
                    UtxoError::MalformedKey,
                )
                &&& r is Err ==> *final(self) == *old(self)
                &&& key@.len() >= 33 ==> match spec_utxo_error(
                    key@,
                    value@,
                    old(self).obfuscation_key@,
                    *indices,
                    include_p2pk,
                ) {
                    Option::Some(e) => r == Result::<Option<Vec<String>>, UtxoError>::Err(e),
                    Option::None => (r matches Ok(Some(row)) && ({
                        &&& final(self).utxo_count == old(self).utxo_count + 1
                        &&& final(self).obfuscation_key@ == old(self).obfuscation_key@
                        &&& row@.len() == field_count
                        &&& forall|j: usize|
                            0 <= j < field_count ==> #[trigger] row@[j as int]@ == spec_cell(
                                j,
                                *indices,
                                key@,
                                spec_plain(value@, old(self).obfuscation_key@),
                                spec_needs_decompression(*indices, include_p2pk),
                                testnet,
                                include_p2pk,
                                (old(self).utxo_count + 1) as nat,
                            )
                    })),
                }
            },
    {
        if key.len() == 0 {
            return Ok(None);
        }
        let fb = key.first_byte();
        if fb == OBFUSCATION_KEY_PREFIX {
            let vb = value.as_bytes();
            if vb.len() == 0 {
                return Err(UtxoError::MalformedObfuscationEntry);
            }
            let tail = &vb[1..vb.len()];
            proof {
                assert(tail@ =~= value@.skip(1));
            }
            self.obfuscation_key = vstd::slice::slice_to_vec(tail);
            return Ok(None);
        }
        if fb != UTXO_PREFIX {
            return Ok(None);
        }
        if key.len() < 33 {
            return Err(UtxoError::MalformedKey);
        }
        let new_count = self.utxo_count + 1;
        let ghost plain_spec = spec_plain(value@, self.obfuscation_key@);
        let ghost need_spec = spec_needs_decompression(*indices, include_p2pk);

        let txid_cell: Option<String> = if indices.txid.is_some() {
            Some(key.txid())
        } else {
            None
        };
        let vout_cell: Option<String> = if indices.vout.is_some() {
            match key.vout_checked() {
                Some(v) => Some(u64_to_decimal(v as u64)),
                None => {
                    return Err(UtxoError::ValueOverflow);
                },
            }
        } else {
            None
        };
        let mut height_cell: Option<String> = None;
        let mut coinbase_cell: Option<String> = None;
        let mut amount_cell: Option<String> = None;
        let mut nsize_cell: Option<String> = None;
        let mut script_cell: Option<String> = None;
        let mut type_cell: Option<String> = None;
        let mut address_cell: Option<String> = None;
        if indices.needs_utxo_parsing() {
            let plain = value.deobfuscate(self.obfuscation_key.as_slice());
            proof {
                assert(plain@ == plain_spec);
            }
            let need = indices.needs_decompression(include_p2pk);
            let utxo = match UtxoValue::parse(plain.as_slice(), need) {
                Ok(u) => u,
                Err(e) => {
                    return Err(e);
                },
            };
            proof {
                assert(utxo.script@ == spec_script(plain_spec, need_spec));
            }
            if indices.height.is_some() {
                height_cell = Some(u64_to_decimal(utxo.height as u64));
            }
            if indices.coinbase.is_some() {
                coinbase_cell = Some(
                    if utxo.coinbase {
                        "1".to_owned()
                    } else {
                        "0".to_owned()
                    },
                );
            }
            if indices.amount.is_some() {
                amount_cell = Some(u64_to_decimal(utxo.amount as u64));
            }
            if indices.nsize.is_some() {
                nsize_cell = Some(u64_to_decimal(utxo.script_type));
            }
            if indices.script.is_some() {
                script_cell = Some(hex_encode(utxo.script.as_slice()));
            }
            if indices.script_type.is_some() || indices.address.is_some() {
                let stype = utxo.get_script_type();
                if indices.script_type.is_some() {
                    type_cell = Some(stype.name());
                }
                if indices.address.is_some() {
                    address_cell = Some(
                        match utxo.get_address_with_type(stype, testnet, include_p2pk) {
                            Some(a) => a,
                            None => String::new(),
                        },
                    );
                }
            }
        }
        let count_cell: Option<String> = if indices.count.is_some() {
            Some(u64_to_decimal(new_count))
        } else {
            None
        };

        let mut row: Vec<String> = Vec::new();
        let mut j: usize = 0;
        while j < field_count
            invariant
                0 <= j <= field_count,
                row@.len() == j,
                forall|j2: usize|
                    0 <= j2 < j ==> #[trigger] row@[j2 as int]@ == spec_cell(
                        j2,
                        *indices,
                        key@,
                        plain_spec,
                        need_spec,
                        testnet,
                        include_p2pk,
                        new_count as nat,
                    ),
            decreases field_count - j,
        {
            let cell: String = if opt_is(indices.count, j) {
                match &count_cell {
                    Some(s) => s.clone(),
                    None => String::new(),
                }
            } else if opt_is(indices.address, j) {
                match &address_cell {
                    Some(s) => s.clone(),
                    None => String::new(),
                }
            } else if opt_is(indices.script_type, j) {
                match &type_cell {
                    Some(s) => s.clone(),
                    None => String::new(),
                }
            } else if opt_is(indices.script, j) {
                match &script_cell {
                    Some(s) => s.clone(),
                    None => String::new(),
                }
            } else if opt_is(indices.nsize, j) {
                match &nsize_cell {
                    Some(s) => s.clone(),
                    None => String::new(),
                }
            } else if opt_is(indices.amount, j) {
                match &amount_cell {
                    Some(s) => s.clone(),
                    None => String::new(),
                }
            } else if opt_is(indices.coinbase, j) {
                match &coinbase_cell {
                    Some(s) => s.clone(),
                    None => String::new(),
                }
            } else if opt_is(indices.height, j) {
                match &height_cell {
                    Some(s) => s.clone(),
                    None => String::new(),
                }
            } else if opt_is(indices.vout, j) {
                match &vout_cell {
                    Some(s) => s.clone(),
                    None => String::new(),
                }
            } else if opt_is(indices.txid, j) {
                match &txid_cell {
                    Some(s) => s.clone(),
                    None => String::new(),
                }
            } else {
                String::new()
            };
            row.push(cell);
            j += 1;
        }
        self.utxo_count = new_count;
        Ok(Some(row))
    }
}

/// The first failure a UTXO entry meets, in the order the scan checks: an
/// out-of-range output index when that column is selected, then the record
/// decode in layout order — a truncated varint, a value that does not fit
/// its field, a bad compacted public key — or `None` when a row is owed.
pub open spec fn spec_utxo_error(
    key: Seq<u8>,
    value: Seq<u8>,
    obf: Seq<u8>,
    ind: FieldIndices,
    include_p2pk: bool,
) -> Option<UtxoError>
    recommends
        key.len() >= 33,
{
    let plain = spec_plain(value, obf);
    let need = spec_needs_decompression(ind, include_p2pk);
    if ind.vout is Some && varint_value(key.skip(33)) > i64::MAX {
        Some(UtxoError::ValueOverflow)
    } else if !spec_needs_parsing(ind) {
        None
    } else {
        match spec_layout(plain) {
            Option::None => Some(UtxoError::TruncatedVarint),
            Option::Some(l) => {
                let base = plain.subrange(l.3, plain.len() as int);
                if !layout_fits(l.0, l.1, l.2) {
                    Some(UtxoError::ValueOverflow)
                } else if need && (l.2 == 4 || l.2 == 5) {
                    if base.len() < 33 {
                        Some(UtxoError::PubkeyTooShort)
                    } else if !secp_accepts(compressed_form(base)) {
                        Some(UtxoError::InvalidPublicKey)
                    } else {
                        None
                    }
                } else {
                    None
                }
            },
        }
    }
}

/// The full row a UTXO entry produces, cell by cell.
pub open spec fn spec_row(
    ind: FieldIndices,
    key: Seq<u8>,
    plain: Seq<u8>,
    need: bool,
    testnet: bool,
    include_p2pk: bool,
    count: nat,
    field_count: usize,
) -> Seq<Seq<char>> {
    Seq::new(
        field_count as nat,
        |j: int| spec_cell(j as usize, ind, key, plain, need, testnet, include_p2pk, count),
    )
}

/// The whole scan at the spec level, folded entry by entry: prefix dispatch,
/// the obfuscation key replaced by each sentinel, the 1-based row counter,
/// the stop after exactly `max` rows when `max` is nonzero — or the first
/// decode failure.
pub open spec fn spec_scan(
    entries: Seq<(Vec<u8>, Vec<u8>)>,
    ind: FieldIndices,
    field_count: usize,
    testnet: bool,
    include_p2pk: bool,
    max: u64,
    obf: Seq<u8>,
    count: nat,
) -> Result<Seq<Seq<Seq<char>>>, UtxoError>
    decreases entries.len(),
{
    if entries.len() == 0 {
        Ok(Seq::empty())
    } else {
        let key = entries[0].0@;
        let value = entries[0].1@;
        let rest = entries.drop_first();
        if key.len() == 0 || (key[0] != UTXO_PREFIX && key[0] != OBFUSCATION_KEY_PREFIX) {
            spec_scan(rest, ind, field_count, testnet, include_p2pk, max, obf, count)
        } else if key[0] == OBFUSCATION_KEY_PREFIX {
            if value.len() == 0 {
                Err(UtxoError::MalformedObfuscationEntry)
            } else {
                spec_scan(rest, ind, field_count, testnet, include_p2pk, max, value.skip(1), count)
            }
        } else if key.len() < 33 {
            Err(UtxoError::MalformedKey)
        } else {
            match spec_utxo_error(key, value, obf, ind, include_p2pk) {
                Option::Some(e) => Err(e),
                Option::None => {
                    let row = spec_row(
                        ind,
                        key,
                        spec_plain(value, obf),
                        spec_needs_decompression(ind, include_p2pk),
                        testnet,
                        include_p2pk,
                        count + 1,
                        field_count,
                    );
                    if max > 0 && count + 1 >= max {
                        Ok(seq![row])
                    } else {
                        match spec_scan(
                            rest,
                            ind,
                            field_count,
                            testnet,
                            include_p2pk,
                            max,
                            obf,
                            count + 1,
                        ) {
                            Result::Ok(rows) => Ok(seq![row] + rows),
                            Result::Err(e) => Err(e),
                        }
                    }
                },
            }
        }
    }
}

/// Runs the whole pipeline over an in-order sequence of raw (key, value)
/// pairs, as the store's iterator yields them: the sentinel entry sets the
/// obfuscation key, each UTXO entry becomes one row, anything else is
/// ignored. With a nonzero `max_utxos` the scan stops after producing
/// exactly that many rows. The first decode failure aborts the scan.
pub fn dump_entries(
    entries: &Vec<(Vec<u8>, Vec<u8>)>,
    indices: &FieldIndices,
    field_count: usize,
    testnet: bool,
    include_p2pk: bool,
    max_utxos: u64,
) -> (r: Result<Vec<Vec<String>>, UtxoError>)
    ensures
        ({
            let folded = spec_scan(
                entries@,
                *indices,
                field_count,
                testnet,
                include_p2pk,
                max_utxos,
                Seq::<u8>::empty(),
                0,
            );
            &&& (r matches Ok(rows) ==> folded == Result::<Seq<Seq<Seq<char>>>, UtxoError>::Ok(
                rows.deep_view(),
            ))
            &&& (r matches Err(e) ==> folded == Result::<Seq<Seq<Seq<char>>>, UtxoError>::Err(e))
        }),
{
    let ghost folded = spec_scan(
        entries@,
        *indices,
        field_count,
        testnet,
        include_p2pk,
        max_utxos,
        Seq::<u8>::empty(),
        0,
    );
    let mut state = ScanState::new();
    let mut rows: Vec<Vec<String>> = Vec::new();
    let mut i: usize = 0;
    proof {
        assert(entries@.skip(0) =~= entries@);
        assert(rows.deep_view() =~~= Seq::<Seq<Seq<char>>>::empty());
        if folded is Ok {
            assert(rows.deep_view() + folded->Ok_0 =~~= folded->Ok_0);
        }
    }
    while i < entries.len()
        invariant
            0 <= i <= entries@.len(),
            state.utxo_count == rows@.len(),
            max_utxos > 0 ==> rows@.len() < max_utxos,
            rows@.len() <= i,
            folded == spec_scan(
                entries@,
                *indices,
                field_count,
                testnet,
                include_p2pk,
                max_utxos,
                Seq::<u8>::empty(),
                0,
            ),
            ({
                match spec_scan(
                    entries@.skip(i as int),
                    *indices,
                    field_count,
                    testnet,
                    include_p2pk,
                    max_utxos,
                    state.obfuscation_key@,
                    state.utxo_count as nat,
                ) {
                    Result::Ok(rest) => folded == Result::<Seq<Seq<Seq<char>>>, UtxoError>::Ok(
                        rows.deep_view() + rest,
                    ),
                    Result::Err(e) => folded == Result::<Seq<Seq<Seq<char>>>, UtxoError>::Err(e),
                }
            }),
        decreases entries@.len() - i,
    {
        let ghost pre_obf = state.obfuscation_key@;
        let ghost pre_count = state.utxo_count as nat;
        let ghost pre_rows = rows.deep_view();
        proof {
            assert(entries@.skip(i as int)[0] == entries@[i as int]);
            assert(entries@.skip(i as int).drop_first() =~= entries@.skip(i as int + 1));
        }
        let key = ChainStateKey::new(entries[i].0.clone());
        let value = ChainStateValue::new(entries[i].1.clone());
        match state.process_entry(&key, &value, indices, field_count, testnet, include_p2pk) {
            Ok(Some(row)) => {
                let ghost rowspec = spec_row(
                    *indices,
                    entries@[i as int].0@,
                    spec_plain(entries@[i as int].1@, pre_obf),
                    spec_needs_decompression(*indices, include_p2pk),
                    testnet,
                    include_p2pk,
                    pre_count + 1,
                    field_count,
                );
                proof {
                    assert forall|k: int| 0 <= k < field_count implies row.deep_view()[k]
                        == rowspec[k] by {
                        let j = k as usize;
                        assert(row@[j as int]@ == spec_cell(
                            j,
                            *indices,
                            entries@[i as int].0@,
                            spec_plain(entries@[i as int].1@, pre_obf),
                            spec_needs_decompression(*indices, include_p2pk),
                            testnet,
                            include_p2pk,
                            pre_count + 1,
                        ));
                    }
                    assert(row.deep_view() =~~= rowspec);
                }
                rows.push(row);
                proof {
                    assert(rows.deep_view() =~~= pre_rows.push(rowspec));
                    assert(pre_rows + seq![rowspec] =~~= rows.deep_view());
                    let next = spec_scan(
                        entries@.skip(i as int + 1),
                        *indices,
                        field_count,
                        testnet,
                        include_p2pk,
                        max_utxos,
                        pre_obf,
                        pre_count + 1,
                    );
                    if next is Ok {
                        assert(pre_rows + (seq![rowspec] + next->Ok_0) =~~= rows.deep_view()
                            + next->Ok_0);
                    }
                }
                if max_utxos > 0 && rows.len() as u64 >= max_utxos {
                    return Ok(rows);
                }
            },
            Ok(None) => {},
            Err(e) => {
                return Err(e);
            },
        }
        i += 1;
    }
    proof {
        assert(entries@.skip(i as int) =~= Seq::<(Vec<u8>, Vec<u8>)>::empty());
        assert(rows.deep_view() + Seq::<Seq<Seq<char>>>::empty() =~~= rows.deep_view());
    }
    Ok(rows)
}

} // verus!
