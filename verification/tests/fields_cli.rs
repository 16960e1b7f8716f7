//! Field-list parsing and configuration validation.

use btc_utxo_dump::cli::{Cli, CliError};
use btc_utxo_dump::fields::{FieldIndices, num_fields};

fn cli_with_fields(fields: &str) -> Cli {
    Cli {
        db: String::from("chainstate"),
        output: String::from("utxodump.csv"),
        fields: String::from(fields),
        testnet: false,
        verbose: false,
        max_utxos: 0,
        quiet: false,
        include_p2pk: false,
    }
}

#[test]
fn from_str_finds_each_position() {
    let ind = FieldIndices::from_str("count,txid,vout,amount,type,address");
    assert_eq!(ind.count, Some(0));
    assert_eq!(ind.txid, Some(1));
    assert_eq!(ind.vout, Some(2));
    assert_eq!(ind.amount, Some(3));
    assert_eq!(ind.script_type, Some(4));
    assert_eq!(ind.address, Some(5));
    assert_eq!(ind.height, None);
    assert_eq!(ind.coinbase, None);
    assert_eq!(ind.nsize, None);
    assert_eq!(ind.script, None);
}

#[test]
fn from_str_takes_first_occurrence() {
    let ind = FieldIndices::from_str("txid,txid,count");
    assert_eq!(ind.txid, Some(0));
    assert_eq!(ind.count, Some(2));
}

#[test]
fn from_str_matches_tokens_exactly() {
    // Token comparison is exact; a padded token selects nothing.
    let ind = FieldIndices::from_str(" txid,count");
    assert_eq!(ind.txid, None);
    assert_eq!(ind.count, Some(1));
}

#[test]
fn num_fields_counts_tokens() {
    assert_eq!(num_fields("count,txid,vout"), 3);
    assert_eq!(num_fields("count"), 1);
    assert_eq!(num_fields(""), 1);
    assert_eq!(num_fields("a,,b"), 3);
}

#[test]
fn needs_utxo_parsing_tracks_value_columns() {
    assert!(!FieldIndices::from_str("count,txid,vout").needs_utxo_parsing());
    assert!(FieldIndices::from_str("count,height").needs_utxo_parsing());
    assert!(FieldIndices::from_str("address").needs_utxo_parsing());
}

#[test]
fn needs_decompression_depends_on_selection_and_flag() {
    let script = FieldIndices::from_str("script");
    assert!(script.needs_decompression(false));
    let address = FieldIndices::from_str("address");
    assert!(!address.needs_decompression(false));
    assert!(address.needs_decompression(true));
    let neither = FieldIndices::from_str("count,txid");
    assert!(!neither.needs_decompression(true));
}

#[test]
fn validate_accepts_known_fields() {
    assert!(cli_with_fields("count,txid,vout,height,coinbase,amount,nsize,script,type,address")
        .validate()
        .is_ok());
    // Tokens are trimmed before the check.
    assert!(cli_with_fields(" count , txid ").validate().is_ok());
}

#[test]
fn validate_trims_unicode_whitespace() {
    // str::trim removes every Unicode whitespace character, not only the
    // ASCII ones: no-break space, ideographic space, thin space.
    assert!(cli_with_fields("\u{a0}count\u{a0},txid").validate().is_ok());
    assert!(cli_with_fields("count,\u{3000}txid\u{2009}").validate().is_ok());
    assert!(cli_with_fields("\u{85}\u{1680}amount\u{2028}\u{205f}").validate().is_ok());
    // A zero-width space is not whitespace, so the token stays invalid.
    assert_eq!(
        cli_with_fields("count\u{200b}").validate().unwrap_err(),
        CliError::InvalidField("count\u{200b}".as_bytes().to_vec())
    );
}

#[test]
fn validate_rejects_unknown_fields_naming_the_first() {
    assert_eq!(
        cli_with_fields("count,bogus").validate().unwrap_err(),
        CliError::InvalidField(b"bogus".to_vec())
    );
    assert_eq!(
        cli_with_fields("").validate().unwrap_err(),
        CliError::InvalidField(Vec::new())
    );
    assert_eq!(
        cli_with_fields("count,,txid").validate().unwrap_err(),
        CliError::InvalidField(Vec::new())
    );
    assert_eq!(
        cli_with_fields("count, bad1 ,bad2").validate().unwrap_err(),
        CliError::InvalidField(b" bad1 ".to_vec())
    );
}
