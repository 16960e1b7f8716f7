//! The scan configuration, as the surrounding application hands it in, and
//! its validation.

use vstd::prelude::*;

verus! {

use crate::fields::bytes_eq;
use crate::fields::is_valid_field;
use crate::fields::split_commas;
use crate::fields::split_commas_exec;
use crate::fields::trim_bytes;
use crate::fields::trim_exec;
use vstd::utf8::encode_utf8;

/// Why the configuration was rejected.
#[derive(Clone, Debug)]
pub enum CliError {
    /// A token of the field list is not a supported column name once
    /// trimmed; the raw (untrimmed) token is carried.
    InvalidField(Vec<u8>),
}

impl PartialEq for CliError {
    fn eq(&self, other: &Self) -> (r: bool) {
        match (self, other) {
            (CliError::InvalidField(a), CliError::InvalidField(b)) => bytes_eq(
                a.as_slice(),
                b.as_slice(),
            ),
        }
    }
}

impl vstd::std_specs::cmp::PartialEqSpecImpl for CliError {
    open spec fn obeys_eq_spec() -> bool {
        true
    }

    open spec fn eq_spec(&self, other: &Self) -> bool {
        match (self, other) {
            (CliError::InvalidField(a), CliError::InvalidField(b)) => a@ == b@,
        }
    }
}

/// Every token of the comma-separated field list is a supported column name
/// once trimmed.
pub open spec fn all_fields_valid(s: Seq<u8>) -> bool {
    forall|i: int|
        0 <= i < split_commas(s).len() ==> is_valid_field(
            trim_bytes(#[trigger] split_commas(s)[i]),
        )
}

/// The scan configuration. The store directory and output path are only
/// carried through for the surrounding application; the core consumes the
/// field list, the network and P2PK flags, and the record limit.
pub struct Cli {
    /// Chainstate LevelDB directory.
    pub db: String,
    /// Output CSV file path.
    pub output: String,
    /// Comma-separated list of output columns.
    pub fields: String,
    /// Use testnet network parameters for addresses.
    pub testnet: bool,
    /// Print each record while processing.
    pub verbose: bool,
    /// Maximum number of UTXO records to produce; 0 means unbounded.
    pub max_utxos: u64,
    /// Suppress progress output.
    pub quiet: bool,
    /// Produce Base58Check addresses for P2PK outputs.
    pub include_p2pk: bool,
}

impl Cli {
    /// Accepts the configuration exactly when every selected field is a
    /// supported column name after trimming surrounding whitespace; a
    /// rejection carries the first offending token as it stands in the list.
    pub fn validate(&self) -> (r: Result<(), CliError>)
        ensures
            r is Ok <==> all_fields_valid(encode_utf8(self.fields@)),
            r matches Err(e) ==> e matches CliError::InvalidField(tok) && ({
                let toks = split_commas(encode_utf8(self.fields@));
                exists|i: int|
                    {
                        &&& 0 <= i < toks.len()
                        &&& tok@ == #[trigger] toks[i]
                        &&& !is_valid_field(trim_bytes(toks[i]))
                        &&& forall|j: int|
                            0 <= j < i ==> is_valid_field(trim_bytes(#[trigger] toks[j]))
                    }
            }),
    {
        let bytes = self.fields.as_str().as_bytes();
        let tokens = split_commas_exec(bytes);
        let mut i: usize = 0;
        while i < tokens.len()
            invariant
                0 <= i <= tokens@.len(),
                tokens.deep_view() == split_commas(encode_utf8(self.fields@)),
                forall|j: int|
                    0 <= j < i ==> is_valid_field(trim_bytes(#[trigger] tokens.deep_view()[j])),
            decreases tokens@.len() - i,
        {
            proof {
                assert(tokens.deep_view()[i as int] =~= tokens@[i as int]@);
            }
            let trimmed = trim_exec(tokens[i].as_slice());
            if !is_valid_field_exec(trimmed.as_slice()) {
                let tok = tokens[i].clone();
                proof {
                    assert(tok@ =~= tokens@[i as int]@);
                    let toks = split_commas(encode_utf8(self.fields@));
                    assert(tok@ == toks[i as int] && !is_valid_field(trim_bytes(toks[i as int]))
                        && (forall|j: int|
                        0 <= j < i as int ==> is_valid_field(trim_bytes(#[trigger] toks[j]))));
                }
                return Err(CliError::InvalidField(tok));
            }
            i += 1;
        }
        Ok(())
    }
}

/// Whether a trimmed token is one of the ten supported column names.
fn is_valid_field_exec(t: &[u8]) -> (r: bool)
    ensures
        r == is_valid_field(t@),
{
    bytes_eq(t, "count".as_bytes()) || bytes_eq(t, "txid".as_bytes()) || bytes_eq(
        t,
        "vout".as_bytes(),
    ) || bytes_eq(t, "height".as_bytes()) || bytes_eq(t, "coinbase".as_bytes()) || bytes_eq(
        t,
        "amount".as_bytes(),
    ) || bytes_eq(t, "nsize".as_bytes()) || bytes_eq(t, "script".as_bytes()) || bytes_eq(
        t,
        "type".as_bytes(),
    ) || bytes_eq(t, "address".as_bytes())
}

} // verus!
