//! Node-side engine for a client-side-validated asset protocol over a
//! UTXO-based blockchain.
//!
//! The crate provides the deterministic binary codec that content addressing
//! rests on, the stash store of schemata, geneses and state transitions, the
//! consignment assembly / validation / merge pipeline, the fungible asset
//! cache, and the request/reply dispatch logic of the two cooperating
//! services.  Socket I/O and on-disk persistence live outside the library and
//! talk to it through plain values.
//!
//! Two modelling boundaries are deliberate.  Validation demands that every
//! state in a consignment is revealed: the confidential-state homomorphism
//! check belongs to the underlying commitment library, which is not among
//! the dependencies, so bundles carrying confidential states are refused
//! rather than part-checked.  And a schema models the transition-type and
//! owned-right-type whitelists; per-field metadata presence and arity rules
//! have no counterpart here.

pub mod cache;
pub mod codec;
pub mod data;
pub mod entities;
pub mod error;
pub mod fungible;
pub mod ids;
pub mod rpc;
pub mod stash;
pub mod validation;

use vstd::prelude::*;
use vstd::string::StringSliceAdditionalSpecFns;

verus! {

/// File formats in which the asset cache can be exported.
#[derive(Clone, Copy, PartialEq, Eq, Structural, Debug)]
pub enum DataFormat {
    Json,
    Yaml,
    Toml,
    StrictEncode,
}

impl DataFormat {
    /// The file extension conventionally used for this format.
    pub fn extension(&self) -> (r: &'static str)
        ensures
            *self == DataFormat::Yaml ==> r@ == "yaml"@,
            *self == DataFormat::Json ==> r@ == "json"@,
            *self == DataFormat::Toml ==> r@ == "toml"@,
            *self == DataFormat::StrictEncode ==> r@ == "se"@,
    {
        match self {
            DataFormat::Yaml => "yaml",
            DataFormat::Json => "json",
            DataFormat::Toml => "toml",
            DataFormat::StrictEncode => "se",
        }
    }
}

/// Error of parsing a [`DataFormat`] name.
#[derive(Clone, Copy, PartialEq, Eq, Structural, Debug)]
pub enum FileFormatParseError {
    /// The name matches no known file format.
    UnknownFormat,
}

/// ASCII lower-casing of one byte.
pub open spec fn lower_byte(c: u8) -> u8 {
    if 65 <= c <= 90 {
        (c + 32) as u8
    } else {
        c
    }
}

/// Whether the name starts, case-insensitively, with the given lower-case
/// pattern.
pub open spec fn prefix_matches(s: Seq<u8>, pat: Seq<u8>) -> bool {
    s.len() >= pat.len() && forall|i: int| 0 <= i < pat.len() ==> lower_byte(s[i]) == pat[i]
}

/// The format a name designates.  Parsing is case-insensitive and accepts
/// the aliases `yml` for `yaml` and `dat`, `strictencode`, `strict-encode`
/// and `strict_encode` for the strict encoding.
pub open spec fn spec_format_from(s: Seq<u8>) -> Result<DataFormat, FileFormatParseError> {
    if prefix_matches(s, seq![121u8, 97u8, 109u8, 108u8]) || prefix_matches(
        s,
        seq![121u8, 109u8, 108u8],
    ) {
        Ok(DataFormat::Yaml)
    } else if prefix_matches(s, seq![106u8, 115u8, 111u8, 110u8]) {
        Ok(DataFormat::Json)
    } else if prefix_matches(s, seq![116u8, 111u8, 109u8, 108u8]) {
        Ok(DataFormat::Toml)
    } else if prefix_matches(s, seq![115u8, 101u8]) || prefix_matches(
        s,
        seq![100u8, 97u8, 116u8],
    ) || prefix_matches(
        s,
        seq![
            115u8,
            116u8,
            114u8,
            105u8,
            99u8,
            116u8,
            101u8,
            110u8,
            99u8,
            111u8,
            100u8,
            101u8,
        ],
    ) || prefix_matches(
        s,
        seq![
            115u8,
            116u8,
            114u8,
            105u8,
            99u8,
            116u8,
            45u8,
            101u8,
            110u8,
            99u8,
            111u8,
            100u8,
            101u8,
        ],
    ) || prefix_matches(
        s,
        seq![
            115u8,
            116u8,
            114u8,
            105u8,
            99u8,
            116u8,
            95u8,
            101u8,
            110u8,
            99u8,
            111u8,
            100u8,
            101u8,
        ],
    ) {
        Ok(DataFormat::StrictEncode)
    } else {
        Err(FileFormatParseError::UnknownFormat)
    }
}

fn starts_with_ci(b: &[u8], pat: &Vec<u8>) -> (r: bool)
    ensures
        r == prefix_matches(b@, pat@),
{
    if b.len() < pat.len() {
        return false;
    }
    let mut i: usize = 0;
    while i < pat.len()
        invariant
            pat@.len() <= b@.len(),
            i <= pat@.len(),
            forall|j: int| 0 <= j < i ==> lower_byte(b@[j]) == pat@[j],
        decreases pat@.len() - i,
    {
        let c = b[i];
        let lc: u8 = if 65 <= c && c <= 90 {
            c + 32
        } else {
            c
        };
        if lc != pat[i] {
            return false;
        }
        i = i + 1;
    }
    true
}

impl DataFormat {
    /// Parses a format name, case-insensitively and by prefix.
    pub fn from_str(s: &str) -> (r: Result<DataFormat, FileFormatParseError>)
        ensures
            r == spec_format_from(s.spec_bytes()),
    {
        let b = s.as_bytes();
        let yaml: Vec<u8> = vec![121u8, 97u8, 109u8, 108u8];
        let yml: Vec<u8> = vec![121u8, 109u8, 108u8];
        let json: Vec<u8> = vec![106u8, 115u8, 111u8, 110u8];
        let toml_pat: Vec<u8> = vec![116u8, 111u8, 109u8, 108u8];
        let se: Vec<u8> = vec![115u8, 101u8];
        let dat: Vec<u8> = vec![100u8, 97u8, 116u8];
        let se_long: Vec<u8> = vec![
            115u8,
            116u8,
            114u8,
            105u8,
            99u8,
            116u8,
            101u8,
            110u8,
            99u8,
            111u8,
            100u8,
            101u8,
        ];
        let se_dash: Vec<u8> = vec![
            115u8,
            116u8,
            114u8,
            105u8,
            99u8,
            116u8,
            45u8,
            101u8,
            110u8,
            99u8,
            111u8,
            100u8,
            101u8,
        ];
        let se_under: Vec<u8> = vec![
            115u8,
            116u8,
            114u8,
            105u8,
            99u8,
            116u8,
            95u8,
            101u8,
            110u8,
            99u8,
            111u8,
            100u8,
            101u8,
        ];
        if starts_with_ci(b, &yaml) || starts_with_ci(b, &yml) {
            Ok(DataFormat::Yaml)
        } else if starts_with_ci(b, &json) {
            Ok(DataFormat::Json)
        } else if starts_with_ci(b, &toml_pat) {
            Ok(DataFormat::Toml)
        } else if starts_with_ci(b, &se) || starts_with_ci(b, &dat) || starts_with_ci(
            b,
            &se_long,
        ) || starts_with_ci(b, &se_dash) || starts_with_ci(b, &se_under) {
            Ok(DataFormat::StrictEncode)
        } else {
            Err(FileFormatParseError::UnknownFormat)
        }
    }
}

} // verus!
