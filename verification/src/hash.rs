//! Validation of content hashes against the hashes a manifest declares.
use vstd::prelude::*;
use crate::text::{chars_of, string_of, append_str, str_equal};

verus! {

/// The hash that a freshly generated manifest holds until the real one is
/// filled in.
pub const PLACEHOLDER_HASH: &'static str = "sha256-AAAAAAAAAAAAAAAAAAAAAAAAAAAAAAAAAAAAAAAAAAA=";

/// A declared hash that cannot be checked against: empty or the placeholder.
pub open spec fn hash_unset(expected: Seq<char>) -> bool {
    expected.len() == 0 || expected == PLACEHOLDER_HASH@
}

/// Why a hash check failed.
pub enum HashError {
    /// The declared hash is empty or still the placeholder.
    Missing { name: String, actual: String },
    /// The declared hash differs from the computed one.
    Mismatch { name: String, expected: String, actual: String },
}

/// Whether `expected` is empty or the placeholder hash.
pub fn is_unset_hash(expected: &str) -> (r: bool)
    ensures
        r == hash_unset(expected@),
{
    let e = chars_of(expected);
    if e.len() == 0 {
        return true;
    }
    str_equal(expected, PLACEHOLDER_HASH)
}

/// Checks the computed hash `actual` against the declared hash `expected` of
/// the item called `name`.
pub fn check_hash(actual: &str, expected: &str, name: &str) -> (r: Result<(), HashError>)
    ensures
        match r {
            Ok(()) => !hash_unset(expected@) && actual@ == expected@,
            Err(HashError::Missing { name: n, actual: a }) => hash_unset(expected@) && n@ == name@
                && a@ == actual@,
            Err(HashError::Mismatch { name: n, expected: e, actual: a }) => !hash_unset(expected@)
                && actual@ != expected@ && n@ == name@ && e@ == expected@ && a@ == actual@,
        },
{
    if is_unset_hash(expected) {
        return Err(
            HashError::Missing { name: crate::text::to_string(name), actual: crate::text::to_string(actual) },
        );
    }
    if !str_equal(actual, expected) {
        return Err(
            HashError::Mismatch {
                name: crate::text::to_string(name),
                expected: crate::text::to_string(expected),
                actual: crate::text::to_string(actual),
            },
        );
    }
    Ok(())
}

impl HashError {
    /// The text of the error, as the command-line tools print it.
    pub open spec fn spec_message(&self) -> Seq<char> {
        match self {
            HashError::Missing { name, actual } => name@ + " hash is missing or uses a placeholder.\nActual hash: "@
                + actual@,
            HashError::Mismatch { name, expected, actual } => name@ + " hash mismatch.\nExpected: "@
                + expected@ + "\nActual:   "@ + actual@,
        }
    }

    /// The text of the error, as the command-line tools print it.
    pub fn message(&self) -> (r: String)
        ensures
            r@ == self.spec_message(),
    {
        let mut out: Vec<char> = Vec::new();
        match self {
            HashError::Missing { name, actual } => {
                append_str(&mut out, name.as_str());
                append_str(&mut out, " hash is missing or uses a placeholder.\nActual hash: ");
                append_str(&mut out, actual.as_str());
            },
            HashError::Mismatch { name, expected, actual } => {
                append_str(&mut out, name.as_str());
                append_str(&mut out, " hash mismatch.\nExpected: ");
                append_str(&mut out, expected.as_str());
                append_str(&mut out, "\nActual:   ");
                append_str(&mut out, actual.as_str());
            },
        }
        string_of(out.as_slice())
    }
}

} // verus!
