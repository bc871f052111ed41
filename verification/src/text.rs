//! The few operations on strings that the configuration code takes from
//! `std`, with what their documentation says of them.

use vstd::prelude::*;
use vstd::string::StringExecFns;

verus! {

/// Splits `text` at its first `delimiter`: what stands before it, and what
/// stands behind it.
///
/// Stands for `str::split_once` with a `char` as the pattern.
#[verifier::external_body]
pub(crate) fn split_once(text: &str, delimiter: char) -> (parts: Option<(&str, &str)>)
    ensures
        match parts {
            Some((before, after)) => {
                &&& text@ == before@ + seq![delimiter] + after@
                &&& !before@.contains(delimiter)
            },
            None => !text@.contains(delimiter),
        },
{
    text.split_once(delimiter)
}

/// Tells whether `text` starts with `prefix`.
///
/// Stands for `str::starts_with` with a `str` as the pattern.
#[verifier::external_body]
pub(crate) fn starts_with(text: &str, prefix: &str) -> (starts: bool)
    ensures
        starts == prefix@.is_prefix_of(text@),
{
    text.starts_with(prefix)
}

/// Tells whether two strings hold the same text.
pub fn same_text(a: &str, b: &str) -> (same: bool)
    ensures
        same == (a@ == b@),
{
    String::from_str(a) == String::from_str(b)
}

} // verus!
