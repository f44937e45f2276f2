//! The missing-value classifier shared by every analysis.
use vstd::prelude::*;
use crate::text::{same_text, trim_of, trim_str};

verus! {

/// The fixed vocabulary of cells that stand for "no value", after trimming.
pub open spec fn missing_token(s: Seq<char>) -> bool {
    ||| s.len() == 0
    ||| s == "NA"@
    ||| s == "na"@
    ||| s == "N/A"@
    ||| s == "n/a"@
    ||| s == "null"@
    ||| s == "NULL"@
    ||| s == "."@
    ||| s == "NaN"@
    ||| s == "nan"@
    ||| s == "-"@
    ||| s == "None"@
    ||| s == "none"@
}

/// Whether a raw cell is missing: its trimmed text is a missing token.
pub open spec fn cell_missing(s: Seq<char>) -> bool {
    missing_token(trim_of(s))
}

/// Check if a value represents a missing value.
///
/// Surrounding whitespace is ignored; the remaining text must be one of the
/// tokens of `missing_token`.
pub fn is_missing(val: &str) -> (r: bool)
    ensures
        r == cell_missing(val@),
{
    let v = trim_str(val);
    v.unicode_len() == 0
        || same_text(v, "NA")
        || same_text(v, "na")
        || same_text(v, "N/A")
        || same_text(v, "n/a")
        || same_text(v, "null")
        || same_text(v, "NULL")
        || same_text(v, ".")
        || same_text(v, "NaN")
        || same_text(v, "nan")
        || same_text(v, "-")
        || same_text(v, "None")
        || same_text(v, "none")
}

} // verus!
