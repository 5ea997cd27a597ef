//! Core library of a plugin-development kit whose one algorithmic piece is a
//! streaming CSV extraction engine: it scans a byte buffer once, assembles
//! cells and rows under RFC-4180-like quoting rules, and applies a caller
//! supplied row/column window, stopping as soon as the window is satisfied.
//!
//! The engine lives in [`csv`] (windowing extractor) on top of [`tokenizer`]
//! (byte-level field scanner).  The remaining modules hold the plain data
//! model that plugin glue code exchanges with the host runtime.

use vstd::prelude::*;

pub mod command;
pub mod config;
pub mod csv;
pub mod io;
pub mod models;
pub mod round_trip;
pub mod tokenizer;

verus! {

/// Character-wise image of `s` with every space turned into a dash.
pub open spec fn spaces_to_dashes(s: Seq<char>) -> Seq<char> {
    s.map_values(|c: char| if c == ' ' { '-' } else { c })
}

/// Lower-case image of a character sequence, as `str::to_lowercase` computes
/// it.  The full Unicode case-folding table is not restated here; the
/// function is named so that contracts can speak about the result exactly.
pub uninterp spec fn lower_of(s: Seq<char>) -> Seq<char>;

/// Relies on `str::to_lowercase`: the result is a function of the input
/// characters alone, and an empty string stays empty.
#[verifier::external_body]
fn to_lowercase(s: &str) -> (r: String)
    ensures
        r@ == lower_of(s@),
        s@.len() == 0 ==> r@.len() == 0,
{
    s.to_lowercase()
}

/// Relies on `str::replace` with a one-character pattern and a one-character
/// replacement: every space becomes a dash and all other characters stay.
#[verifier::external_body]
fn replace_spaces(s: &str) -> (r: String)
    ensures
        r@ == spaces_to_dashes(s@),
{
    s.replace(" ", "-")
}

/// Turns free-form text into a slug: lower-case, with spaces dashed.
pub fn slugify(input: &str) -> (r: String)
    ensures
        r@ == spaces_to_dashes(lower_of(input@)),
{
    let lowered = to_lowercase(input);
    replace_spaces(lowered.as_str())
}

} // verus!
