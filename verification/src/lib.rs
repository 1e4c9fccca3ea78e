//! Poster-ready inputs for a map renderer: a geocoding client's logic that
//! turns a place query's response into one anchor location, and a theme
//! catalog that discovers and loads JSON color-theme descriptors.
//!
//! The library holds the decisions and the parsing; the network call and the
//! file reads stay with the caller, which hands in plain values (an HTTP
//! status and body, a file's content, a directory's entry names) and gets
//! typed results back.

pub mod json;
pub mod location;
pub mod poster;
pub mod theme;

use vstd::prelude::*;

verus! {

/// The numeric value of a decimal digit character.
pub open spec fn digit_val(c: char) -> int {
    c as int - '0' as int
}

/// Whether a character is a decimal digit.
pub open spec fn is_digit(c: char) -> bool {
    '0' <= c && c <= '9'
}

} // verus!
