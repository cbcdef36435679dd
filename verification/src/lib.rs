//! Verified core of two line-oriented text utilities: a concatenator with
//! optional line numbering and blank-line squeezing, and a checksum tool
//! that emits and parses digest manifest lines.

use vstd::prelude::*;

pub mod annotate;
pub mod checksum;
pub mod codec;
pub mod reflow;
pub mod text;

verus! {

/// The sequence of character views of a vector of lines.
pub open spec fn lines_view(v: Seq<String>) -> Seq<Seq<char>> {
    Seq::new(v.len(), |i: int| v[i]@)
}

} // verus!
