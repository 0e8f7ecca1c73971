//! Where a piece of source text stands.

use vstd::prelude::*;

verus! {

/// The place of a token in the source: line and column, both from 0.
#[derive(Debug, Clone, Copy, PartialEq, Eq, Structural)]
pub struct Token {
    pub line: usize,
    pub col: usize,
}

} // verus!
