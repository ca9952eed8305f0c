//! The structured failure tree a parse attempt leaves behind.

use vstd::prelude::*;
use crate::bit_array::BitArray;
use crate::context::Context;

verus! {

/// A parse failure: either an atomic failure at a terminal, carrying the
/// context of the parse site and the input as it stood there, or the
/// aggregate of a combinator whose every alternative failed, carrying the
/// per-alternative failures in declaration order.
#[derive(Debug)]
pub enum ParseError {
    /// An atomic failure at a terminal.
    Atomic(Context, BitArray),
    /// One failure per alternative of a combinator, in declaration order.
    Children(Vec<ParseError>),
}

} // verus!
