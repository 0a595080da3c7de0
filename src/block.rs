//! Intervals of masked or unknown bases within a sequence.

use vstd::prelude::*;

use crate::field::Field;

verus! {

/// One contiguous run of bases: `length` bases from offset `start`.
#[derive(Debug, Clone, Copy, PartialEq, Eq, Structural)]
pub struct Block {
    pub start: Field,
    pub length: Field,
}

} // verus!
