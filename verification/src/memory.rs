//! The in-memory layout of a Codira array: a header followed by its
//! elements.
use vstd::prelude::*;

verus! {

/// The header in front of an array's elements.
#[derive(Debug, Clone, Copy, PartialEq, Eq, Structural)]
pub struct ArrayHeader {
    pub length: usize,
    pub capacity: usize,
}

} // verus!
