//! A loaded Codira library: a shared object that was checked to export the
//! functions every Codira library provides. Loading it is the host
//! program's work; the checked library is carried here.
use vstd::prelude::*;

verus! {

/// A library that exports the version, information and allocator-handle
/// entry points.
pub struct CodiraLibrary<L>(pub L);

impl<L> CodiraLibrary<L> {
    /// The library underneath.
    pub fn into_inner(self) -> (l: L)
        ensures
            l == self.0,
    {
        self.0
    }
}

} // verus!
