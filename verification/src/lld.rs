//! The outcome of a link with LLD, and the flavors it links for. The
//! foreign call itself is made by the host program.
use vstd::prelude::*;

verus! {

/// The object format LLD links.
#[derive(Debug, Clone, Copy, PartialEq, Eq, Structural)]
pub enum LldFlavor {
    Elf,
    Wasm,
    MachO,
    Coff,
}

/// A failure to hand the arguments to LLD.
#[derive(Debug, Clone, Copy, PartialEq, Eq, Structural)]
pub enum LldError {
    StringConversionError,
}

/// Whether a link succeeded, with the messages LLD printed.
pub struct LldResult {
    success: bool,
    messages: String,
}

impl LldResult {
    /// Whether the link succeeded.
    pub closed spec fn succeeded(&self) -> bool {
        self.success
    }

    /// The messages LLD printed.
    pub closed spec fn text(&self) -> Seq<char> {
        self.messages@
    }

    /// The outcome of a link.
    pub fn new(success: bool, messages: String) -> (r: Self)
        ensures
            r.succeeded() == success,
            r.text() == messages@,
    {
        LldResult { success, messages }
    }

    /// `Ok` when the link succeeded, else its messages as the error.
    pub fn ok(self) -> (r: Result<(), String>)
        ensures
            self.succeeded() ==> r is Ok,
            !self.succeeded() ==> (r matches Err(m) && m@ == self.text()),
    {
        if self.success {
            Ok(())
        } else {
            Err(self.messages)
        }
    }
}

} // verus!
