//! The ways in which a run can fail. Every failure is terminal.

use vstd::prelude::*;

verus! {

/// Why a run was given up.
#[derive(Clone, Copy, Debug, PartialEq, Eq, Structural)]
pub enum LinkError {
    /// A signature or machine type is wrong, a read runs past the end of the
    /// input, a string has no terminator, or an index or section number
    /// points outside its table.
    MalformedContainer,
    /// The input asks for something outside the supported conventions: a
    /// relocation kind or a characteristics combination that is not
    /// recognised, an image that is not 32-bit, or a size or address that
    /// does not fit in 32 bits.
    UnsupportedFeature,
    /// No defined record matches the name, storage class and type of a
    /// referenced symbol.
    UnresolvedSymbol,
    /// An overlay address lies in no section of the image.
    AddressNotInAnySection,
    /// A relocation refers to an opaque aux slot of the symbol table.
    AuxRecordMisuse,
}

impl LinkError {
    /// A short message for the top-level boundary that reports the failure.
    pub fn describe(&self) -> (text: &'static str)
        ensures
            text@ == match *self {
                LinkError::MalformedContainer => "malformed container"@,
                LinkError::UnsupportedFeature => "unsupported feature"@,
                LinkError::UnresolvedSymbol => "unresolved symbol"@,
                LinkError::AddressNotInAnySection => "address not in any section"@,
                LinkError::AuxRecordMisuse => "aux record misuse"@,
            },
    {
        match self {
            LinkError::MalformedContainer => "malformed container",
            LinkError::UnsupportedFeature => "unsupported feature",
            LinkError::UnresolvedSymbol => "unresolved symbol",
            LinkError::AddressNotInAnySection => "address not in any section",
            LinkError::AuxRecordMisuse => "aux record misuse",
        }
    }
}

} // verus!
