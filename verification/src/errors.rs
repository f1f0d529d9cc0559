use vstd::prelude::*;

verus! {

/// The failure taxonomy of the decode pipeline. Every error is fatal: the
/// container is either well formed or corrupt, and no partial result is kept.
#[derive(Debug, Clone, Copy, PartialEq, Eq, Structural)]
pub enum ScelError {
    /// The buffer is shorter than the fixed container layout, or its first
    /// twelve bytes are not the container's magic signature.
    MalformedContainer,
    /// A section does not begin with its expected section-type signature, or
    /// its decoded content fails the format's well-known sanity check.
    MalformedSection,
    /// A declared length reaches past the end of the remaining bytes.
    TruncatedSection,
    /// A text payload is not well-formed UTF-16LE.
    EncodingError,
    /// An entry references a symbol-table position that does not exist.
    DanglingIndex,
}

impl ScelError {
    /// A short diagnostic name for the failure, for callers that report it.
    pub fn describe(&self) -> (r: &'static str)
        ensures
            r@ == match self {
                ScelError::MalformedContainer => "malformed container"@,
                ScelError::MalformedSection => "malformed section"@,
                ScelError::TruncatedSection => "truncated section"@,
                ScelError::EncodingError => "encoding error"@,
                ScelError::DanglingIndex => "dangling index"@,
            },
    {
        match self {
            ScelError::MalformedContainer => "malformed container",
            ScelError::MalformedSection => "malformed section",
            ScelError::TruncatedSection => "truncated section",
            ScelError::EncodingError => "encoding error",
            ScelError::DanglingIndex => "dangling index",
        }
    }
}

} // verus!
