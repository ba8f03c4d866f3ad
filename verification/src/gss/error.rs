//! GSS-API failures.

use vstd::prelude::*;
use vstd::string::*;

verus! {

/// GSS-API error.
#[derive(Clone, Debug, PartialEq, Eq)]
pub enum Error {
    /// Protocol or crypto layer.
    Inner(String),
    /// Integrity.
    Integrity,
    /// Token too short.
    Truncated,
    /// Sequence number replay or gap.
    Sequence,
    /// Channel bindings mismatch.
    ChannelBindings,
}

impl Error {
    /// The text of a failure.
    pub open spec fn spec_message(&self) -> Seq<char> {
        match self {
            Error::Inner(s) => s@,
            Error::Integrity => "gss integrity"@,
            Error::Truncated => "gss truncated"@,
            Error::Sequence => "gss sequence"@,
            Error::ChannelBindings => "gss channel bindings"@,
        }
    }

    /// The text of a failure.
    pub fn message(&self) -> (r: String)
        ensures
            r@ == self.spec_message(),
    {
        match self {
            Error::Inner(s) => s.clone(),
            Error::Integrity => "gss integrity".to_owned(),
            Error::Truncated => "gss truncated".to_owned(),
            Error::Sequence => "gss sequence".to_owned(),
            Error::ChannelBindings => "gss channel bindings".to_owned(),
        }
    }
}

/// The failure of the layers below with this text.
pub open spec fn inner_error(e: Error, text: Seq<char>) -> bool {
    e matches Error::Inner(s) && s@ == text
}

/// The failure of the layers below with this text.
pub fn inner(text: &str) -> (r: Error)
    ensures
        inner_error(r, text@),
{
    Error::Inner(text.to_owned())
}

} // verus!
