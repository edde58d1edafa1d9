//! The reasons for which a sentence yields no position fix.

use vstd::prelude::*;

verus! {

/// Why a sentence gave no fix, or why the receiver gave no sentence.
#[derive(Debug, Clone, Copy, PartialEq, Eq)]
pub enum GnssError {
    /// The receiver reports that it has no fix yet.
    NoFix,
    /// A field that a fix needs is empty or absent; the field is named.
    MissingField(&'static str),
    /// A sentence of a type that carries nothing this core reports.
    UnsupportedSentence,
    /// The checksum is missing, unreadable or does not match the payload.
    ChecksumInvalid,
    /// A field is neither absent nor in the form that the wire format gives it.
    MalformedField,
    /// The serial receiver failed.
    UartError,
}

} // verus!
