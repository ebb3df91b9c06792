use vstd::prelude::*;

verus! {

/// Every failure this library reports to its callers.
///
/// "Not found" on a point read is deliberately *not* here: it is a success
/// variant with an absent document.
#[derive(Debug, Clone, PartialEq)]
pub enum Error {
    /// The response body does not match the wire shape the operation declares.
    MalformedResponse,
    /// A header the operation's contract requires is absent; carries the
    /// header name.
    MissingHeader(String),
    /// The response status is outside the accepted set; carries the expected
    /// and actual status and the raw body text for diagnostics.
    UnexpectedStatus { expected: u16, actual: u16, body: String },
    /// The payload would need a nested object or an array, which the flat
    /// codec forbids.
    UnsupportedEncoding,
    /// The metadata and payload arrays of a batch response differ in length.
    ArrayLengthMismatch,
}

} // verus!
