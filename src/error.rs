use vstd::prelude::*;
use vstd::string::*;

verus! {

/// The three kinds of failure the library reports.
#[derive(Clone, Copy, Debug, PartialEq, Eq, Structural)]
pub enum ErrorKind {
    /// Malformed variant text or an unparsable base character.
    Parse,
    /// A name or field that the alignment source does not know or lacks.
    Lookup,
    /// The base-by-base extraction of one read failed.
    Observation,
}

/// An error with its kind and a human-readable message.
#[derive(Debug)]
pub struct Error {
    pub kind: ErrorKind,
    pub message: String,
}

/// A parse error carrying the message `v`.
pub fn err(v: &str) -> (r: Error)
    ensures
        r.kind == ErrorKind::Parse,
        r.message@ == v@,
{
    Error { kind: ErrorKind::Parse, message: String::from_str(v) }
}

/// A lookup error for a value that was expected but absent.
pub fn opterr() -> (r: Error)
    ensures
        r.kind == ErrorKind::Lookup,
        r.message@ == "Option error."@,
{
    Error { kind: ErrorKind::Lookup, message: String::from_str("Option error.") }
}

} // verus!
