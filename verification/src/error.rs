use vstd::prelude::*;

verus! {

/// The kind of an input/output failure met while reading a byte stream.
#[derive(Debug, Clone, Copy, PartialEq, Eq, Structural)]
pub enum IoErrorKind {
    /// The stream ended before the requested number of bytes could be read.
    UnexpectedEof,
}

/// Errors raised while marshalling or unmarshalling D-Bus values.
#[derive(Debug)]
pub enum Error {
    Io { kind: IoErrorKind },
    FromUtf8,
    Custom { message: String },
    Unknown,
    InvalidVariant { value: u64 },
}

pub type Result<T> = core::result::Result<T, Error>;

} // verus!
