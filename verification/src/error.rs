//! The error taxonomy of the server core.

use vstd::prelude::*;

verus! {

/// What can go wrong while serving.
///
/// The first three variants are per-frame: the session reports them and goes
/// on reading.  `Io` is fatal to the operation that met it.  `Fetch` and
/// `Parse` are per-dictionary-source: the source yields no records and the
/// server continues.  `ConfigPersist` warns and does not block applying the
/// new state in memory.  `BindFailed` surfaces from the listener to the
/// controller.
#[derive(Clone, Debug, PartialEq, Eq)]
pub enum Error {
    /// The frame held no recognizable command; carries the decoded text.
    InvalidIncomingCommand(String),
    /// The frame could not be decoded in the connection encoding; carries
    /// the offending bytes.
    Decoding(Vec<u8>),
    /// A response could not be encoded; carries the bytes written so far.
    Encoding(Vec<u8>),
    /// An underlying input/output failure, rendered as text.
    Io(String),
    /// A remote dictionary blob could not be fetched.
    Fetch(String),
    /// A dictionary source could not be parsed at all.
    Parse,
    /// The configuration could not be persisted.
    ConfigPersist(String),
    /// The listener could not bind its address.
    BindFailed(String),
}

impl Error {
    /// True for the errors that a session survives: the frame is dropped
    /// and the next one is processed normally.
    pub fn is_per_frame(&self) -> (r: bool)
        ensures
            r == (self is InvalidIncomingCommand || self is Decoding),
    {
        matches!(self, Error::InvalidIncomingCommand(_) | Error::Decoding(_))
    }
}

} // verus!
