//! Shared frame-level vocabulary: connection modes and decoding outcomes.

use vstd::prelude::*;

pub mod recv;
pub mod send;

verus! {

/// The operating discipline of a connection after `START`: either full-text
/// search or document ingestion. Chosen once per connection.
#[derive(Debug, PartialEq, Eq, Clone, Copy, Structural)]
pub enum Mode {
    Search,
    Ingest,
}

/// The lowercase wire token that stands for a mode in `START` commands and
/// `STARTED` replies.
pub open spec fn mode_token(m: Mode) -> Seq<char> {
    match m {
        Mode::Search => "search"@,
        Mode::Ingest => "ingest"@,
    }
}

impl Mode {
    /// The lowercase wire token for this mode.
    pub fn to_string(&self) -> (s: String)
        ensures
            s@ == mode_token(*self),
    {
        match self {
            Mode::Search => "search".to_owned(),
            Mode::Ingest => "ingest".to_owned(),
        }
    }
}

/// Why a buffer could not be turned into a reply.
///
/// `Incomplete` is a control signal, not a fault: the buffer holds no full
/// CRLF-terminated line yet, and reading more bytes will resolve it.
/// `Invalid` means a full line arrived but violates the reply grammar.
/// `Truncated` means the peer closed the connection while a partial line
/// was still buffered.
#[derive(Debug, PartialEq, Eq, Clone, Copy, Structural)]
pub enum FrameError {
    Incomplete,
    Invalid,
    Truncated,
}

} // verus!
