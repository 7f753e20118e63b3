//! What a synchronisation can fail with.

use vstd::prelude::*;

verus! {

/// Why the stream that the update data comes from could not be read.
#[derive(Clone, Copy, Debug, PartialEq, Eq, Structural)]
pub enum IoErrorKind {
    /// The stream ended before a read was satisfied.
    UnexpectedEof,
    /// Anything else. A stream of bytes in memory never fails this way.
    Other,
}

/// Why the update data could not be decoded.
#[derive(Clone, Copy, Debug, PartialEq, Eq, Structural)]
pub enum DecodeError {
    /// The data does not start with the prefix of a known format and version.
    UnknownVersion,
    /// A feature that must be understood is not.
    UnknownRequiredFeature,
    /// A value is out of its range, or not encoded in the only way that is allowed.
    InvalidValue,
    /// The data ends in the middle of a value.
    ShortRead,
    /// A length does not fit the data that it describes.
    BadLengthDescriptor,
    /// The stream itself failed.
    Io(IoErrorKind),
    /// A value is compressed, which is not supported.
    UnsupportedCompression,
}

/// The rank of the log level for what gossip gives rise to, the most verbose one.
pub const LOG_LEVEL_GOSSIP: u8 = 0;

/// What the network graph advises to do about the source of data that it refused. The messages
/// that could be sent to a peer are not kept: the source of a snapshot is not a peer.
#[derive(Clone, Copy, Debug, PartialEq, Eq, Structural)]
pub enum ErrorAction {
    DisconnectPeer,
    IgnoreError,
    /// Log the error at the level of the given rank: the higher the rank, the graver the error.
    IgnoreAndLog(u8),
    IgnoreDuplicateGossip,
    SendErrorMessage,
    SendWarningMessage,
}

/// A refusal by the network graph.
#[derive(Debug)]
pub struct LightningError {
    /// What went wrong, in words.
    pub err: String,
    /// What to do about it.
    pub action: ErrorAction,
}

/// A refusal by the network graph, as contracts speak of it.
pub struct Refusal {
    pub err: Seq<char>,
    pub action: ErrorAction,
}

impl View for LightningError {
    type V = Refusal;

    open spec fn view(&self) -> Refusal {
        Refusal { err: self.err@, action: self.action }
    }
}

/// Everything that a synchronisation can fail with.
#[derive(Debug)]
pub enum GraphSyncError {
    /// The update data could not be decoded, typically because it ends early.
    DecodeError(DecodeError),
    /// The network graph refused what the data says, usually because it is too old or builds on
    /// data that the graph does not have.
    LightningError(LightningError),
}

/// The failure of a synchronisation, as contracts speak of it.
pub enum SyncFailure {
    Decode(DecodeError),
    Graph(Refusal),
}

impl View for GraphSyncError {
    type V = SyncFailure;

    open spec fn view(&self) -> SyncFailure {
        match *self {
            GraphSyncError::DecodeError(error) => SyncFailure::Decode(error),
            GraphSyncError::LightningError(error) => SyncFailure::Graph(error@),
        }
    }
}

} // verus!
