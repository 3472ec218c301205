use vstd::prelude::*;

verus! {

/// The ways one unit of work (a manifest fetch, a stream probe) can fail.
#[derive(Debug, Clone)]
pub enum AppError {
    /// Connection, DNS or HTTP status failure, with the transport's message.
    ReqwestError(String),
    /// A local input/output failure, with its message.
    IoError(String),
    /// The list of candidate manifests could not be parsed.
    XmlError(String),
    /// The manifest bytes are not a playlist the codec understands.
    M3u8Error(String),
    /// A probe did not receive a response within its bound.
    TimeoutError,
    /// The manifest parsed but has not the expected variant/segment shape.
    InvalidPlaylistStructure,
}

} // verus!
