//! Typed errors for the parse, decode and download stages.

use vstd::prelude::*;

verus! {

/// A fatal error while parsing an NZB document. The whole parse aborts;
/// no partial file list is returned.
#[derive(Debug, Clone, Copy, PartialEq, Eq, Structural)]
pub enum ParseError {
    /// The underlying XML stream was malformed, or a character or entity
    /// reference in text content could not be resolved.
    MalformedXml,
    /// A "file" element's "subject" attribute held no substring enclosed
    /// in double quotes; the payload is the stream offset of the event.
    FilenameNotQuoted { position: u64 },
    /// A "file" element ended while its builder held no filename, or an
    /// empty one.
    MissingFilename,
    /// A "file" element ended while its builder held no group.
    MissingGroup,
    /// A "segment" element ended while its builder was missing the byte
    /// count, the sequence number or the article id.
    IncompleteSegment,
}

/// A fatal error while locating or decoding the yEnc frame of one fetched
/// article body. It aborts the owning file; no other group is retried.
#[derive(Debug, Clone, Copy, PartialEq, Eq, Structural)]
pub enum DecodeError {
    /// No line of the body begins with the two-byte begin marker.
    NoBeginMarker,
    /// Fewer than two line boundaries follow the begin-marker line, so the
    /// start of the encoded payload could not be reached.
    TruncatedHeader,
    /// No carriage-return byte stands at or after the payload start, so the
    /// end of the encoded payload could not be found.
    NoTrailingReturn,
}

/// A fatal error for one file during download: either some segment could be
/// fetched from no candidate group, or a fetched article failed to decode,
/// or a group-select call failed. Sibling files are unaffected.
#[derive(Debug, Clone, Copy, PartialEq, Eq, Structural)]
pub enum FileDownloadError {
    /// A group-select call failed; the session is unusable for this file.
    GroupSelectFailed,
    /// Every candidate group was attempted for some segment and all failed.
    GroupsExhausted,
    /// A fetched article body could not be decoded.
    Decode(DecodeError),
}

} // verus!
