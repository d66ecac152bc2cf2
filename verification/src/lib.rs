//! A library for fetching multi-part binaries described by NZB metadata
//! documents: a streaming XML parser that produces validated file and
//! segment records, a yEnc frame extractor and decoder, and a download
//! state machine with per-segment group failover.

pub mod canonical;
pub mod codec;
pub mod download;
pub mod entities;
pub mod errors;
pub mod parser;
pub mod xml;
