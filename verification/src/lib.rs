//! Random access into a sequentially decoded packet capture.
//!
//! A capture file is a fixed-size global header followed by variable-length,
//! self-delimiting records. This crate builds a table of the byte offset at
//! which each record starts, persists that table in a compact sidecar
//! encoding, and uses it to reposition the decoder for O(1) access to the
//! n-th record.

use vstd::prelude::*;

pub mod decoder;
pub mod model;
pub mod offsets;
pub mod pcap;
pub mod reader;
pub mod record;

verus! {

/// Failures of building, loading or decoding an offset table.
#[derive(Clone, Copy, Debug, PartialEq, Eq, Structural)]
pub enum IndexError {
    /// The capture bytes could not be fully decoded: a malformed global
    /// header, a malformed record, or a truncated final record.
    Format,
    /// The sidecar bytes do not hold a well-formed offset table encoding.
    Decode,
    /// A required input (such as the sidecar contents) was not supplied.
    Missing,
}

} // verus!
