//! The library's own record type: one self-delimiting unit of the capture
//! stream, a small header (timestamp and lengths) followed by the payload.

use vstd::prelude::*;

verus! {

/// One decoded capture record.
#[derive(Debug)]
pub struct Record {
    /// Timestamp of the record, whole seconds.
    pub ts_sec: u32,
    /// Timestamp of the record, nanosecond part.
    pub ts_nsec: u32,
    /// Number of payload bytes stored in the capture (always `data.len()`).
    pub incl_len: u32,
    /// Length of the record on the wire when it was captured.
    pub orig_len: u32,
    /// The payload bytes.
    pub data: Vec<u8>,
}

/// The mathematical shape of a record.
pub struct RecordModel {
    pub ts_sec: u32,
    pub ts_nsec: u32,
    pub incl_len: u32,
    pub orig_len: u32,
    pub data: Seq<u8>,
}

impl View for Record {
    type V = RecordModel;

    open spec fn view(&self) -> RecordModel {
        RecordModel {
            ts_sec: self.ts_sec,
            ts_nsec: self.ts_nsec,
            incl_len: self.incl_len,
            orig_len: self.orig_len,
            data: self.data@,
        }
    }
}

} // verus!
