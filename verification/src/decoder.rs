//! A sequential record decoder with an explicit, repositionable cursor.
//!
//! The decoder owns the capture bytes and a byte position. Reading the next
//! record hands the bytes at the cursor to the external parser and advances
//! the cursor past the record; `tell` and `seek` expose the cursor to the
//! random-access layer.

use vstd::prelude::*;

use crate::pcap::{global_header_ok, parsed_record, parser_new, parser_next, parser_src};
use crate::record::Record;
use crate::IndexError;

verus! {

/// A decoder bound to one capture held in memory.
pub struct PcapDecoder {
    /// The external record parser, built from the capture's global header.
    parser: pcap_file::pcap::PcapParser,
    /// The capture bytes.
    data: Vec<u8>,
    /// The cursor: the byte offset the next sequential read starts at.
    pos: usize,
}

impl PcapDecoder {
    /// The capture bytes the decoder reads.
    pub closed spec fn bytes(self) -> Seq<u8> {
        self.data@
    }

    /// The cursor position, as a byte offset from the start of the capture.
    pub closed spec fn cursor(self) -> int {
        self.pos as int
    }

    #[verifier::type_invariant]
    spec fn wf(self) -> bool {
        &&& global_header_ok(self.data@)
        &&& parser_src(self.parser) == self.data@.take(24)
        &&& self.pos <= self.data@.len()
    }

    /// Opens a decoder over the given capture bytes; fails exactly when the
    /// global header is malformed. The cursor starts at the first record,
    /// just past the 24-byte global header.
    pub fn new(data: Vec<u8>) -> (r: Result<PcapDecoder, IndexError>)
        ensures
            match r {
                Ok(d) => {
                    &&& global_header_ok(data@)
                    &&& d.bytes() == data@
                    &&& d.cursor() == 24
                },
                Err(e) => {
                    &&& !global_header_ok(data@)
                    &&& e == IndexError::Format
                },
            },
    {
        match parser_new(&data) {
            Some(p) => Ok(PcapDecoder { parser: p, data, pos: 24 }),
            None => Err(IndexError::Format),
        }
    }

    /// Returns the cursor.
    pub fn tell(&self) -> (r: u64)
        ensures
            r as int == self.cursor(),
    {
        proof {
            use_type_invariant(self);
        }
        self.pos as u64
    }

    /// Moves the cursor to the given byte offset, clamped to the end of the
    /// capture.
    pub fn seek(&mut self, offset: u64)
        ensures
            final(self).bytes() == old(self).bytes(),
            offset as int <= old(self).bytes().len() ==> final(self).cursor() == offset as int,
            offset as int > old(self).bytes().len() ==> final(self).cursor() == old(
                self,
            ).bytes().len(),
    {
        proof {
            use_type_invariant(&*self);
        }
        let n = self.data.len();
        if offset <= n as u64 {
            self.pos = offset as usize;
        } else {
            self.pos = n;
        }
    }

    /// Decodes the record at the cursor and advances the cursor past it.
    /// Returns `None` at the end of the capture, and also when no
    /// well-formed record starts at the cursor; in the latter case the
    /// cursor does not move.
    pub fn next(&mut self) -> (r: Option<Record>)
        ensures
            final(self).bytes() == old(self).bytes(),
            match r {
                Some(rec) => {
                    &&& old(self).cursor() < old(self).bytes().len()
                    &&& parsed_record(
                        old(self).bytes().take(24),
                        old(self).bytes().skip(old(self).cursor()),
                    ) == Some(rec@)
                    &&& rec.incl_len as int == rec.data@.len()
                    &&& final(self).cursor() == old(self).cursor() + 16 + rec.data@.len()
                    &&& final(self).cursor() <= old(self).bytes().len()
                },
                None => {
                    &&& final(self).cursor() == old(self).cursor()
                    &&& (old(self).cursor() < old(self).bytes().len() ==> parsed_record(
                        old(self).bytes().take(24),
                        old(self).bytes().skip(old(self).cursor()),
                    ) is None)
                },
            },
    {
        proof {
            use_type_invariant(&*self);
        }
        if self.pos == self.data.len() {
            return None;
        }
        match parser_next(&self.parser, &self.data, self.pos) {
            Some(rec) => {
                self.pos = self.pos + 16 + rec.data.len();
                Some(rec)
            },
            None => None,
        }
    }
}

} // verus!
