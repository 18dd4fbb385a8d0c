//! The boundary to the external capture-format decoder.
//!
//! The record format itself is not this library's business: `pcap_file`'s
//! slice parser decodes the global header and one record at a time. Both
//! calls are pure functions of the bytes handed to them, so each is wrapped
//! once here with a contract; everything else in the crate is verified
//! against those two contracts.

use vstd::prelude::*;

use crate::record::{Record, RecordModel};

verus! {

#[verifier::external_type_specification]
#[verifier::external_body]
pub struct ExPcapParser(pcap_file::pcap::PcapParser);

/// The 24 global-header bytes a parser was built from. The parser's later
/// behaviour is a function of those bytes alone.
pub uninterp spec fn parser_src(p: pcap_file::pcap::PcapParser) -> Seq<u8>;

/// What `pcap_file`'s record parser yields on a byte string: given the
/// global-header bytes `hdr` and the input `tail`, the record decoded from
/// the head of `tail`, or `None` when `tail` does not begin with a record
/// that is well-formed under that header.
pub uninterp spec fn parsed_record(hdr: Seq<u8>, tail: Seq<u8>) -> Option<RecordModel>;

/// The big-endian 32-bit value at the start of a byte string.
pub open spec fn magic_of(bytes: Seq<u8>) -> int {
    (bytes[0] as int) * 0x1000000 + (bytes[1] as int) * 0x10000 + (bytes[2] as int) * 0x100
        + (bytes[3] as int)
}

/// Whether a byte string begins with a well-formed 24-byte global header:
/// long enough, and starting with one of the four accepted magic numbers
/// (each endianness, with microsecond or nanosecond timestamps).
pub open spec fn global_header_ok(bytes: Seq<u8>) -> bool {
    &&& bytes.len() >= 24
    &&& {
        ||| magic_of(bytes) == 0xA1B2C3D4
        ||| magic_of(bytes) == 0xA1B23C4D
        ||| magic_of(bytes) == 0xD4C3B2A1
        ||| magic_of(bytes) == 0x4D3CB2A1
    }
}

/// Relies on `pcap_file::pcap::PcapParser::new`: it consumes the 24-byte
/// global header and succeeds exactly when the input is at least 24 bytes
/// long and begins with one of the four capture magic numbers.
#[verifier::external_body]
pub(crate) fn parser_new(data: &Vec<u8>) -> (r: Option<pcap_file::pcap::PcapParser>)
    ensures
        r is Some <==> global_header_ok(data@),
        r matches Some(p) ==> parser_src(p) == data@.take(24),
{
    match pcap_file::pcap::PcapParser::new(data.as_slice()) {
        Ok((_, p)) => Some(p),
        Err(_) => None,
    }
}

/// Relies on `pcap_file::pcap::PcapParser::next_packet`: it reads a 16-byte
/// record header and then exactly `incl_len` payload bytes from the head of
/// the slice, and its outcome is a function of the parser's header bytes and
/// the slice alone.
#[verifier::external_body]
pub(crate) fn parser_next(
    p: &pcap_file::pcap::PcapParser,
    data: &Vec<u8>,
    pos: usize,
) -> (r: Option<Record>)
    requires
        pos <= data@.len(),
    ensures
        match r {
            Some(rec) => {
                &&& parsed_record(parser_src(*p), data@.skip(pos as int)) == Some(rec@)
                &&& rec.incl_len as int == rec.data@.len()
                &&& pos + 16 + rec.data@.len() <= data@.len()
            },
            None => parsed_record(parser_src(*p), data@.skip(pos as int)) is None,
        },
{
    match p.next_packet(&data[pos..]) {
        Ok((_, pkt)) => Some(Record {
            ts_sec: pkt.timestamp.as_secs() as u32,
            ts_nsec: pkt.timestamp.subsec_nanos(),
            incl_len: pkt.data.len() as u32,
            orig_len: pkt.orig_len,
            data: pkt.data.into_owned(),
        }),
        Err(_) => None,
    }
}

} // verus!
