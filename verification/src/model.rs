//! The mathematical model of a capture: the sequence of records a byte
//! string denotes, the byte offset at which each record starts, and whether
//! the records consume the input exactly.
//!
//! Everything here is defined from `parsed_record`, the one-record parse at
//! the decoder boundary, by walking the input from the end of the 24-byte
//! global header.

use vstd::prelude::*;

use crate::pcap::{global_header_ok, parsed_record};
use crate::record::RecordModel;

verus! {

/// The number of bytes one record occupies in the capture: its 16-byte
/// header followed by its payload.
pub open spec fn record_extent(r: RecordModel) -> int {
    16 + r.incl_len as int
}

/// The records decoded one after another from `tail` under the global-header
/// bytes `hdr`, stopping at the end of the input or at the first byte
/// position where no well-formed record starts.
pub open spec fn records_from(hdr: Seq<u8>, tail: Seq<u8>) -> Seq<RecordModel>
    decreases tail.len(),
{
    if tail.len() == 0 {
        Seq::empty()
    } else {
        match parsed_record(hdr, tail) {
            Option::None => Seq::empty(),
            Option::Some(r) => {
                if record_extent(r) <= tail.len() {
                    seq![r] + records_from(hdr, tail.skip(record_extent(r)))
                } else {
                    seq![r]
                }
            },
        }
    }
}

/// Whether decoding records from `tail` under `hdr` ends exactly at the end
/// of the input, with no trailing or malformed bytes.
pub open spec fn scan_complete(hdr: Seq<u8>, tail: Seq<u8>) -> bool
    decreases tail.len(),
{
    if tail.len() == 0 {
        true
    } else {
        match parsed_record(hdr, tail) {
            Option::None => false,
            Option::Some(r) => {
                if record_extent(r) <= tail.len() {
                    scan_complete(hdr, tail.skip(record_extent(r)))
                } else {
                    false
                }
            },
        }
    }
}

/// The global-header bytes of a capture.
pub open spec fn capture_header(bytes: Seq<u8>) -> Seq<u8> {
    bytes.take(24)
}

/// The records a capture byte string denotes.
pub open spec fn capture_records(bytes: Seq<u8>) -> Seq<RecordModel> {
    if global_header_ok(bytes) {
        records_from(capture_header(bytes), bytes.skip(24))
    } else {
        Seq::empty()
    }
}

/// Whether the whole capture decodes: a well-formed global header followed
/// by records that consume the remaining bytes exactly.
pub open spec fn capture_ok(bytes: Seq<u8>) -> bool {
    &&& global_header_ok(bytes)
    &&& scan_complete(capture_header(bytes), bytes.skip(24))
}

/// The byte offset, from the start of the capture, at which record `i` of
/// `rs` begins: the 24 header bytes, then the extents of the records before
/// it. `offset_at(rs, rs.len())` is the position just past the last record.
pub open spec fn offset_at(rs: Seq<RecordModel>, i: int) -> int
    decreases i,
{
    if i <= 0 {
        24
    } else {
        offset_at(rs, i - 1) + record_extent(rs[i - 1])
    }
}

/// Whether `offs` is exactly the offset table of the capture `bytes`: one
/// entry per record, each the byte offset at which that record starts.
pub open spec fn offsets_match(bytes: Seq<u8>, offs: Seq<u64>) -> bool {
    &&& offs.len() == capture_records(bytes).len()
    &&& forall|i: int|
        0 <= i < offs.len() ==> offs[i] as int == offset_at(capture_records(bytes), i)
}

/// Offsets only grow along the record sequence, by at least the 16-byte
/// record header per step.
pub proof fn lemma_offset_at_grows(rs: Seq<RecordModel>, i: int, j: int)
    requires
        0 <= i <= j,
    ensures
        offset_at(rs, i) + 16 * (j - i) <= offset_at(rs, j),
    decreases j - i,
{
    if i < j {
        lemma_offset_at_grows(rs, i, j - 1);
    }
}

/// Prepending one record shifts every later offset by that record's extent.
proof fn lemma_offset_at_shift(r: RecordModel, rs: Seq<RecordModel>, i: int)
    requires
        1 <= i <= rs.len() + 1,
    ensures
        offset_at(seq![r] + rs, i) == 24 + record_extent(r) + (offset_at(rs, i - 1) - 24),
    decreases i,
{
    let both = seq![r] + rs;
    assert(offset_at(both, i) == offset_at(both, i - 1) + record_extent(both[i - 1]));
    if i == 1 {
        assert(both[0] == r);
        assert(offset_at(both, 0) == 24);
        assert(offset_at(rs, 0) == 24);
    } else {
        lemma_offset_at_shift(r, rs, i - 1);
        assert(both[i - 1] == rs[i - 2]);
        assert(offset_at(rs, i - 1) == offset_at(rs, i - 2) + record_extent(rs[i - 2]));
    }
}

/// Skipping twice is skipping once by the sum.
pub(crate) proof fn lemma_skip_twice(s: Seq<u8>, a: int, b: int)
    requires
        0 <= a,
        0 <= b,
        a + b <= s.len(),
    ensures
        s.skip(a).skip(b) == s.skip(a + b),
{
    assert(s.skip(a).skip(b) =~= s.skip(a + b));
}

/// Law: random access agrees with plain sequential decoding. For every
/// record index `i`, the one-record parse at that record's tabulated offset
/// yields exactly the `i`-th record of the sequentially decoded stream.
pub proof fn lemma_record_at_offset(hdr: Seq<u8>, tail: Seq<u8>, i: int)
    requires
        0 <= i < records_from(hdr, tail).len(),
    ensures
        offset_at(records_from(hdr, tail), i) - 24 < tail.len(),
        parsed_record(hdr, tail.skip(offset_at(records_from(hdr, tail), i) - 24))
            == Some(records_from(hdr, tail)[i]),
    decreases i,
{
    let rs = records_from(hdr, tail);
    let r0 = parsed_record(hdr, tail)->Some_0;
    if i == 0 {
        assert(tail.skip(0) == tail);
    } else {
        // With at least two records the first recursive branch was taken.
        let rest = records_from(hdr, tail.skip(record_extent(r0)));
        assert(rs == seq![r0] + rest);
        lemma_record_at_offset(hdr, tail.skip(record_extent(r0)), i - 1);
        lemma_offset_at_shift(r0, rest, i);
        assert(rest[i - 1] == rs[i]);
        let sub = offset_at(rest, i - 1) - 24;
        lemma_offset_at_grows(rest, 0, i - 1);
        lemma_skip_twice(tail, record_extent(r0), sub);
        assert(tail.skip(record_extent(r0)).skip(sub)
            == tail.skip(offset_at(rs, i) - 24));
    }
}

/// A complete scan consumes the input exactly: the position just past the
/// last record is the end of the input.
pub proof fn lemma_complete_consumes_all(hdr: Seq<u8>, tail: Seq<u8>)
    requires
        scan_complete(hdr, tail),
    ensures
        offset_at(records_from(hdr, tail), records_from(hdr, tail).len() as int)
            == 24 + tail.len(),
    decreases tail.len(),
{
    let rs = records_from(hdr, tail);
    if tail.len() != 0 {
        let r0 = parsed_record(hdr, tail)->Some_0;
        let rest = records_from(hdr, tail.skip(record_extent(r0)));
        assert(rs == seq![r0] + rest);
        lemma_complete_consumes_all(hdr, tail.skip(record_extent(r0)));
        if rs.len() >= 1 {
            lemma_offset_at_shift(r0, rest, rs.len() as int);
        }
    }
}

} // verus!
