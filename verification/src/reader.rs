//! The random-access layer: a reader that owns one decoder bound to the
//! capture and one offset table, loaded from the sidecar or rebuilt from the
//! capture, and that repositions the decoder to serve indexed reads.

use vstd::prelude::*;
use vstd::slice::slice_to_vec;
use vstd::string::StringExecFns;

use crate::decoder::PcapDecoder;
use crate::model::{
    capture_ok, capture_records, lemma_complete_consumes_all, lemma_offset_at_grows,
    lemma_record_at_offset, lemma_skip_twice, offset_at, offsets_match,
};
use crate::offsets::{decode_table, encode_table, lemma_table_round_trip, PacketOffsets};
use crate::pcap::global_header_ok;
use crate::record::Record;
use crate::IndexError;

verus! {

/// A capture reader with random access: indexed `get` through the offset
/// table, sequential `next` through the decoder's cursor, both over the one
/// decoder the reader owns.
pub struct PcapReaderIndex {
    /// The decoder bound to the capture, whose cursor `get` and `next` move.
    inner: PcapDecoder,
    /// The offset table, one entry per record.
    offsets: PacketOffsets,
}

impl PcapReaderIndex {
    /// The capture bytes the reader reads.
    pub closed spec fn spec_data(self) -> Seq<u8> {
        self.inner.bytes()
    }

    /// The decoder's cursor.
    pub closed spec fn spec_cursor(self) -> int {
        self.inner.cursor()
    }

    /// The reader's offset table.
    pub closed spec fn spec_offsets(self) -> Seq<u64> {
        self.offsets@
    }

    /// Whether the reader's table is exactly the offset table of its
    /// capture. A table rebuilt from the capture always is; a table loaded
    /// from a sidecar is whatever the sidecar held.
    pub open spec fn is_synced(self) -> bool {
        offsets_match(self.spec_data(), self.spec_offsets())
    }

    /// Builds a reader with full control over the table policy: rebuild the
    /// table from the capture or load it from the given sidecar bytes, and
    /// optionally re-encode the table. The encoded table is handed back to
    /// the caller for persisting; this layer does no I/O.
    pub fn new_full_control(
        pcap_data: &Vec<u8>,
        offset_data: Option<&Vec<u8>>,
        recalc_offset: bool,
        save_offset_file: bool,
    ) -> (r: Result<(PcapReaderIndex, Option<Vec<u8>>), IndexError>)
        ensures
            match r {
                Ok((reader, saved)) => {
                    &&& reader.spec_data() == pcap_data@
                    &&& reader.spec_cursor() == 24
                    &&& global_header_ok(pcap_data@)
                    &&& if recalc_offset {
                        capture_ok(pcap_data@) && reader.is_synced()
                    } else {
                        match offset_data {
                            Some(b) => decode_table(b@) == Some(reader.spec_offsets()),
                            None => false,
                        }
                    }
                    &&& match saved {
                        Some(v) => save_offset_file && v@ == encode_table(reader.spec_offsets()),
                        None => !save_offset_file,
                    }
                },
                Err(e) => {
                    if recalc_offset {
                        !capture_ok(pcap_data@) && e == IndexError::Format
                    } else {
                        match offset_data {
                            None => e == IndexError::Missing,
                            Some(b) => {
                                if decode_table(b@) is None {
                                    e == IndexError::Decode
                                } else {
                                    !global_header_ok(pcap_data@) && e == IndexError::Format
                                }
                            },
                        }
                    }
                },
            },
    {
        let offsets = if recalc_offset {
            match PacketOffsets::from_pcap(pcap_data) {
                Ok(o) => o,
                Err(e) => {
                    return Err(e);
                },
            }
        } else {
            match offset_data {
                None => {
                    return Err(IndexError::Missing);
                },
                Some(b) => match PacketOffsets::load_from(b) {
                    Ok(o) => o,
                    Err(e) => {
                        return Err(e);
                    },
                },
            }
        };
        let saved = if save_offset_file {
            Some(offsets.save_to())
        } else {
            None
        };
        let inner = match PcapDecoder::new(slice_to_vec(pcap_data.as_slice())) {
            Ok(d) => d,
            Err(e) => {
                return Err(e);
            },
        };
        Ok((PcapReaderIndex { inner, offsets }, saved))
    }

    /// Opens a reader with the default policy: load the offset table from
    /// the sidecar bytes, and on any failure there — sidecar missing,
    /// undecodable, or capture unreadable — rebuild the table from the
    /// capture and hand back its encoding for persisting. The load error is
    /// deliberately discarded: the rebuild re-derives the table from the
    /// capture itself.
    pub fn from_pcap(pcap_data: &Vec<u8>, offset_data: Option<&Vec<u8>>) -> (r: Result<
        (PcapReaderIndex, Option<Vec<u8>>),
        IndexError,
    >)
        ensures
            ({
                let use_sidecar = match offset_data {
                    Some(b) => decode_table(b@) is Some && global_header_ok(pcap_data@),
                    None => false,
                };
                match r {
                    Ok((reader, saved)) => {
                        &&& reader.spec_data() == pcap_data@
                        &&& reader.spec_cursor() == 24
                        &&& if use_sidecar {
                            &&& match offset_data {
                                Some(b) => decode_table(b@) == Some(reader.spec_offsets()),
                                None => false,
                            }
                            &&& saved is None
                        } else {
                            &&& capture_ok(pcap_data@)
                            &&& reader.is_synced()
                            &&& match saved {
                                Some(v) => v@ == encode_table(reader.spec_offsets()),
                                None => false,
                            }
                        }
                    },
                    Err(e) => {
                        &&& !use_sidecar
                        &&& !capture_ok(pcap_data@)
                        &&& e == IndexError::Format
                    },
                }
            }),
    {
        let first = Self::new_full_control(pcap_data, offset_data, false, false);
        if first.is_err() {
            Self::new_full_control(pcap_data, offset_data, true, true)
        } else {
            first
        }
    }

    /// The sidecar path for a capture path: the fixed suffix appended.
    pub fn default_offset_path(pcap_path: &str) -> (r: String)
        ensures
            r@ == pcap_path@ + ".offset.bincode"@,
    {
        let mut s = pcap_path.to_owned();
        s.append(".offset.bincode");
        s
    }

    /// Returns the record at `index`, or `None` when `index` is out of
    /// range. For a valid index the decoder is repositioned to the record's
    /// tabulated offset and exactly one record is decoded there; a decode
    /// failure at a valid index (possible only when the table does not
    /// belong to this capture) is also reported as `None`.
    pub fn get(&mut self, index: usize) -> (r: Option<Record>)
        ensures
            final(self).spec_data() == old(self).spec_data(),
            final(self).spec_offsets() == old(self).spec_offsets(),
            index >= old(self).spec_offsets().len() ==> r is None && final(self).spec_cursor()
                == old(self).spec_cursor(),
            old(self).is_synced() && index < old(self).spec_offsets().len() ==> ({
                let rs = capture_records(old(self).spec_data());
                match r {
                    Some(rec) => rec@ == rs[index as int] && final(self).spec_cursor()
                        == offset_at(rs, index as int + 1),
                    None => false,
                }
            }),
    {
        let ghost orig = *self;
        if index >= self.offsets.len() {
            return None;
        }
        let off = self.offsets.offsets()[index];
        proof {
            if orig.is_synced() {
                let bytes = orig.spec_data();
                let rs = capture_records(bytes);
                lemma_record_at_offset(bytes.take(24), bytes.skip(24), index as int);
                lemma_offset_at_grows(rs, 0, index as int);
                lemma_skip_twice(bytes, 24, offset_at(rs, index as int) - 24);
            }
        }
        self.inner.seek(off);
        self.inner.next()
    }

    /// Decodes the record at the decoder's cursor and advances the cursor,
    /// independently of the offset table; `None` at the end of the capture
    /// or when no well-formed record starts at the cursor.
    pub fn next(&mut self) -> (r: Option<Record>)
        ensures
            final(self).spec_data() == old(self).spec_data(),
            final(self).spec_offsets() == old(self).spec_offsets(),
            forall|i: int|
                0 <= i < capture_records(old(self).spec_data()).len() && old(self).spec_cursor()
                    == #[trigger] offset_at(capture_records(old(self).spec_data()), i)
                    ==> match r {
                    Some(rec) => rec@ == capture_records(old(self).spec_data())[i]
                        && final(self).spec_cursor()
                        == offset_at(capture_records(old(self).spec_data()), i + 1),
                    None => false,
                },
            capture_ok(old(self).spec_data()) && old(self).spec_cursor() == offset_at(
                capture_records(old(self).spec_data()),
                capture_records(old(self).spec_data()).len() as int,
            ) ==> r is None && final(self).spec_cursor() == old(self).spec_cursor(),
    {
        let ghost orig = *self;
        let r = self.inner.next();
        proof {
            let bytes = orig.spec_data();
            let rs = capture_records(bytes);
            assert forall|i: int|
                0 <= i < rs.len() && orig.spec_cursor() == #[trigger] offset_at(
                    rs,
                    i,
                ) implies match r {
                Some(rec) => rec@ == rs[i] && self.spec_cursor() == offset_at(rs, i + 1),
                None => false,
            } by {
                lemma_record_at_offset(bytes.take(24), bytes.skip(24), i);
                lemma_offset_at_grows(rs, 0, i);
                lemma_skip_twice(bytes, 24, offset_at(rs, i) - 24);
            }
            if capture_ok(bytes) && orig.spec_cursor() == offset_at(rs, rs.len() as int) {
                lemma_complete_consumes_all(bytes.take(24), bytes.skip(24));
            }
        }
        r
    }

    /// The number of records the offset table indexes; no I/O.
    pub fn len(&self) -> (r: usize)
        ensures
            r == self.spec_offsets().len(),
    {
        self.offsets.len()
    }
}

/// Law: opening twice in a row agrees. The offset table a second open loads
/// from the sidecar saved by a first open is exactly the table the first
/// open built, and it is still the capture's own offset table, so both opens
/// serve identical `len` and `get` results — and the second open decodes no
/// record stream at all.
pub proof fn lemma_reopen_loads_same_table(bytes: Seq<u8>, offs: Seq<u64>)
    requires
        offsets_match(bytes, offs),
        offs.len() <= u64::MAX,
    ensures
        decode_table(encode_table(offs)) == Some(offs),
        offsets_match(bytes, decode_table(encode_table(offs))->Some_0),
{
    lemma_table_round_trip(offs);
}

/// Law: rebuilding is deterministic. Any two offset tables of the same
/// capture bytes are equal, so a reader whose sidecar was deleted or
/// corrupted and whose table was therefore rebuilt serves exactly the `len`
/// and `get` results it served before.
pub proof fn lemma_rebuild_restores_table(bytes: Seq<u8>, built: Seq<u64>, rebuilt: Seq<u64>)
    requires
        offsets_match(bytes, built),
        offsets_match(bytes, rebuilt),
    ensures
        built == rebuilt,
{
    assert(built =~= rebuilt);
}

} // verus!
