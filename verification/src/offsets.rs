//! The offset table: one byte offset per record, derived by a single
//! sequential pass over the capture, and persisted in a compact binary
//! sidecar encoding (a little-endian 64-bit count followed by the offsets,
//! each little-endian 64 bits).

use vstd::bytes::{
    lemma_auto_spec_u64_to_from_le_bytes, spec_u64_from_le_bytes, spec_u64_to_le_bytes,
    u64_from_le_bytes, u64_to_le_bytes,
};
use vstd::prelude::*;
use vstd::slice::{slice_subrange, slice_to_vec};

use crate::decoder::PcapDecoder;
use crate::model::{
    capture_ok, lemma_skip_twice, offset_at, offsets_match, record_extent, records_from,
    scan_complete,
};
use crate::pcap::{global_header_ok, parsed_record};
use crate::record::RecordModel;
use crate::IndexError;

verus! {

/// The sidecar encoding of the offsets themselves, one after another,
/// little-endian 64 bits each.
pub open spec fn encode_entries(offs: Seq<u64>) -> Seq<u8>
    decreases offs.len(),
{
    if offs.len() == 0 {
        Seq::empty()
    } else {
        spec_u64_to_le_bytes(offs[0]) + encode_entries(offs.skip(1))
    }
}

/// The sidecar encoding of an offset table: the number of entries as a
/// little-endian 64-bit value, then the entries.
pub open spec fn encode_table(offs: Seq<u64>) -> Seq<u8> {
    spec_u64_to_le_bytes(offs.len() as u64) + encode_entries(offs)
}

/// The offset table a sidecar byte string holds, or `None` when the bytes
/// are not exactly a count followed by that many 64-bit entries.
pub open spec fn decode_table(bytes: Seq<u8>) -> Option<Seq<u64>> {
    if bytes.len() < 8 {
        Option::None
    } else {
        let n = spec_u64_from_le_bytes(bytes.take(8)) as int;
        if bytes.len() == 8 + 8 * n {
            Option::Some(
                Seq::new(
                    n as nat,
                    |i: int| spec_u64_from_le_bytes(bytes.subrange(8 + 8 * i, 16 + 8 * i)),
                ),
            )
        } else {
            Option::None
        }
    }
}

/// Appending one offset appends its eight encoded bytes.
proof fn lemma_encode_entries_push(offs: Seq<u64>, x: u64)
    ensures
        encode_entries(offs.push(x)) == encode_entries(offs) + spec_u64_to_le_bytes(x),
    decreases offs.len(),
{
    if offs.len() == 0 {
        assert(offs.push(x)[0] == x);
        assert(offs.push(x).skip(1) =~= Seq::<u64>::empty());
        assert(encode_entries(offs.push(x)) == spec_u64_to_le_bytes(x) + encode_entries(
            Seq::<u64>::empty(),
        ));
        assert(spec_u64_to_le_bytes(x) + Seq::<u8>::empty() =~= spec_u64_to_le_bytes(x));
        assert(encode_entries(offs) + spec_u64_to_le_bytes(x) =~= spec_u64_to_le_bytes(x));
    } else {
        assert(offs.push(x).skip(1) =~= offs.skip(1).push(x));
        lemma_encode_entries_push(offs.skip(1), x);
        assert(encode_entries(offs.push(x)) =~= encode_entries(offs) + spec_u64_to_le_bytes(x));
    }
}

/// The entries encode to eight bytes each.
proof fn lemma_encode_entries_len(offs: Seq<u64>)
    ensures
        encode_entries(offs).len() == 8 * offs.len(),
    decreases offs.len(),
{
    lemma_auto_spec_u64_to_from_le_bytes();
    if offs.len() != 0 {
        lemma_encode_entries_len(offs.skip(1));
    }
}

/// Entry `i` of an encoded table sits at bytes `8 + 8i` to `16 + 8i`.
proof fn lemma_encode_entries_index(offs: Seq<u64>, i: int)
    requires
        0 <= i < offs.len(),
    ensures
        encode_entries(offs).subrange(8 * i, 8 * i + 8) == spec_u64_to_le_bytes(offs[i]),
    decreases i,
{
    lemma_auto_spec_u64_to_from_le_bytes();
    lemma_encode_entries_len(offs.skip(1));
    if i == 0 {
        assert(encode_entries(offs).subrange(0, 8) =~= spec_u64_to_le_bytes(offs[0]));
    } else {
        lemma_encode_entries_index(offs.skip(1), i - 1);
        assert(encode_entries(offs).subrange(8 * i, 8 * i + 8) =~= encode_entries(
            offs.skip(1),
        ).subrange(8 * (i - 1), 8 * (i - 1) + 8));
        assert(offs.skip(1)[i - 1] == offs[i]);
    }
}

/// Law: the sidecar encoding round-trips. Decoding the encoding of any
/// offset table yields exactly that table again.
pub proof fn lemma_table_round_trip(offs: Seq<u64>)
    requires
        offs.len() <= u64::MAX,
    ensures
        decode_table(encode_table(offs)) == Some(offs),
{
    lemma_auto_spec_u64_to_from_le_bytes();
    lemma_encode_entries_len(offs);
    let bytes = encode_table(offs);
    assert(bytes.take(8) =~= spec_u64_to_le_bytes(offs.len() as u64));
    assert(spec_u64_from_le_bytes(bytes.take(8)) == offs.len() as u64);
    assert forall|i: int| 0 <= i < offs.len() implies spec_u64_from_le_bytes(
        bytes.subrange(8 + 8 * i, 16 + 8 * i),
    ) == offs[i] by {
        lemma_encode_entries_index(offs, i);
        assert(bytes.subrange(8 + 8 * i, 16 + 8 * i) =~= encode_entries(offs).subrange(
            8 * i,
            8 * i + 8,
        ));
    }
    assert(decode_table(bytes)->Some_0 =~= offs);
}

/// The byte offsets at which the records of a capture start, in record
/// order.
#[derive(Debug)]
pub struct PacketOffsets {
    inner: Vec<u64>,
}

impl View for PacketOffsets {
    type V = Seq<u64>;

    closed spec fn view(&self) -> Seq<u64> {
        self.inner@
    }
}

impl PacketOffsets {
    /// The number of records the table indexes.
    pub fn len(&self) -> (r: usize)
        ensures
            r == self@.len(),
    {
        self.inner.len()
    }

    /// The offsets themselves, in record order.
    pub fn offsets(&self) -> (r: &Vec<u64>)
        ensures
            r@ == self@,
    {
        &self.inner
    }

    /// Builds the offset table of a capture by one sequential pass: the
    /// position of the decoder is recorded before each record is decoded.
    /// Succeeds exactly when the whole capture decodes; a pass that fails
    /// partway returns an error and no table.
    pub fn from_pcap(data: &Vec<u8>) -> (r: Result<PacketOffsets, IndexError>)
        ensures
            match r {
                Ok(po) => capture_ok(data@) && offsets_match(data@, po@),
                Err(e) => !capture_ok(data@) && e == IndexError::Format,
            },
    {
        let mut dec = match PcapDecoder::new(slice_to_vec(data.as_slice())) {
            Ok(d) => d,
            Err(e) => {
                return Err(e);
            },
        };
        let ghost hdr = data@.take(24);
        let ghost all = records_from(hdr, data@.skip(24));
        let mut inner: Vec<u64> = Vec::new();
        proof {
            assert(all.take(0) =~= Seq::<RecordModel>::empty());
            assert(all.take(0) + records_from(hdr, data@.skip(24)) =~= all);
        }
        loop
            invariant
                dec.bytes() == data@,
                hdr == data@.take(24),
                global_header_ok(data@),
                24 <= dec.cursor() <= data@.len(),
                all == records_from(hdr, data@.skip(24)),
                inner@.len() <= all.len(),
                forall|j: int| 0 <= j < inner@.len() ==> inner@[j] as int == offset_at(all, j),
                dec.cursor() == offset_at(all, inner@.len() as int),
                all == all.take(inner@.len() as int) + records_from(hdr, data@.skip(dec.cursor())),
                scan_complete(hdr, data@.skip(24)) == scan_complete(hdr, data@.skip(dec.cursor())),
            decreases data@.len() - dec.cursor(),
        {
            let ghost k = inner@.len() as int;
            let ghost tail = data@.skip(dec.cursor());
            let told = dec.tell();
            if told == data.len() as u64 {
                proof {
                    assert(tail.len() == 0);
                    assert(records_from(hdr, tail) =~= Seq::<RecordModel>::empty());
                    assert(all =~= all.take(k));
                    assert(all.len() == k);
                }
                return Ok(PacketOffsets { inner });
            }
            match dec.next() {
                Some(rec) => {
                    let ghost ext = record_extent(rec@);
                    proof {
                        assert(tail.len() > 0);
                        assert(parsed_record(hdr, tail) == Some(rec@));
                        assert(ext <= tail.len());
                        assert(records_from(hdr, tail) == seq![rec@] + records_from(
                            hdr,
                            tail.skip(ext),
                        ));
                        lemma_skip_twice(data@, told as int, ext);
                        // the record just decoded is record k of the whole capture
                        assert(all[k] == (all.take(k) + records_from(hdr, tail))[k]);
                        assert(all[k] == rec@);
                        assert(all.take(k + 1) =~= all.take(k) + seq![rec@]);
                        assert(all.take(k + 1) + records_from(hdr, data@.skip(told as int + ext))
                            =~= all.take(k) + records_from(hdr, tail));
                        assert(offset_at(all, k + 1) == offset_at(all, k) + record_extent(all[k]));
                    }
                    inner.push(told);
                },
                None => {
                    proof {
                        assert(records_from(hdr, tail) =~= Seq::<RecordModel>::empty());
                        assert(!scan_complete(hdr, tail));
                    }
                    return Err(IndexError::Format);
                },
            }
        }
    }

    /// Serializes the offset table into its sidecar encoding.
    pub fn save_to(&self) -> (r: Vec<u8>)
        ensures
            r@ == encode_table(self@),
    {
        let n = self.inner.len();
        let mut out: Vec<u8> = u64_to_le_bytes(n as u64);
        let mut i: usize = 0;
        proof {
            assert(self@.take(0) =~= Seq::<u64>::empty());
            assert(out@ + encode_entries(self@.take(0)) =~= out@);
        }
        let ghost head = out@;
        while i < n
            invariant
                i <= n,
                n == self@.len(),
                head == spec_u64_to_le_bytes(n as u64),
                out@ == head + encode_entries(self@.take(i as int)),
            decreases n - i,
        {
            let mut entry = u64_to_le_bytes(self.inner[i]);
            proof {
                lemma_encode_entries_push(self@.take(i as int), self@[i as int]);
                assert(self@.take(i as int).push(self@[i as int]) =~= self@.take(i as int + 1));
                assert(out@ + entry@ =~= head + encode_entries(self@.take(i as int + 1)));
            }
            out.append(&mut entry);
            i = i + 1;
        }
        proof {
            assert(self@.take(n as int) =~= self@);
        }
        out
    }

    /// Deserializes an offset table from its sidecar encoding; fails exactly
    /// when the bytes are not a well-formed encoding.
    pub fn load_from(bytes: &Vec<u8>) -> (r: Result<PacketOffsets, IndexError>)
        ensures
            match r {
                Ok(po) => decode_table(bytes@) == Some(po@),
                Err(e) => decode_table(bytes@) is None && e == IndexError::Decode,
            },
    {
        if bytes.len() < 8 {
            return Err(IndexError::Decode);
        }
        let declared = u64_from_le_bytes(slice_subrange(bytes.as_slice(), 0, 8));
        proof {
            assert(bytes@.subrange(0, 8) =~= bytes@.take(8));
        }
        if declared > bytes.len() as u64 {
            return Err(IndexError::Decode);
        }
        let n = declared as usize;
        let body = bytes.len() - 8;
        if body / 8 != n || body % 8 != 0 {
            proof {
                assert(body == 8 * (body / 8) + body % 8);
                assert(bytes@.len() != 8 + 8 * (declared as int));
            }
            return Err(IndexError::Decode);
        }
        proof {
            assert(body == 8 * (body / 8) + body % 8);
            assert(bytes@.len() == 8 + 8 * (declared as int));
        }
        let mut inner: Vec<u64> = Vec::with_capacity(n);
        let mut i: usize = 0;
        while i < n
            invariant
                i <= n,
                8 + 8 * n == bytes@.len(),
                bytes@.len() <= usize::MAX,
                spec_u64_from_le_bytes(bytes@.take(8)) == n as u64,
                inner@.len() == i,
                forall|j: int|
                    0 <= j < i ==> inner@[j] == spec_u64_from_le_bytes(
                        bytes@.subrange(8 + 8 * j, 16 + 8 * j),
                    ),
            decreases n - i,
        {
            let v = u64_from_le_bytes(slice_subrange(bytes.as_slice(), 8 + 8 * i, 16 + 8 * i));
            inner.push(v);
            i = i + 1;
        }
        proof {
            assert(decode_table(bytes@)->Some_0 =~= inner@);
        }
        Ok(PacketOffsets { inner })
    }
}

} // verus!
