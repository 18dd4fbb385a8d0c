//! Tests of the random-access reader: indexed reads, sequential reads, and
//! the load-or-build orchestration with its self-healing.

use pcap_file_index::reader::PcapReaderIndex;
use pcap_file_index::IndexError;

/// Payload lengths of the ten records of the test capture.
const LENS: [u32; 10] = [117, 269, 70, 70, 78, 217, 70, 178, 82, 120];

/// Builds the same ten-record capture as the offset table tests.
fn test_capture() -> Vec<u8> {
    let mut v: Vec<u8> = Vec::new();
    v.extend_from_slice(&[0xd4, 0xc3, 0xb2, 0xa1]); // magic, microsecond, little-endian
    v.extend_from_slice(&2u16.to_le_bytes()); // version major
    v.extend_from_slice(&4u16.to_le_bytes()); // version minor
    v.extend_from_slice(&0i32.to_le_bytes()); // timezone correction
    v.extend_from_slice(&0u32.to_le_bytes()); // timestamp accuracy
    v.extend_from_slice(&65535u32.to_le_bytes()); // snap length
    v.extend_from_slice(&1u32.to_le_bytes()); // datalink: ethernet
    for (i, len) in LENS.iter().enumerate() {
        v.extend_from_slice(&(1000 + i as u32).to_le_bytes()); // seconds
        v.extend_from_slice(&(i as u32).to_le_bytes()); // microseconds
        v.extend_from_slice(&len.to_le_bytes()); // included length
        v.extend_from_slice(&len.to_le_bytes()); // original length
        for j in 0..*len {
            v.push((j % 251) as u8);
        }
    }
    v
}

/// The asserts the original exercised against the test capture.
fn asserts_for_pcap(pcap: &mut PcapReaderIndex) {
    assert_eq!(pcap.len(), 10);
    assert_eq!(pcap.get(0).unwrap().incl_len, 117);
    assert_eq!(pcap.get(9).unwrap().incl_len, 120);
    assert_eq!(pcap.get(3).unwrap().incl_len, 70);
    assert!(pcap.get(10).is_none());
}

#[test]
fn new() {
    let data = test_capture();

    // 1st: Reuse sidecar => fail, because there is none yet.
    let pcap = PcapReaderIndex::new_full_control(&data, None, false, false);
    assert!(matches!(pcap, Err(IndexError::Missing)));

    // 2nd: Rebuild and hand back a sidecar => success.
    let (mut pcap, saved) = PcapReaderIndex::new_full_control(&data, None, true, true).unwrap();
    let sidecar = saved.expect("a rebuild with saving must hand the sidecar back");
    asserts_for_pcap(&mut pcap);

    // 3rd: Reuse that sidecar => success.
    let (mut pcap, saved) =
        PcapReaderIndex::new_full_control(&data, Some(&sidecar), false, false).unwrap();
    assert!(saved.is_none());
    asserts_for_pcap(&mut pcap);
}

#[test]
fn from_pcap() {
    let data = test_capture();

    // 1st run: nothing to load, so the table is built and handed back.
    let (mut pcap, saved) = PcapReaderIndex::from_pcap(&data, None).unwrap();
    let sidecar = saved.expect("the first open must hand the sidecar back");
    asserts_for_pcap(&mut pcap);

    // 2nd run: the sidecar is loaded; nothing is rebuilt or saved.
    let (mut pcap, saved) = PcapReaderIndex::from_pcap(&data, Some(&sidecar)).unwrap();
    assert!(saved.is_none());
    asserts_for_pcap(&mut pcap);
}

#[test]
fn iterator() {
    let data = test_capture();
    let (mut pcap, _) = PcapReaderIndex::new_full_control(&data, None, true, true).unwrap();
    let mut incl_lens: Vec<u32> = Vec::new();
    while let Some(p) = pcap.next() {
        incl_lens.push(p.incl_len);
    }
    assert_eq!(incl_lens, vec![117, 269, 70, 70, 78, 217, 70, 178, 82, 120]);
}

#[test]
fn sequential_reads_end_after_last_record() {
    let data = test_capture();
    let (mut pcap, _) = PcapReaderIndex::from_pcap(&data, None).unwrap();
    for len in LENS.iter() {
        assert_eq!(pcap.next().unwrap().incl_len, *len);
    }
    assert!(pcap.next().is_none());
    assert!(pcap.next().is_none());
}

#[test]
fn get_matches_sequential_iteration() {
    let data = test_capture();
    let (mut sequential, _) = PcapReaderIndex::from_pcap(&data, None).unwrap();
    let mut records: Vec<pcap_file_index::record::Record> = Vec::new();
    while let Some(p) = sequential.next() {
        records.push(p);
    }

    let (mut indexed, _) = PcapReaderIndex::from_pcap(&data, None).unwrap();
    assert_eq!(indexed.len(), records.len());
    for i in 0..records.len() {
        let got = indexed.get(i).unwrap();
        assert_eq!(got.ts_sec, records[i].ts_sec);
        assert_eq!(got.ts_nsec, records[i].ts_nsec);
        assert_eq!(got.incl_len, records[i].incl_len);
        assert_eq!(got.orig_len, records[i].orig_len);
        assert_eq!(got.data, records[i].data);
    }
}

#[test]
fn get_beyond_len_is_absent() {
    let data = test_capture();
    let (mut pcap, _) = PcapReaderIndex::from_pcap(&data, None).unwrap();
    assert!(pcap.get(10).is_none());
    assert!(pcap.get(11).is_none());
    assert!(pcap.get(usize::MAX).is_none());
    // An absent result leaves indexed access intact.
    assert_eq!(pcap.get(9).unwrap().incl_len, 120);
}

#[test]
fn open_twice_yields_identical_results() {
    let data = test_capture();
    let (mut first, saved) = PcapReaderIndex::from_pcap(&data, None).unwrap();
    let sidecar = saved.unwrap();
    let (mut second, saved) = PcapReaderIndex::from_pcap(&data, Some(&sidecar)).unwrap();
    // The second open loaded instead of rebuilding...
    assert!(saved.is_none());
    // ...and serves the same length and records.
    assert_eq!(first.len(), second.len());
    for i in 0..first.len() {
        assert_eq!(first.get(i).unwrap().data, second.get(i).unwrap().data);
    }
}

#[test]
fn reopen_heals_missing_or_corrupt_sidecar() {
    let data = test_capture();
    let (mut pcap, saved) = PcapReaderIndex::from_pcap(&data, None).unwrap();
    let sidecar = saved.unwrap();

    // Sidecar deleted: the open rebuilds and hands back the same sidecar.
    let (mut healed, saved) = PcapReaderIndex::from_pcap(&data, None).unwrap();
    assert_eq!(saved.unwrap(), sidecar);
    asserts_for_pcap(&mut healed);

    // Sidecar corrupted: the open rebuilds as well.
    let mut corrupt = sidecar.clone();
    corrupt.truncate(5);
    let (mut healed, saved) = PcapReaderIndex::from_pcap(&data, Some(&corrupt)).unwrap();
    assert_eq!(saved.unwrap(), sidecar);
    asserts_for_pcap(&mut healed);
    asserts_for_pcap(&mut pcap);
}

#[test]
fn open_fails_on_unreadable_capture() {
    let mut data = test_capture();
    data[2] = 0xff; // break the magic number
    assert!(matches!(
        PcapReaderIndex::from_pcap(&data, None),
        Err(IndexError::Format)
    ));
}

#[test]
fn timestamps_are_preserved() {
    let data = test_capture();
    let (mut pcap, _) = PcapReaderIndex::from_pcap(&data, None).unwrap();
    let rec = pcap.get(1).unwrap();
    assert_eq!(rec.ts_sec, 1001);
    assert_eq!(rec.ts_nsec, 1000); // one microsecond
    assert_eq!(rec.orig_len, 269);
    assert_eq!(rec.data.len(), 269);
}

#[test]
fn default_offset_path_appends_fixed_suffix() {
    assert_eq!(
        PcapReaderIndex::default_offset_path("tests/test_in.pcap"),
        "tests/test_in.pcap.offset.bincode"
    );
}
