//! Tests of the offset table: the sequential build pass, the sidecar
//! encoding, and its round trip.

use pcap_file_index::offsets::PacketOffsets;
use pcap_file_index::reader::PcapReaderIndex;
use pcap_file_index::IndexError;

/// Payload lengths of the ten records of the test capture.
const LENS: [u32; 10] = [117, 269, 70, 70, 78, 217, 70, 178, 82, 120];

/// Builds a ten-record capture in memory: a 24-byte little-endian global
/// header with microsecond timestamps, then for each record a 16-byte
/// header and its payload.
fn test_capture() -> Vec<u8> {
    let mut v: Vec<u8> = Vec::new();
    v.extend_from_slice(&[0xd4, 0xc3, 0xb2, 0xa1]); // magic, microsecond, little-endian
    v.extend_from_slice(&2u16.to_le_bytes()); // version major
    v.extend_from_slice(&4u16.to_le_bytes()); // version minor
    v.extend_from_slice(&0i32.to_le_bytes()); // timezone correction
    v.extend_from_slice(&0u32.to_le_bytes()); // timestamp accuracy
    v.extend_from_slice(&65535u32.to_le_bytes()); // snap length
    v.extend_from_slice(&1u32.to_le_bytes()); // datalink: ethernet
    for (i, len) in LENS.iter().enumerate() {
        v.extend_from_slice(&(1000 + i as u32).to_le_bytes()); // seconds
        v.extend_from_slice(&(i as u32).to_le_bytes()); // microseconds
        v.extend_from_slice(&len.to_le_bytes()); // included length
        v.extend_from_slice(&len.to_le_bytes()); // original length
        for j in 0..*len {
            v.push((j % 251) as u8);
        }
    }
    v
}

#[test]
fn compare_with_calculated_offsets() {
    let data = test_capture();
    let offsets = PacketOffsets::from_pcap(&data).expect("Error opening pcap data");

    let (mut reader, _) = PcapReaderIndex::from_pcap(&data, None).unwrap();
    let mut calculated_offset: u64 = 24; // initial value == size of pcap file header
    let mut k: usize = 0;
    loop {
        let offset = offsets.offsets().get(k).copied();
        if let Some(pkt) = reader.next() {
            assert_eq!(offset, Some(calculated_offset));
            calculated_offset += 16 + pkt.incl_len as u64;
            k += 1;
        } else {
            assert_eq!(offset, None);
            break;
        }
    }
    assert_eq!(k, 10);
}

#[test]
fn methods() {
    // Create
    let data = test_capture();
    let offsets = PacketOffsets::from_pcap(&data).expect("Error opening pcap data");
    assert_eq!(
        offsets.offsets(),
        &vec![24, 157, 442, 528, 614, 708, 941, 1027, 1221, 1319]
    );

    // Save
    let sidecar = offsets.save_to();
    assert_eq!(sidecar.len(), 8 + 8 * 10);

    // Load
    let load = PacketOffsets::load_from(&sidecar).unwrap();
    assert_eq!(offsets.offsets(), load.offsets());
}

#[test]
fn empty_capture_round_trip() {
    // A capture of just the global header: no records, an empty table.
    let data = test_capture()[..24].to_vec();
    let offsets = PacketOffsets::from_pcap(&data).unwrap();
    assert_eq!(offsets.len(), 0);

    let sidecar = offsets.save_to();
    assert_eq!(sidecar, vec![0u8; 8]);
    let load = PacketOffsets::load_from(&sidecar).unwrap();
    assert_eq!(load.len(), 0);
}

#[test]
fn sidecar_encoding_matches_bincode() {
    // The sidecar schema coincides with bincode's fixed little-endian
    // encoding of a vector of offsets, so such sidecars load unchanged.
    let data = test_capture();
    let offsets = PacketOffsets::from_pcap(&data).unwrap();
    let expected: Vec<u64> = vec![24, 157, 442, 528, 614, 708, 941, 1027, 1221, 1319];
    assert_eq!(offsets.save_to(), bincode::serialize(&expected).unwrap());
}

#[test]
fn build_rejects_bad_magic() {
    let mut data = test_capture();
    data[0] = 0x00;
    assert!(matches!(PacketOffsets::from_pcap(&data), Err(IndexError::Format)));
}

#[test]
fn build_rejects_short_header() {
    let data = vec![0xd4u8, 0xc3, 0xb2, 0xa1, 2, 0];
    assert!(matches!(PacketOffsets::from_pcap(&data), Err(IndexError::Format)));
}

#[test]
fn build_rejects_truncated_record() {
    let mut data = test_capture();
    data.truncate(data.len() - 1); // the last record loses its final byte
    assert!(matches!(PacketOffsets::from_pcap(&data), Err(IndexError::Format)));
}

#[test]
fn load_rejects_malformed_sidecar() {
    // Too short for a count.
    assert!(matches!(
        PacketOffsets::load_from(&vec![1, 2, 3]),
        Err(IndexError::Decode)
    ));
    // Count does not match the body length.
    let mut sidecar = PacketOffsets::from_pcap(&test_capture()).unwrap().save_to();
    sidecar.truncate(sidecar.len() - 3);
    assert!(matches!(PacketOffsets::load_from(&sidecar), Err(IndexError::Decode)));
}
