use ros_flake::bytes::{read_be16, read_be32, read_le32};
use ros_flake::pcap::{Endianess, PcapHeader};

#[test]
fn decode_binary_sequence() {
    const BYTES: [u8; 4] = [0x12, 0x34, 0x56, 0x78];

    let be_decoded = read_be32(&BYTES, 0);
    let le_decoded = read_le32(&BYTES, 0);

    assert_eq!(be_decoded, 0x12_34_56_78);
    assert_eq!(le_decoded, 0x78_56_34_12);
}

#[test]
fn decode_two_u16() {
    const BYTES: [u8; 4] = [0x12, 0x34, 0x56, 0x78];

    let bytes_first_part: &[u8] = BYTES.get(0..2).unwrap_or(&[0, 0]);
    let bytes_second_part: &[u8] = BYTES.get(2..4).unwrap_or(&[0, 0]);

    const FIRST_PART: u16 = 0x_12_34;
    const SECOND_PART: u16 = 0x_56_78;

    assert_eq!(FIRST_PART, Endianess::Big.read_u16(bytes_first_part));
    assert_eq!(FIRST_PART, read_be16(&BYTES, 0));

    assert_eq!(SECOND_PART, Endianess::Big.read_u16(bytes_second_part));
    assert_eq!(SECOND_PART, read_be16(&BYTES, 2));
}

#[test]
fn decode_length_prefixed_blob() {
    const LENGTH_PREFIX_SIZE: usize = 2;

    let blob: [u8; 7] = [0, 5, b'b', b'y', b't', b'e', b'z'];

    let length_prefix_no_map = Endianess::Big.read_u16(blob.get(..LENGTH_PREFIX_SIZE).unwrap_or(&[0, 0]));
    let length_prefix_with_map = blob
        .get(..LENGTH_PREFIX_SIZE)
        .map(|s| read_be16(s, 0))
        .unwrap_or(0);

    assert_eq!(length_prefix_no_map, length_prefix_with_map);
    assert_eq!(usize::from(length_prefix_with_map), blob.len() - 2);

    let payload = blob
        .get(LENGTH_PREFIX_SIZE..LENGTH_PREFIX_SIZE + usize::from(length_prefix_with_map))
        .unwrap_or(&[]);

    let payload_str = std::str::from_utf8(payload).unwrap_or("");

    assert_eq!(payload_str, "bytez");
}

#[test]
fn lib_decode_pcap_header() {
    // 1. read the entire header (24 octets) into a buffer
    let mut header = [0u8; 24];
    header[..4].copy_from_slice(&[0xD4, 0xC3, 0xB2, 0xA1]);
    header[4..6].copy_from_slice(&2u16.to_le_bytes());
    header[6..8].copy_from_slice(&4u16.to_le_bytes());
    header[16..20].copy_from_slice(&65535u32.to_le_bytes());
    header[20..24].copy_from_slice(&1u32.to_le_bytes());
    // 2. parse it into components, test that magic number is correct, deduce endianess
    // 3. construct a struct from the components
    let h = PcapHeader::parse(&header).unwrap();
    assert_eq!(h.endianess, Endianess::Little);
    assert_eq!(h.version.major, 2);
    assert_eq!(h.version.minor, 4);
    assert_eq!(h.snapshot_len, 65535);
    assert_eq!(h.fcs_and_link_type, 1);
}

#[test]
fn read_u16_of_wrong_length_is_zero() {
    assert_eq!(Endianess::Big.read_u16(&[1, 2, 3]), 0);
    assert_eq!(Endianess::Little.read_u32(&[1, 2]), 0);
    assert_eq!(Endianess::Little.read_u16(&[0x34, 0x12]), 0x1234);
}
