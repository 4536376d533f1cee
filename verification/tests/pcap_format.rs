use ros_flake::pcap::{Endianess, Frame, PcapHeader, PcapHeaderError, TimeFormat};

#[test]
fn decode_endianess() {
    for (magic, expect) in [
        (0xA1_B2_C3_D4_u32, Some((Endianess::Big, TimeFormat::SecondsAndMicroseconds))),
        (0xA1_B2_3C_4D_u32, Some((Endianess::Big, TimeFormat::SecondsAndNanoseconds))),
        (0x100_u32, None),
    ] {
        match expect {
            Some(val) => assert_eq!(Endianess::from_magic(magic).unwrap(), val),
            None => {
                let _ = Endianess::from_magic(magic).unwrap_err();
            }
        }
    }
}

#[test]
fn pcap_decode_pcap_header() {
    // Standard PCAP magic (0xA1B2C3D4), version 2.4, little endian
    const PCAP_HEADER_BYTES: [u8; 24] = [
        0xD4, 0xC3, 0xB2, 0xA1, // Magic: 0xA1B2C3D4 in LE
        0x02, 0x00, // Major version: 2
        0x04, 0x00, // Minor version: 4
        0x00, 0x00, 0x00, 0x00, // Reserved1 (ignored)
        0x00, 0x00, 0x00, 0x00, // Reserved2 (ignored)
        0xFF, 0xFF, 0x00, 0x00, // SnapLen: 65535
        0x01, 0x00, 0x00, 0x00, // LinkType: 1 (Ethernet)
    ];

    let header = PcapHeader::parse(&PCAP_HEADER_BYTES).unwrap();

    assert_eq!(header.version.major, 2);
    assert_eq!(header.version.minor, 4);
    assert_eq!(header.endianess, Endianess::Little);
    assert_eq!(header.ts_format, TimeFormat::SecondsAndMicroseconds);
    assert_eq!(header.snapshot_len, 65535);
    assert_eq!(header.fcs_and_link_type, 1);
}

#[test]
fn bad_magic_is_refused() {
    let bytes = [0u8; 24];
    assert!(matches!(PcapHeader::parse(&bytes), Err(PcapHeaderError::BadMagicNumber(0))));
}

#[test]
fn little_endian_nanosecond_magic() {
    assert_eq!(
        Endianess::from_magic(0x4D_3C_B2_A1).unwrap(),
        (Endianess::Little, TimeFormat::SecondsAndNanoseconds)
    );
}

#[test]
fn frame_header_scales_microseconds() {
    let bytes: [u8; 16] = [
        0x00, 0x00, 0x00, 0x0A, // 10 s
        0x00, 0x00, 0x00, 0x07, // 7 us
        0x00, 0x00, 0x00, 0x3C, // captured 60
        0x00, 0x00, 0x05, 0xDC, // original 1500
    ];
    let h = Frame::parse_header(&bytes, &Endianess::Big, &TimeFormat::SecondsAndMicroseconds);
    assert_eq!(h.timestamp.seconds, 10);
    assert_eq!(h.timestamp.nanos, 7000);
    assert_eq!(h.captured_len, 60);
    assert_eq!(h.original_len, 1500);
    assert!(!Frame::header_overflows(&bytes, &Endianess::Big, &TimeFormat::SecondsAndMicroseconds));
}

#[test]
fn nanosecond_timestamps_are_kept() {
    let t = TimeFormat::SecondsAndNanoseconds.parse(5, 999_999_999);
    assert_eq!(t.seconds, 5);
    assert_eq!(t.nanos, 999_999_999);
    let t = TimeFormat::SecondsAndMicroseconds.parse(u32::MAX, 1_000_000);
    assert_eq!(t.seconds, u32::MAX as u64);
    assert_eq!(t.nanos, 1_000_000_000);
}

#[test]
fn microsecond_fraction_too_large_overflows() {
    let mut bytes = [0u8; 16];
    bytes[4..8].copy_from_slice(&5_000_000u32.to_le_bytes());
    assert!(Frame::header_overflows(&bytes, &Endianess::Little, &TimeFormat::SecondsAndMicroseconds));
    assert!(!Frame::header_overflows(&bytes, &Endianess::Little, &TimeFormat::SecondsAndNanoseconds));
    let h = Frame::parse_header(&bytes, &Endianess::Little, &TimeFormat::SecondsAndNanoseconds);
    assert_eq!(h.timestamp.nanos, 5_000_000);
}
