//! Hex-dump line parsing: the `md.b` transcript format.
use uboot_tool::hex_dump::HexDump;
use uboot_tool::UbootError;

#[test]
fn parse_full() {
    let p = HexDump::parse_line(
        b"42000000: 15 05 00 ea fe ff ff ea fe ff ff ea fe ff ff ea    ................\r",
    )
    .unwrap();
    assert_eq!(
        p.data,
        vec![
            0x15, 0x5, 0x0, 0xea, 0xfe, 0xff, 0xff, 0xea, 0xfe, 0xff, 0xff, 0xea, 0xfe, 0xff,
            0xff, 0xea
        ]
    );
}

#[test]
fn parse_partial() {
    let p = HexDump::parse_line(b"42000000: 15 05 00 ea fe ff ff ea                            ........\r")
        .unwrap();
    assert_eq!(p.data, vec![0x15, 0x5, 0x0, 0xea, 0xfe, 0xff, 0xff, 0xea]);
}

#[test]
fn parse_single() {
    let p = HexDump::parse_line(b"42000000: 15                                                 .\r")
        .unwrap();
    assert_eq!(p.data, vec![0x15]);
}

#[test]
fn parse_empty() {
    let p = HexDump::parse_line(b"42000000:\r").unwrap();
    assert_eq!(p.data, Vec::<u8>::new());
}

#[test]
fn parse_overflow() {
    let p = HexDump::parse_line(
        b"42000000: 15 05 00 ea fe ff ff ea fe ff ff ea fe ff ff ea    1a .............\r",
    )
    .unwrap();
    assert_eq!(
        p.data,
        vec![
            0x15, 0x5, 0x0, 0xea, 0xfe, 0xff, 0xff, 0xea, 0xfe, 0xff, 0xff, 0xea, 0xfe, 0xff,
            0xff, 0xea
        ]
    );
}

#[test]
fn parse_rejects_junk() {
    assert_eq!(
        HexDump::parse_line(b"no address here"),
        Err(UbootError::InvalidSequence)
    );
    assert_eq!(HexDump::parse_line(b"42000000"), Err(UbootError::InvalidSequence));
}

#[test]
fn printed_line_round_trip() {
    // Rebuild an md.b line from raw bytes and parse it back.
    let bytes: Vec<u8> = (0u8..=255u8).take(16).map(|b| b.wrapping_mul(17)).collect();
    let mut line = b"42000040: ".to_vec();
    for (i, b) in bytes.iter().enumerate() {
        if i > 0 {
            line.push(b' ');
        }
        line.extend_from_slice(format!("{:02x}", b).as_bytes());
    }
    line.extend_from_slice(b"    ................\r");
    let p = HexDump::parse_line(&line).unwrap();
    assert_eq!(p.data, bytes);
}

#[test]
fn seventeen_pairs_keep_sixteen() {
    // Single-space separated pairs beyond the sixteenth are discarded.
    let mut line = b"42000000:".to_vec();
    for i in 0u8..17 {
        line.push(b' ');
        line.extend_from_slice(format!("{:02x}", i).as_bytes());
    }
    line.push(b'\r');
    let p = HexDump::parse_line(&line).unwrap();
    assert_eq!(p.data.len(), 16);
    assert_eq!(p.data, (0u8..16).collect::<Vec<u8>>());
}
