//! Flash information, version banner, and terminal key parsing.
use uboot_tool::flash_info::{FlashInfo, FlashKind};
use uboot_tool::terminal_key::TerminalKey;
use uboot_tool::version_info::VersionInfo;

#[test]
fn kind_spi() {
    let r = FlashKind::parse(b"spi\r").unwrap();
    assert_eq!(r, FlashKind::Spi);
}

#[test]
fn kind_nand() {
    let r = FlashKind::parse(b"nand\r").unwrap();
    assert_eq!(r, FlashKind::Nand);
}

#[test]
fn flash_size() {
    let mut r = FlashInfo::default();
    r.fill_parse(b"Block:64KB Chip:8MB*1\r").unwrap();
    assert_eq!(
        r,
        FlashInfo {
            block: 64 << 10,
            size: 8 << 20,
            count: 1,
            ..Default::default()
        }
    );
}

#[test]
fn flash_id() {
    let mut r = FlashInfo::default();
    r.fill_parse(b"ID:0xA1 0x40 0x17\r").unwrap();
    assert_eq!(
        r,
        FlashInfo {
            id: [0xa1, 0x40, 0x17],
            ..Default::default()
        }
    );
}

#[test]
fn flash_name() {
    let mut r = FlashInfo::default();
    r.fill_parse(b"Name:\"XM_FM25Q64\"\r").unwrap();
    assert_eq!(
        r,
        FlashInfo {
            name: b"XM_FM25Q64".to_vec(),
            ..Default::default()
        }
    );
}

#[test]
fn version_full() {
    let r = VersionInfo::parse(b"version: U-Boot 2016.11-g2fc5f58-dirty\r").unwrap();
    assert_eq!(
        r,
        VersionInfo {
            year: 2016,
            month: 11,
            revision: b"g2fc5f58".to_vec(),
            suffix: b"dirty".to_vec(),
        }
    );
}

#[test]
fn version_short() {
    let r = VersionInfo::parse(b"U-Boot 2020.09").unwrap();
    assert_eq!(
        r,
        VersionInfo {
            year: 2020,
            month: 9,
            revision: Vec::new(),
            suffix: Vec::new(),
        }
    );
}

#[test]
fn stop_autoboot_by_any_key() {
    let r = TerminalKey::parse_stop_autoboot(b"Hit any key to stop autoboot:  1").unwrap();
    assert_eq!(r, TerminalKey::Any);
}

#[test]
fn stop_autoboot_by_key_a() {
    let r = TerminalKey::parse_stop_autoboot(b"Hit a to stop autoboot:  3").unwrap();
    assert_eq!(r, TerminalKey::Key(b'a'));
}

#[test]
fn stop_autoboot_by_ctrl_c() {
    let r = TerminalKey::parse_stop_autoboot(b"Hit ctrl+c to stop autoboot:  0").unwrap();
    assert_eq!(r, TerminalKey::Ctrl(b'C'));
}

#[test]
fn stop_autoboot_by_ctrl_d() {
    let r = TerminalKey::parse_stop_autoboot(b"Hit Ctrl-D to stop autoboot").unwrap();
    assert_eq!(r, TerminalKey::Ctrl(b'D'));
}

#[test]
fn encode_keys() {
    assert_eq!(TerminalKey::Any.encode(), vec![b'a']);
    assert_eq!(TerminalKey::Key(b'x').encode(), vec![b'x']);
    // Every control chord encodes as its letter minus 0x40.
    for l in b'A'..=b'Z' {
        assert_eq!(TerminalKey::Ctrl(l).encode(), vec![l - 0x40]);
    }
    assert_eq!(TerminalKey::Ctrl(b'C').encode(), vec![0x03]);
}
