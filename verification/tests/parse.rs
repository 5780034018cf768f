//! Number and size-literal parsing.
use uboot_tool::parse_utils::{
    dec_dig, dec_u64, dec_u64_units, format_size, hex_dig, hex_u64, hex_u64_0x, hex_u8, hex_u8_0x,
    size_u64, units_mul,
};

#[test]
fn parse_hex_dig() {
    assert_eq!(hex_dig(b"0", 0), Some((0x0, 1)));
    assert_eq!(hex_dig(b"5", 0), Some((0x5, 1)));
    assert_eq!(hex_dig(b"a", 0), Some((0xa, 1)));
    assert_eq!(hex_dig(b"A", 0), Some((0xa, 1)));
    assert_eq!(hex_dig(b"f", 0), Some((0xf, 1)));
    assert_eq!(hex_dig(b"F", 0), Some((0xf, 1)));
    assert_eq!(hex_dig(b"Fa", 0), Some((0xf, 1)));
    assert!(hex_dig(b".", 0).is_none());
    assert!(hex_dig(b"g", 0).is_none());
}

#[test]
fn parse_hex_u8() {
    assert_eq!(hex_u8(b"0", 0), Some((0x0, 1)));
    assert_eq!(hex_u8(b"00", 0), Some((0x0, 2)));
    assert_eq!(hex_u8(b"05", 0), Some((0x5, 2)));
    assert_eq!(hex_u8(b"50", 0), Some((0x50, 2)));
    assert_eq!(hex_u8(b"aA", 0), Some((0xaa, 2)));
    assert_eq!(hex_u8(b"Aa", 0), Some((0xaa, 2)));
    assert_eq!(hex_u8(b"f0", 0), Some((0xf0, 2)));
    assert_eq!(hex_u8(b"0F", 0), Some((0xf, 2)));
    assert_eq!(hex_u8(b"Fa", 0), Some((0xfa, 2)));
    assert_eq!(hex_u8(b"Fab", 0), Some((0xfa, 2)));
    assert!(hex_u8(b".", 0).is_none());
    assert!(hex_u8(b"g0", 0).is_none());
    assert_eq!(hex_u8(b"0g", 0), Some((0x0, 1)));
}

#[test]
fn parse_hex_u8_0x() {
    assert_eq!(hex_u8_0x(b"0x1", 0), Some((0x1, 3)));
    assert_eq!(hex_u8_0x(b"0X1", 0), Some((0x1, 3)));
    assert_eq!(hex_u8_0x(b"0x01", 0), Some((0x1, 4)));
    assert_eq!(hex_u8_0x(b"0x012", 0), Some((0x1, 4)));
}

#[test]
fn parse_hex_u64_0x() {
    assert_eq!(hex_u64_0x(b"0x1", 0), Some((0x1, 3)));
    assert_eq!(hex_u64_0x(b"0x42000000", 0), Some((0x42000000, 10)));
}

#[test]
fn parse_dec_dig() {
    assert_eq!(dec_dig(b"7", 0), Some((7, 1)));
    assert!(dec_dig(b"a", 0).is_none());
}

#[test]
fn parse_dec_u64() {
    assert_eq!(dec_u64(b"64KB", 0), Some((64, 2)));
    assert_eq!(dec_u64(b"0", 0), Some((0, 1)));
    assert!(dec_u64(b"x", 0).is_none());
    // Twenty decimal digits leave the 64-bit range.
    assert!(dec_u64(b"99999999999999999999", 0).is_none());
}

#[test]
fn parse_units() {
    assert_eq!(units_mul(b"KB", 0), (1024, 2));
    assert_eq!(units_mul(b"m", 0), (1048576, 1));
    assert_eq!(units_mul(b"b", 0), (1, 1));
    assert_eq!(units_mul(b"", 0), (1, 0));
    assert_eq!(dec_u64_units(b"8M", 0), Some((8 << 20, 2)));
}

#[test]
fn parse_size_examples() {
    // The four examples the size grammar is specified by.
    assert_eq!(size_u64(b"0x100", 0), Some((256, 5)));
    assert_eq!(size_u64(b"64KB", 0), Some((65536, 4)));
    assert_eq!(size_u64(b"8M", 0), Some((8388608, 2)));
    assert_eq!(size_u64(b"16", 0), Some((16, 2)));
    // Seventeen hex digits leave the 64-bit range: a parse error, not a
    // silent wrap.
    assert!(size_u64(b"0x10000000000000000", 0).is_none());
}

#[test]
fn format_size_round_trip() {
    let cases: [u64; 6] = [0, 1, 0x40, 0x42000000, 0xdeadbeef, u64::MAX];
    for n in cases {
        let text = format_size(n);
        assert_eq!(&text[0..2], b"0x");
        assert!(text.len() >= 10);
        let parsed = size_u64(&text, 0).expect("formatted size must parse");
        assert_eq!(parsed, (n, text.len()));
    }
    assert_eq!(format_size(0x40), b"0x00000040".to_vec());
    assert_eq!(format_size(0xdeadbeef), b"0xdeadbeef".to_vec());
}
