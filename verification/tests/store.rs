//! The variable store, its typed getters, and the MTD partition table.
use uboot_tool::variables::{MemRegion, MtdTable, Variables};
use uboot_tool::UbootError;

#[test]
fn parse_env() {
    let mut r = Variables::default();

    r.extend_parse_env(b" baudrate =115200\r").unwrap();
    r.extend_parse_env(b"bootargs=init=linuxrc mem=${osmem} console=ttyAMA0,115200 root=/dev/mtdblock1 rootfstype=squashfs mtdparts=hi_sfc:0x40000(boot),0x2E0000(romfs),0x420000(user),0x40000(web),0x30000(custom),0x50000(mtd)").unwrap();
    r.extend_parse_env(b"bootcmd= setenv setargs setenv bootargs ${bootargs};run setargs;sf probe 0;sf read 43000000 40000 550000;squashfsload;bootm 0x42000000\r\n").unwrap();
    r.extend_parse_env(b"bootdelay=0").unwrap();
    r.extend_parse_env(b"bootfile=\"uImage\"\r").unwrap();

    assert_eq!(r.get(b"baudrate").unwrap().as_slice(), b"115200");
    assert_eq!(r.get(b"bootdelay").unwrap().as_slice(), b"0");
    assert_eq!(r.get(b"bootfile").unwrap().as_slice(), b"\"uImage\"");
    assert_eq!(
        r.get(b"bootargs").unwrap().as_slice(),
        b"init=linuxrc mem=${osmem} console=ttyAMA0,115200 root=/dev/mtdblock1 rootfstype=squashfs mtdparts=hi_sfc:0x40000(boot),0x2E0000(romfs),0x420000(user),0x40000(web),0x30000(custom),0x50000(mtd)".as_slice()
    );
    assert_eq!(
        r.get(b"bootcmd").unwrap().as_slice(),
        b"setenv setargs setenv bootargs ${bootargs};run setargs;sf probe 0;sf read 43000000 40000 550000;squashfsload;bootm 0x42000000".as_slice()
    );
}

#[test]
fn parse_bdinfo() {
    let mut r = Variables::default();

    r.extend_parse_env(b"arch_number = 0x00001F40\r").unwrap();
    r.extend_parse_env(b"DRAM bank   = 0x00000000").unwrap();
    r.extend_parse_env(b"-> start    = 0x40000000\r").unwrap();
    r.extend_parse_env(b"-> size     = 0x04000000").unwrap();

    assert_eq!(r.get(b"arch_number").unwrap().as_slice(), b"0x00001F40");
    assert_eq!(r.get(b"DRAM bank").unwrap().as_slice(), b"0x00000000");
    assert_eq!(r.get(b"-> start").unwrap().as_slice(), b"0x40000000");
    assert_eq!(r.get(b"-> size").unwrap().as_slice(), b"0x04000000");

    let ram = r.get_ram_info().unwrap();
    assert_eq!(ram, MemRegion { base: 0x40000000, size: 0x04000000 });
}

#[test]
fn env_value_keeps_equals_signs() {
    // Everything after the first separator up to the terminator is the value.
    let mut r = Variables::default();
    r.extend_parse_env(b"bootargs=a=1 b=2 c=3\rtail").unwrap();
    assert_eq!(r.get(b"bootargs").unwrap().as_slice(), b"a=1 b=2 c=3");
}

#[test]
fn env_line_without_separator_is_refused() {
    let mut r = Variables::default();
    assert_eq!(
        r.extend_parse_env(b"no separator here"),
        Err(UbootError::InvalidSequence)
    );
    assert_eq!(r.len(), 0);
}

#[test]
fn env_last_write_wins_and_order_is_kept() {
    let mut r = Variables::default();
    r.extend_parse_env(b"one=1\r").unwrap();
    r.extend_parse_env(b"two=2\r").unwrap();
    r.extend_parse_env(b"one=3\r").unwrap();
    let entries = r.entries();
    assert_eq!(entries.len(), 2);
    assert_eq!(entries[0].0.as_slice(), b"one");
    assert_eq!(entries[0].1.as_slice(), b"3");
    assert_eq!(entries[1].0.as_slice(), b"two");
    assert_eq!(entries[1].1.as_slice(), b"2");
    assert_eq!(r.env_text(), b"one=3\ntwo=2\n".to_vec());
}

#[test]
fn typed_getters() {
    let mut r = Variables::default();
    r.extend_parse_env(b"small=0x10\r").unwrap();
    r.extend_parse_env(b"large=0x123456789\r").unwrap();
    r.extend_parse_env(b"words=hello\r").unwrap();
    assert_eq!(r.get_u64(b"small"), Ok(16));
    assert_eq!(r.get_u32(b"small"), Ok(16));
    assert_eq!(r.get_u64(b"large"), Ok(0x123456789));
    assert_eq!(r.get_u32(b"large"), Err(UbootError::ValueOutOfRange));
    assert_eq!(r.get_u64(b"words"), Err(UbootError::InvalidSequence));
    assert_eq!(r.get_u64(b"absent"), Err(UbootError::VariableNotFound));
}

#[test]
fn mtd_parse() {
    let t = Variables::parse_mtd_parts(b"hi_sfc:0x40000(boot),0x2E0000(romfs),0x420000(user)")
        .unwrap();
    assert_eq!(t.len(), 3);
    assert_eq!(t.entries[0].0.as_slice(), b"boot");
    assert_eq!(t.entries[0].1, MemRegion { base: 0x0, size: 0x40000 });
    assert_eq!(t.entries[1].0.as_slice(), b"romfs");
    assert_eq!(t.entries[1].1, MemRegion { base: 0x40000, size: 0x2E0000 });
    assert_eq!(t.entries[2].0.as_slice(), b"user");
    assert_eq!(t.entries[2].1, MemRegion { base: 0x320000, size: 0x420000 });
}

#[test]
fn mtd_empty_list_is_not_an_error() {
    let t = Variables::parse_mtd_parts(b"hi_sfc:").unwrap();
    assert_eq!(t.len(), 0);
}

#[test]
fn mtd_without_colon_is_refused() {
    assert_eq!(
        Variables::parse_mtd_parts(b"no colon anywhere"),
        Err(UbootError::InvalidSequence)
    );
}

#[test]
fn mtd_sum_overflow_is_refused() {
    assert_eq!(
        Variables::parse_mtd_parts(
            b"p:0xffffffffffffffff(one),0x1(two)"
        ),
        Err(UbootError::SizeOverflow)
    );
}

#[test]
fn mtd_text_output() {
    let t = Variables::parse_mtd_parts(b"hi_sfc:0x40000(boot),0x2E0000(romfs)").unwrap();
    assert_eq!(
        t.mtd_text(),
        b"# name size\nboot 0x00040000\nromfs 0x002e0000\n".to_vec()
    );
}
