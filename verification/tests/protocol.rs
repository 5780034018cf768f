//! The conversation machines: framing, checksumming, login, queries and the
//! partition dump, driven by injected transcripts.
use uboot_tool::client::{
    dump_address, mtd_parts_from_env, version_query_cmd, version_query_step, Action, DumpFlow,
    DumpState, EnvQuery, EnvStep, FlashInfoQuery, FlashStep, LineEvent, LoginFlow, LoginState,
    RX_DELAY_MS, TIMEOUT_MS,
};
use uboot_tool::crc32::crc32;
use uboot_tool::flash_info::{FlashInfo, FlashKind};
use uboot_tool::framer::LineFramer;
use uboot_tool::transport::{RxBuffer, SubscriberSet};
use uboot_tool::variables::MemRegion;
use uboot_tool::UbootError;

fn line(bytes: &[u8]) -> LineEvent {
    LineEvent::Line(bytes.to_vec())
}

#[test]
fn framer_is_chunking_insensitive() {
    // The same byte stream, cut at every possible single point, frames to
    // the same lines as splitting the concatenation on newlines.
    let stream = b"status 1\r\nstatus 2\r\n\r\nprompt# ";
    let expected: Vec<Vec<u8>> = vec![
        b"status 1\r".to_vec(),
        b"status 2\r".to_vec(),
        b"\r".to_vec(),
        b"prompt# ".to_vec(),
    ];
    for cut in 0..=stream.len() {
        let mut fr = LineFramer::new();
        let mut got: Vec<Vec<u8>> = Vec::new();
        got.extend(fr.push_chunk(&stream[..cut]));
        got.extend(fr.push_chunk(&stream[cut..]));
        got.extend(fr.finish());
        assert_eq!(got, expected);
    }
}

#[test]
fn framer_timer_flushes_open_tail_only() {
    let mut fr = LineFramer::new();
    let none_yet = fr.push_chunk(b"partial prompt");
    assert!(none_yet.is_empty());
    assert_eq!(fr.timer_fire(), Some(b"partial prompt".to_vec()));
    // After a complete line nothing is buffered worth flushing.
    let full = fr.push_chunk(b"done\r\n");
    assert_eq!(full, vec![b"done\r".to_vec()]);
    assert_eq!(fr.timer_fire(), None);
    assert_eq!(fr.timer_fire(), None);
}

#[test]
fn crc32_known_answer() {
    // The standard IEEE 802.3 check value.
    assert_eq!(crc32(b"123456789"), 0xCBF4_3926);
    assert_eq!(crc32(b""), 0);
}

#[test]
fn timing_constants_allow_a_flush() {
    assert!(RX_DELAY_MS < TIMEOUT_MS);
}

#[test]
fn login_intercepts_autoboot_with_any_key() {
    let (mut login, initial) = LoginFlow::new();
    assert_eq!(initial.len(), 2);
    assert!(matches!(&initial[0], Action::SendBytes(b) if b == &vec![0x03]));
    assert!(matches!(&initial[1], Action::SendCmd(b) if b.is_empty()));

    // Booting chatter ends in carriage returns and is skipped.
    let (acts, outc) = login.on_event(line(b"booting...\r"));
    assert!(acts.is_empty() && outc.is_none());
    // The inbound side goes idle: start watching for the banner.
    let (acts, outc) = login.on_event(LineEvent::Idle);
    assert!(acts.is_empty() && outc.is_none());
    assert_eq!(login.state, LoginState::WatchAutoboot);

    // The banner arrives: a Ctrl-C, then the requested key (`a` for any).
    let (acts, outc) = login.on_event(line(b"Hit any key to stop autoboot:  1\r"));
    assert!(outc.is_none());
    assert_eq!(acts.len(), 2);
    assert!(matches!(&acts[0], Action::SendBytes(b) if b == &vec![0x03]));
    assert!(matches!(&acts[1], Action::SendBytes(b) if b == &vec![b'a']));

    // The unterminated line is the prompt.
    let (acts, outc) = login.on_event(line(b"hisilicon # "));
    assert!(acts.is_empty());
    assert_eq!(outc, Some(Ok(b"hisilicon # ".to_vec())));
    assert_eq!(login.state, LoginState::Done);
}

#[test]
fn login_prompt_timeout_after_interception() {
    let (mut login, _initial) = LoginFlow::new();
    login.on_event(LineEvent::Idle);
    login.on_event(line(b"Hit ctrl+c to stop autoboot:  0\r"));
    let (_acts, outc) = login.on_event(LineEvent::Idle);
    assert_eq!(outc, Some(Err(UbootError::PromptTimeout)));
}

#[test]
fn version_query_parses_banner() {
    assert_eq!(version_query_cmd(), b"getinfo version".to_vec());
    // Echoes and noise are skipped.
    assert!(version_query_step(&line(b"getinfo version\r")).is_none());
    let got = version_query_step(&line(b"version: U-Boot 2016.11-g2fc5f58-dirty\r"));
    let v = got.unwrap().unwrap();
    assert_eq!(v.year, 2016);
    assert_eq!(v.month, 11);
    assert_eq!(v.revision, b"g2fc5f58".to_vec());
    assert_eq!(v.suffix, b"dirty".to_vec());
    assert_eq!(
        version_query_step(&LineEvent::Idle),
        Some(Err(UbootError::QueryTimeout))
    );
}

#[test]
fn flash_info_assembles_fragments() {
    let (q, cmd) = FlashInfoQuery::new();
    assert_eq!(cmd, b"getinfo bootmode".to_vec());
    let (q, cmd) = match q.on_event(line(b"spi\r")) {
        FlashStep::Continue(q, cmd) => (q, cmd),
        FlashStep::Done(_) => panic!("query ended early"),
    };
    assert_eq!(cmd, Some(b"getinfo spi".to_vec()));
    let mut q = q;
    for l in [
        b"Block:64KB Chip:8MB*1\r".as_slice(),
        b"ID:0xA1 0x40 0x17\r".as_slice(),
        b"Name:\"XM_FM25Q64\"\r".as_slice(),
    ] {
        q = match q.on_event(line(l)) {
            FlashStep::Continue(q, cmd) => {
                assert!(cmd.is_none());
                q
            },
            FlashStep::Done(_) => panic!("query ended early"),
        };
    }
    let info = match q.on_event(LineEvent::Idle) {
        FlashStep::Done(Ok(info)) => info,
        _ => panic!("query should finish at idle"),
    };
    assert_eq!(
        info,
        FlashInfo {
            kind: FlashKind::Spi,
            block: 65536,
            size: 8_388_608,
            count: 1,
            id: [0xA1, 0x40, 0x17],
            name: b"XM_FM25Q64".to_vec(),
        }
    );
}

#[test]
fn environment_query_folds_lines() {
    let (q, cmd) = EnvQuery::printenv();
    assert_eq!(cmd, b"printenv".to_vec());
    let q = match q.on_event(line(b"baudrate=115200\r")) {
        EnvStep::Continue(q) => q,
        EnvStep::Done(_) => panic!("query ended early"),
    };
    // Unparseable and unterminated lines change nothing.
    let q = match q.on_event(line(b"noise")) {
        EnvStep::Continue(q) => q,
        EnvStep::Done(_) => panic!("query ended early"),
    };
    let vars = match q.on_event(LineEvent::Idle) {
        EnvStep::Done(Ok(vars)) => vars,
        _ => panic!("query should finish at idle"),
    };
    assert_eq!(vars.get(b"baudrate").unwrap().as_slice(), b"115200");
}

#[test]
fn mtd_table_from_bootargs() {
    let (q, _cmd) = EnvQuery::printenv();
    let q = match q.on_event(line(
        b"bootargs=console=ttyAMA0 mtdparts=hi_sfc:0x40000(boot),0x2E0000(romfs)\r",
    )) {
        EnvStep::Continue(q) => q,
        EnvStep::Done(_) => panic!("query ended early"),
    };
    let vars = match q.on_event(LineEvent::Idle) {
        EnvStep::Done(Ok(vars)) => vars,
        _ => panic!("query should finish at idle"),
    };
    let t = mtd_parts_from_env(&vars).unwrap();
    assert_eq!(t.len(), 2);
    assert_eq!(t.entries[1].1, MemRegion { base: 0x40000, size: 0x2E0000 });

    let empty = uboot_tool::variables::Variables::default();
    assert_eq!(mtd_parts_from_env(&empty), Err(UbootError::NoMtdParts));
}

/// Drive a dump over an injected transcript of the staging, checksum and
/// transcription phases; returns the machine, everything written to the
/// sink, and the final outcome.
fn run_dump(payload: &[u8], device_crc: u32) -> (DumpFlow, Vec<u8>, Option<Result<(), UbootError>>) {
    let region = MemRegion { base: 0x40000, size: payload.len() as u64 };
    let ram = MemRegion { base: 0x40000000, size: 0x04000000 };
    let addr = dump_address(&ram);
    assert_eq!(addr, 0x42000000);

    let (mut dump, initial) = DumpFlow::new(region, addr);
    assert!(matches!(&initial[0], Action::SendCmd(c) if c == &b"sf probe 0".to_vec()));

    // sf probe: one echo line, then quiet.
    let (acts, outc) = dump.on_event(line(b"sf probe 0\r"));
    assert!(acts.is_empty() && outc.is_none());
    let (acts, outc) = dump.on_event(LineEvent::Idle);
    assert!(outc.is_none());
    assert!(
        matches!(&acts[0], Action::SendCmd(c) if c == &b"sf read 0x42000000 0x00040000 0x00000040".to_vec())
    );

    // sf read: one echo line, then quiet.
    let (_acts, outc) = dump.on_event(line(b"sf read 0x42000000 0x00040000 0x00000040\r"));
    assert!(outc.is_none());
    let (acts, outc) = dump.on_event(LineEvent::Idle);
    assert!(outc.is_none());
    assert!(matches!(&acts[0], Action::SendCmd(c) if c == &b"crc32 0x42000000 0x00000040".to_vec()));

    // The device reports its checksum over the staged copy.
    let crc_line = format!("crc32 for 0x42000000 ... 0x{:08x}\r", device_crc);
    let (acts, outc) = dump.on_event(line(crc_line.as_bytes()));
    assert!(outc.is_none());
    assert!(matches!(&acts[0], Action::SendCmd(c) if c == &b"md.b 0x42000000 0x00000040".to_vec()));

    // The hex transcript: the echo, then sixteen bytes per line.
    let (acts, outc) = dump.on_event(line(b"md.b 0x42000000 0x00000040\r"));
    assert!(acts.is_empty() && outc.is_none());
    let mut written: Vec<u8> = Vec::new();
    let mut last = None;
    for (row, chunk) in payload.chunks(16).enumerate() {
        let mut l = format!("{:08x}:", 0x42000000u64 + 16 * row as u64);
        for b in chunk {
            l.push_str(&format!(" {:02x}", b));
        }
        l.push_str("    ................\r");
        let (acts, outc) = dump.on_event(line(l.as_bytes()));
        for a in acts {
            match a {
                Action::WriteSink(data) => written.extend_from_slice(&data),
                Action::Progress(n) => assert_eq!(n, written.len() as u64),
                _ => panic!("unexpected action during transcription"),
            }
        }
        last = Some(outc);
    }
    (dump, written, last.unwrap())
}

#[test]
fn dump_happy_path() {
    let payload: Vec<u8> = (0u8..64).map(|b| b.wrapping_mul(37).wrapping_add(5)).collect();
    let device_crc = crc32(&payload);
    let (dump, written, outcome) = run_dump(&payload, device_crc);
    assert_eq!(written, payload);
    assert_eq!(written.len(), 64);
    assert_eq!(outcome, Some(Ok(())));
    assert_eq!(dump.state, DumpState::Finished);
}

#[test]
fn dump_checksum_mismatch() {
    let payload: Vec<u8> = (0u8..64).map(|b| b.wrapping_mul(37).wrapping_add(5)).collect();
    let device_crc = crc32(&payload);
    let mut flipped = payload.clone();
    flipped[17] ^= 0x01;
    let (_dump, written, outcome) = run_dump(&flipped, device_crc);
    // Every byte is still written before the mismatch is noticed.
    assert_eq!(written.len(), 64);
    assert_eq!(outcome, Some(Err(UbootError::ChecksumMismatch)));
}

#[test]
fn dump_requires_spi_echo() {
    let region = MemRegion { base: 0, size: 0x40 };
    let (mut dump, _initial) = DumpFlow::new(region, 0x42000000);
    let (_acts, outc) = dump.on_event(LineEvent::Idle);
    assert_eq!(outc, Some(Err(UbootError::SpiCommandFailed)));
}

#[test]
fn dump_timeout_mid_stream() {
    let payload: Vec<u8> = vec![0; 32];
    let region = MemRegion { base: 0, size: payload.len() as u64 };
    let (mut dump, _initial) = DumpFlow::new(region, 0x42000000);
    dump.on_event(line(b"sf probe 0\r"));
    dump.on_event(LineEvent::Idle);
    dump.on_event(line(b"sf read ...\r"));
    dump.on_event(LineEvent::Idle);
    dump.on_event(line(b"crc32 for 0x42000000 ... 0x00000000\r"));
    let (_acts, outc) = dump.on_event(LineEvent::Idle);
    assert_eq!(outc, Some(Err(UbootError::DumpTimeout)));
}

#[test]
fn dump_cancel_sends_interrupt() {
    let region = MemRegion { base: 0, size: 0x40 };
    let (mut dump, _initial) = DumpFlow::new(region, 0x42000000);
    let acts = dump.cancel();
    assert_eq!(acts.len(), 1);
    assert!(matches!(&acts[0], Action::SendBytes(b) if b == &vec![0x03]));
    assert_eq!(dump.state, DumpState::Finished);
}

#[test]
fn subscribers_are_evicted_and_kept_in_order() {
    let mut subs = SubscriberSet::new();
    subs.insert(1);
    subs.insert(2);
    subs.insert(3);
    subs.mark_closed(2);
    let ids = subs.begin_broadcast();
    assert_eq!(ids, vec![1, 3]);
    // A failed delivery closes the subscriber before the next sweep.
    subs.mark_closed(1);
    let ids = subs.begin_broadcast();
    assert_eq!(ids, vec![3]);
}

#[test]
fn rx_buffer_accumulates_and_clears() {
    let mut buf = RxBuffer::new();
    buf.push(b"abc");
    buf.push(b"def");
    assert_eq!(buf.take_snapshot(), b"abcdef".to_vec());
    assert_eq!(buf.take_snapshot(), Vec::<u8>::new());
    // The buffer is bounded: pushes beyond the limit are dropped.
    let big = vec![7u8; 70000];
    buf.push(&big);
    let snap = buf.take_snapshot();
    assert_eq!(snap.len(), 65536);
}

#[test]
fn dump_overrun_is_reported() {
    // The partition declares eight bytes but a full sixteen-byte line comes.
    let region = MemRegion { base: 0, size: 8 };
    let (mut dump, _initial) = DumpFlow::new(region, 0x42000000);
    dump.on_event(line(b"sf probe 0\r"));
    dump.on_event(LineEvent::Idle);
    dump.on_event(line(b"sf read ...\r"));
    dump.on_event(LineEvent::Idle);
    dump.on_event(line(b"crc32 for 0x42000000 ... 0x12345678\r"));
    let (acts, outc) = dump.on_event(line(
        b"42000000: 00 01 02 03 04 05 06 07 08 09 0a 0b 0c 0d 0e 0f    ................\r",
    ));
    // The line is still written and reported before the failure.
    assert!(matches!(&acts[0], Action::WriteSink(d) if d.len() == 16));
    assert!(matches!(&acts[1], Action::Progress(16)));
    assert_eq!(outc, Some(Err(UbootError::DumpOverrun)));
}

#[test]
fn dump_rejects_unreadable_checksum() {
    let region = MemRegion { base: 0, size: 8 };
    let (mut dump, _initial) = DumpFlow::new(region, 0x42000000);
    dump.on_event(line(b"sf probe 0\r"));
    dump.on_event(LineEvent::Idle);
    dump.on_event(line(b"sf read ...\r"));
    dump.on_event(LineEvent::Idle);
    let (_acts, outc) = dump.on_event(line(b"crc32 for nothing useful here\r"));
    assert_eq!(outc, Some(Err(UbootError::InvalidSequence)));
}
