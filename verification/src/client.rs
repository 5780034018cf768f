//! The protocol layer of the conversation with the device, as pure state
//! machines: the driving loop performs serial reads and writes and feeds
//! what happened back in as events; every decision — what to send, what a
//! line means, when an operation is finished or failed — is made and
//! verified here.
use vstd::prelude::*;

use crate::UbootError;
use crate::ascii::{CR, CTRL_C, EQ, SP};
use crate::crc32::{crc32_fold, crc32_of, crc32_update_bytes, lemma_crc32_fold_append, CRC32_INIT};
use crate::hex_dump::{spec_hexdump_line, HexDump};
use crate::flash_info::{spec_filled, spec_flash_fragment, spec_flash_kind, FlashInfo, FlashKind};
use crate::parse_utils::{
    bytes_at, copy_range, find_bytes, first_match, format_size, hex_u64, hex_u64_0x,
    lemma_first_match_props, push_bytes, spec_format_size, spec_hex_u64, spec_hex_u64_0x,
    subseq_at,
};
use crate::terminal_key::{spec_key_bytes, spec_stop_autoboot, TerminalKey};
use crate::variables::{
    mtd_wf, sizes_sum, spec_kv, spec_mtd_parts, MemRegion, MtdTable, Variables,
};
use crate::varmap::{lookup, upsert};
use crate::version_info::{spec_parse_version, VersionInfo};

verus! {

/// Quiescence delay of the line framer, in milliseconds.
pub const RX_DELAY_MS: u64 = 50;

/// Per-line timeout of every query, in milliseconds.  The framer must flush
/// at least once before a query gives up, so this exceeds the framer delay.
pub const TIMEOUT_MS: u64 = 150;

/// The bytes of `getinfo version`.
pub const CMD_GETINFO_VERSION: [u8; 15] = [103, 101, 116, 105, 110, 102, 111, 32, 118, 101, 114, 115, 105, 111, 110];

/// What the driving loop observed on the inbound side: one framed line, a
/// per-line timeout, or the end of the stream.
pub enum LineEvent {
    Line(Vec<u8>),
    Idle,
    Eof,
}

/// What the driving loop must do next.
pub enum Action {
    /// Write these bytes to the port as they are.
    SendBytes(Vec<u8>),
    /// Write these bytes followed by a carriage return.
    SendCmd(Vec<u8>),
    /// Append these bytes to the dump sink.
    WriteSink(Vec<u8>),
    /// Report this many transcribed bytes on the progress channel.
    Progress(u64),
}

/// The spec-level shape of an action.
pub enum ActionV {
    SendBytes(Seq<u8>),
    SendCmd(Seq<u8>),
    WriteSink(Seq<u8>),
    Progress(u64),
}

impl View for Action {
    type V = ActionV;

    open spec fn view(&self) -> ActionV {
        match self {
            Action::SendBytes(b) => ActionV::SendBytes(b@),
            Action::SendCmd(b) => ActionV::SendCmd(b@),
            Action::WriteSink(b) => ActionV::WriteSink(b@),
            Action::Progress(n) => ActionV::Progress(*n),
        }
    }
}

/// The spec-level shapes of a list of actions.
pub open spec fn acts_view(v: Seq<Action>) -> Seq<ActionV> {
    v.map(|i: int, a: Action| a@)
}

/// A complete console line ends in a carriage return; a line flushed by the
/// quiescence timer (the shell prompt) does not.
pub open spec fn ends_cr(l: Seq<u8>) -> bool {
    l.len() > 0 && l[l.len() - 1] == CR
}

/// Whether a framed line is a complete console line.
pub fn line_complete(l: &[u8]) -> (r: bool)
    ensures
        r == ends_cr(l@),
{
    l.len() > 0 && l[l.len() - 1] == CR
}

/// Where the login conversation stands.
#[derive(Clone, Copy, Debug, PartialEq, Eq, Structural)]
pub enum LoginState {
    /// Reading the first answers: an unterminated line is already the prompt.
    AwaitFirst,
    /// The device went quiet: watch for the autoboot banner, pressing
    /// Ctrl-C at every line.
    WatchAutoboot,
    /// The stop key was sent: the next unterminated line is the prompt.
    AwaitPrompt,
    /// The prompt was captured.
    Done,
    /// The conversation failed for good.
    Failed,
}

/// The login conversation: capture the shell prompt, intercepting the
/// autoboot countdown when one appears.
pub struct LoginFlow {
    pub state: LoginState,
}

impl LoginFlow {
    /// The conversation is over, well or badly.
    pub open spec fn finished(&self) -> bool {
        self.state == LoginState::Done || self.state == LoginState::Failed
    }

    /// Start the conversation.  The first actions interrupt whatever the
    /// device is doing: a Ctrl-C, then an empty command.
    pub fn new() -> (r: (LoginFlow, Vec<Action>))
        ensures
            r.0.state == LoginState::AwaitFirst,
            acts_view(r.1@) =~= seq![
                ActionV::SendBytes(seq![CTRL_C]),
                ActionV::SendCmd(Seq::<u8>::empty()),
            ],
    {
        let mut acts: Vec<Action> = Vec::new();
        let mut ctrl: Vec<u8> = Vec::new();
        ctrl.push(CTRL_C);
        acts.push(Action::SendBytes(ctrl));
        acts.push(Action::SendCmd(Vec::new()));
        (LoginFlow { state: LoginState::AwaitFirst }, acts)
    }

    /// React to one inbound event.  The returned actions go to the device;
    /// a returned outcome ends the conversation with the prompt or with the
    /// reason it could not be captured.
    pub fn on_event(&mut self, ev: LineEvent) -> (r: (
        Vec<Action>,
        Option<Result<Vec<u8>, UbootError>>,
    ))
        ensures
            ({
                let (acts, outc) = r;
                match old(self).state {
                    LoginState::AwaitFirst => match ev {
                        LineEvent::Line(l) => if !ends_cr(l@) {
                            acts@.len() == 0 && final(self).state == LoginState::Done && (
                            outc matches Some(res) && res matches Ok(p) && p@ == l@)
                        } else {
                            acts@.len() == 0 && outc is None && final(self).state
                                == LoginState::AwaitFirst
                        },
                        LineEvent::Idle => acts@.len() == 0 && outc is None && final(self).state
                            == LoginState::WatchAutoboot,
                        LineEvent::Eof => acts@.len() == 0 && final(self).state
                            == LoginState::Failed && (outc matches Some(res) && res matches Err(e)
                            && e == UbootError::UnexpectedEof),
                    },
                    LoginState::WatchAutoboot => match ev {
                        LineEvent::Line(l) => match spec_stop_autoboot(l@) {
                            Some(k) => acts_view(acts@) =~= seq![
                                ActionV::SendBytes(seq![CTRL_C]),
                                ActionV::SendBytes(spec_key_bytes(k)),
                            ] && outc is None && final(self).state == LoginState::AwaitPrompt,
                            None => acts_view(acts@) =~= seq![ActionV::SendBytes(seq![CTRL_C])]
                                && outc is None && final(self).state == LoginState::WatchAutoboot,
                        },
                        LineEvent::Idle => acts@.len() == 0 && outc is None && final(self).state
                            == LoginState::WatchAutoboot,
                        LineEvent::Eof => acts@.len() == 0 && final(self).state
                            == LoginState::Failed && (outc matches Some(res) && res matches Err(e)
                            && e == UbootError::UnexpectedEof),
                    },
                    LoginState::AwaitPrompt => match ev {
                        LineEvent::Line(l) => if !ends_cr(l@) {
                            acts@.len() == 0 && final(self).state == LoginState::Done && (
                            outc matches Some(res) && res matches Ok(p) && p@ == l@)
                        } else {
                            acts@.len() == 0 && outc is None && final(self).state
                                == LoginState::AwaitPrompt
                        },
                        LineEvent::Idle => acts@.len() == 0 && final(self).state
                            == LoginState::Failed && (outc matches Some(res) && res matches Err(e)
                            && e == UbootError::PromptTimeout),
                        LineEvent::Eof => acts@.len() == 0 && final(self).state
                            == LoginState::Failed && (outc matches Some(res) && res matches Err(e)
                            && e == UbootError::UnexpectedEof),
                    },
                    _ => acts@.len() == 0 && outc is None && *final(self) == *old(self),
                }
            }),
    {
        match self.state {
            LoginState::AwaitFirst => match ev {
                LineEvent::Line(l) => {
                    if !line_complete(l.as_slice()) {
                        self.state = LoginState::Done;
                        (Vec::new(), Some(Ok(l)))
                    } else {
                        (Vec::new(), None)
                    }
                },
                LineEvent::Idle => {
                    self.state = LoginState::WatchAutoboot;
                    (Vec::new(), None)
                },
                LineEvent::Eof => {
                    self.state = LoginState::Failed;
                    (Vec::new(), Some(Err(UbootError::UnexpectedEof)))
                },
            },
            LoginState::WatchAutoboot => match ev {
                LineEvent::Line(l) => {
                    let mut acts: Vec<Action> = Vec::new();
                    let mut ctrl: Vec<u8> = Vec::new();
                    ctrl.push(CTRL_C);
                    acts.push(Action::SendBytes(ctrl));
                    match TerminalKey::parse_stop_autoboot(l.as_slice()) {
                        Ok(key) => {
                            acts.push(Action::SendBytes(key.encode()));
                            self.state = LoginState::AwaitPrompt;
                            (acts, None)
                        },
                        Err(_e) => (acts, None),
                    }
                },
                LineEvent::Idle => (Vec::new(), None),
                LineEvent::Eof => {
                    self.state = LoginState::Failed;
                    (Vec::new(), Some(Err(UbootError::UnexpectedEof)))
                },
            },
            LoginState::AwaitPrompt => match ev {
                LineEvent::Line(l) => {
                    if !line_complete(l.as_slice()) {
                        self.state = LoginState::Done;
                        (Vec::new(), Some(Ok(l)))
                    } else {
                        (Vec::new(), None)
                    }
                },
                LineEvent::Idle => {
                    self.state = LoginState::Failed;
                    (Vec::new(), Some(Err(UbootError::PromptTimeout)))
                },
                LineEvent::Eof => {
                    self.state = LoginState::Failed;
                    (Vec::new(), Some(Err(UbootError::UnexpectedEof)))
                },
            },
            LoginState::Done => (Vec::new(), None),
            LoginState::Failed => (Vec::new(), None),
        }
    }
}

/// The command that asks for the version banner.
pub fn version_query_cmd() -> (r: Vec<u8>)
    ensures
        r@ == CMD_GETINFO_VERSION@,
{
    let mut out: Vec<u8> = Vec::new();
    crate::parse_utils::push_bytes(&mut out, &CMD_GETINFO_VERSION);
    proof {
        assert(out@ =~= CMD_GETINFO_VERSION@);
    }
    out
}

/// One step of the version query: the first complete line that parses as a
/// banner answers it; the device going idle or the stream ending fails it.
pub fn version_query_step(ev: &LineEvent) -> (r: Option<Result<VersionInfo, UbootError>>)
    ensures
        match ev {
            LineEvent::Line(l) => if ends_cr(l@) && spec_parse_version(l@) is Some {
                r matches Some(res) && res matches Ok(v) && spec_parse_version(l@) == Some(
                    (v.year, v.month, v.revision@, v.suffix@),
                )
            } else {
                r is None
            },
            LineEvent::Idle => r matches Some(res) && res matches Err(e) && e
                == UbootError::QueryTimeout,
            LineEvent::Eof => r matches Some(res) && res matches Err(e) && e
                == UbootError::UnexpectedEof,
        },
{
    match ev {
        LineEvent::Line(l) => {
            if line_complete(l.as_slice()) {
                match VersionInfo::parse(l.as_slice()) {
                    Ok(v) => Some(Ok(v)),
                    Err(_e) => None,
                }
            } else {
                None
            }
        },
        LineEvent::Idle => Some(Err(UbootError::QueryTimeout)),
        LineEvent::Eof => Some(Err(UbootError::UnexpectedEof)),
    }
}

/// The bytes of `getinfo bootmode`.
pub const CMD_GETINFO_BOOTMODE: [u8; 16] = [103, 101, 116, 105, 110, 102, 111, 32, 98, 111, 111, 116, 109, 111, 100, 101];

/// The bytes of `getinfo spi`.
pub const CMD_GETINFO_SPI: [u8; 11] = [103, 101, 116, 105, 110, 102, 111, 32, 115, 112, 105];

/// The bytes of `getinfo nand`.
pub const CMD_GETINFO_NAND: [u8; 12] = [103, 101, 116, 105, 110, 102, 111, 32, 110, 97, 110, 100];

/// The bytes of `printenv`.
pub const CMD_PRINTENV: [u8; 8] = [112, 114, 105, 110, 116, 101, 110, 118];

/// The bytes of `bdinfo`.
pub const CMD_BDINFO: [u8; 6] = [98, 100, 105, 110, 102, 111];

/// The bytes of `mtdparts=`, the marker looked for inside `bootargs`.
pub const TAG_MTDPARTS_EQ: [u8; 9] = [109, 116, 100, 112, 97, 114, 116, 115, 61];

/// The bytes of `bootargs`.
pub const KEY_BOOTARGS: [u8; 8] = [98, 111, 111, 116, 97, 114, 103, 115];

/// Copy a constant command into a sendable buffer.
fn cmd_of(tag: &[u8]) -> (r: Vec<u8>)
    ensures
        r@ == tag@,
{
    let mut out: Vec<u8> = Vec::new();
    crate::parse_utils::push_bytes(&mut out, tag);
    proof {
        assert(out@ =~= tag@);
    }
    out
}

/// The flash information query: first learn the chip family from
/// `getinfo bootmode`, then fold every fragment of the family-specific
/// listing into one record until the device goes idle.
pub struct FlashInfoQuery {
    /// The family is known and the listing is being folded.
    pub phase_b: bool,
    /// The record built so far.
    pub info: FlashInfo,
}

/// What one flash-query step decided: keep listening (with at most one new
/// command to send), or finish with a result.
pub enum FlashStep {
    Continue(FlashInfoQuery, Option<Vec<u8>>),
    Done(Result<FlashInfo, UbootError>),
}

impl FlashInfoQuery {
    /// Start the query; the command asks for the boot mode.
    pub fn new() -> (r: (FlashInfoQuery, Vec<u8>))
        ensures
            !r.0.phase_b,
            r.1@ == CMD_GETINFO_BOOTMODE@,
    {
        (
            FlashInfoQuery { phase_b: false, info: FlashInfo::from_kind(FlashKind::Spi) },
            cmd_of(&CMD_GETINFO_BOOTMODE),
        )
    }

    /// React to one inbound event.
    pub fn on_event(self, ev: LineEvent) -> (r: FlashStep)
        ensures
            ({
                if !self.phase_b {
                    match ev {
                        LineEvent::Line(l) => if ends_cr(l@) && spec_flash_kind(l@) is Some {
                            r matches FlashStep::Continue(q, cmd) && q.phase_b && q.info.kind
                                == spec_flash_kind(l@).unwrap() && q.info.block == 0 && q.info.size
                                == 0 && q.info.count == 0 && q.info.id@ =~= seq![0u8, 0u8, 0u8]
                                && q.info.name@ =~= Seq::<u8>::empty() && (cmd matches Some(c)
                                && c@ == if spec_flash_kind(l@) == Some(FlashKind::Spi) {
                                CMD_GETINFO_SPI@
                            } else {
                                CMD_GETINFO_NAND@
                            })
                        } else {
                            r matches FlashStep::Continue(q, cmd) && q == self && cmd is None
                        },
                        LineEvent::Idle => r matches FlashStep::Done(res) && res matches Err(e)
                            && e == UbootError::QueryTimeout,
                        LineEvent::Eof => r matches FlashStep::Done(res) && res matches Err(e)
                            && e == UbootError::UnexpectedEof,
                    }
                } else {
                    match ev {
                        LineEvent::Line(l) => if ends_cr(l@) && spec_flash_fragment(l@) is Some {
                            r matches FlashStep::Continue(q, cmd) && q.phase_b && cmd is None
                                && spec_filled(self.info, q.info, spec_flash_fragment(l@).unwrap())
                        } else {
                            r matches FlashStep::Continue(q, cmd) && q == self && cmd is None
                        },
                        LineEvent::Idle => r matches FlashStep::Done(res) && res matches Ok(info)
                            && info == self.info,
                        LineEvent::Eof => r matches FlashStep::Done(res) && res matches Err(e)
                            && e == UbootError::UnexpectedEof,
                    }
                }
            }),
    {
        if !self.phase_b {
            match ev {
                LineEvent::Line(l) => {
                    if line_complete(l.as_slice()) {
                        match FlashKind::parse(l.as_slice()) {
                            Ok(kind) => {
                                let cmd = match kind {
                                    FlashKind::Spi => cmd_of(&CMD_GETINFO_SPI),
                                    FlashKind::Nand => cmd_of(&CMD_GETINFO_NAND),
                                };
                                FlashStep::Continue(
                                    FlashInfoQuery {
                                        phase_b: true,
                                        info: FlashInfo::from_kind(kind),
                                    },
                                    Some(cmd),
                                )
                            },
                            Err(_e) => FlashStep::Continue(self, None),
                        }
                    } else {
                        FlashStep::Continue(self, None)
                    }
                },
                LineEvent::Idle => FlashStep::Done(Err(UbootError::QueryTimeout)),
                LineEvent::Eof => FlashStep::Done(Err(UbootError::UnexpectedEof)),
            }
        } else {
            match ev {
                LineEvent::Line(l) => {
                    if line_complete(l.as_slice()) {
                        let mut q = self;
                        match q.info.fill_parse(l.as_slice()) {
                            Ok(()) => FlashStep::Continue(q, None),
                            Err(_e) => FlashStep::Continue(q, None),
                        }
                    } else {
                        FlashStep::Continue(self, None)
                    }
                },
                LineEvent::Idle => FlashStep::Done(Ok(self.info)),
                LineEvent::Eof => FlashStep::Done(Err(UbootError::UnexpectedEof)),
            }
        }
    }
}

/// The environment query: fold every parseable `key=value` line into the
/// store until the device goes idle.  The same machine reads `printenv`
/// and `bdinfo` output.
pub struct EnvQuery {
    /// The store built so far.
    pub vars: Variables,
}

/// What one environment-query step decided.
pub enum EnvStep {
    Continue(EnvQuery),
    Done(Result<Variables, UbootError>),
}

impl EnvQuery {
    /// Start an environment dump; the command is `printenv`.
    pub fn printenv() -> (r: (EnvQuery, Vec<u8>))
        ensures
            r.0.vars@ == Seq::<(Seq<u8>, Seq<u8>)>::empty(),
            r.0.vars.wf(),
            r.1@ == CMD_PRINTENV@,
    {
        (EnvQuery { vars: Variables::default() }, cmd_of(&CMD_PRINTENV))
    }

    /// Start a board-information query; the command is `bdinfo`.
    pub fn bdinfo() -> (r: (EnvQuery, Vec<u8>))
        ensures
            r.0.vars@ == Seq::<(Seq<u8>, Seq<u8>)>::empty(),
            r.0.vars.wf(),
            r.1@ == CMD_BDINFO@,
    {
        (EnvQuery { vars: Variables::default() }, cmd_of(&CMD_BDINFO))
    }

    /// React to one inbound event.
    pub fn on_event(self, ev: LineEvent) -> (r: EnvStep)
        requires
            self.vars.wf(),
        ensures
            ({
                match ev {
                    LineEvent::Line(l) => if ends_cr(l@) {
                        match spec_kv(l@, EQ, CR) {
                            Some((k, v)) => r matches EnvStep::Continue(q) && q.vars@ == upsert(
                                self.vars@,
                                k,
                                v,
                            ) && q.vars.wf(),
                            None => r matches EnvStep::Continue(q) && q.vars@ == self.vars@
                                && q.vars.wf(),
                        }
                    } else {
                        r matches EnvStep::Continue(q) && q.vars@ == self.vars@ && q.vars.wf()
                    },
                    LineEvent::Idle => r matches EnvStep::Done(res) && res matches Ok(vars)
                        && vars@ == self.vars@ && vars.wf(),
                    LineEvent::Eof => r matches EnvStep::Done(res) && res matches Err(e) && e
                        == UbootError::UnexpectedEof,
                }
            }),
    {
        match ev {
            LineEvent::Line(l) => {
                if line_complete(l.as_slice()) {
                    let mut q = self;
                    match q.vars.extend_parse_env(l.as_slice()) {
                        Ok(()) => EnvStep::Continue(q),
                        Err(_e) => EnvStep::Continue(q),
                    }
                } else {
                    EnvStep::Continue(self)
                }
            },
            LineEvent::Idle => EnvStep::Done(Ok(self.vars)),
            LineEvent::Eof => EnvStep::Done(Err(UbootError::UnexpectedEof)),
        }
    }
}

/// Where the `mtdparts=` list begins inside `bootargs`, and the partition
/// table it describes.
pub open spec fn spec_mtd_from_env(es: Seq<(Seq<u8>, Seq<u8>)>) -> Result<Seq<u8>, UbootError> {
    match lookup(es, KEY_BOOTARGS@) {
        None => Err(UbootError::NoMtdParts),
        Some(bootargs) => {
            let p = first_match(bootargs, TAG_MTDPARTS_EQ@, 0);
            if p == -1 {
                Err(UbootError::NoMtdParts)
            } else {
                Ok(bootargs.skip(p + TAG_MTDPARTS_EQ@.len()))
            }
        },
    }
}

/// Extract the partition table from the environment: find `mtdparts=` in
/// `bootargs` and parse everything after it.  Missing `bootargs` or a
/// `bootargs` without the marker is reported as such.
pub fn mtd_parts_from_env(vars: &Variables) -> (r: Result<MtdTable, UbootError>)
    requires
        vars.wf(),
    ensures
        match spec_mtd_from_env(vars@) {
            Err(e) => r matches Err(e2) && e2 == e,
            Ok(list) => match spec_mtd_parts(list) {
                None => r matches Err(e) && e == UbootError::InvalidSequence,
                Some(parts) => {
                    if sizes_sum(parts, parts.len() as int) <= u64::MAX {
                        r matches Ok(t) && t@.len() == parts.len() && mtd_wf(t@) && (forall|i: int|
                            0 <= i < parts.len() ==> (#[trigger] t@[i]).0 == parts[i].0 && t@[
                                i
                            ].1.size == parts[i].1 && t@[i].1.base == sizes_sum(parts, i))
                    } else {
                        r matches Err(e) && e == UbootError::SizeOverflow
                    }
                },
            },
        },
{
    let bootargs = match vars.get(&KEY_BOOTARGS) {
        None => {
            return Err(UbootError::NoMtdParts);
        },
        Some(v) => v,
    };
    let p = match find_bytes(bootargs.as_slice(), &TAG_MTDPARTS_EQ) {
        None => {
            return Err(UbootError::NoMtdParts);
        },
        Some(p) => p,
    };
    proof {
        lemma_first_match_props(bootargs@, TAG_MTDPARTS_EQ@, 0);
    }
    let bl = bootargs.len();
    let list = copy_range(bootargs.as_slice(), p + 9, bl);
    proof {
        assert(list@ =~= bootargs@.skip(p + TAG_MTDPARTS_EQ@.len()));
    }
    Variables::parse_mtd_parts(list.as_slice())
}

/// The bytes of `sf probe 0`.
pub const CMD_SF_PROBE: [u8; 10] = [115, 102, 32, 112, 114, 111, 98, 101, 32, 48];

/// The bytes of `sf read`.
pub const CMD_SF_READ: [u8; 7] = [115, 102, 32, 114, 101, 97, 100];

/// The bytes of `crc32`.
pub const CMD_CRC32: [u8; 5] = [99, 114, 99, 51, 50];

/// The bytes of `md.b`.
pub const CMD_MDB: [u8; 4] = [109, 100, 46, 98];

/// The bytes of `crc32 for`, the line that carries the device checksum.
pub const TAG_CRC32_FOR: [u8; 9] = [99, 114, 99, 51, 50, 32, 102, 111, 114];

/// `sf read <addr> <offset> <length>`, every number eight hex digits.
pub open spec fn spec_sf_read_cmd(addr: u64, base: u64, size: u64) -> Seq<u8> {
    CMD_SF_READ@ + seq![SP] + spec_format_size(addr) + seq![SP] + spec_format_size(base) + seq![
        SP
    ] + spec_format_size(size)
}

/// `crc32 <addr> <length>`.
pub open spec fn spec_crc32_cmd(addr: u64, size: u64) -> Seq<u8> {
    CMD_CRC32@ + seq![SP] + spec_format_size(addr) + seq![SP] + spec_format_size(size)
}

/// `md.b <addr> <length>`.
pub open spec fn spec_mdb_cmd(addr: u64, size: u64) -> Seq<u8> {
    CMD_MDB@ + seq![SP] + spec_format_size(addr) + seq![SP] + spec_format_size(size)
}

/// Build `<tag> <a> <b>`.
fn cmd2(tag: &[u8], a: u64, b: u64) -> (r: Vec<u8>)
    ensures
        r@ == tag@ + seq![SP] + spec_format_size(a) + seq![SP] + spec_format_size(b),
{
    let mut out: Vec<u8> = Vec::new();
    push_bytes(&mut out, tag);
    out.push(SP);
    let fa = format_size(a);
    push_bytes(&mut out, fa.as_slice());
    out.push(SP);
    let fb = format_size(b);
    push_bytes(&mut out, fb.as_slice());
    proof {
        assert(out@ =~= tag@ + seq![SP] + spec_format_size(a) + seq![SP] + spec_format_size(b));
    }
    out
}

/// Build `<tag> <a> <b> <c>`.
fn cmd3(tag: &[u8], a: u64, b: u64, c: u64) -> (r: Vec<u8>)
    ensures
        r@ == tag@ + seq![SP] + spec_format_size(a) + seq![SP] + spec_format_size(b) + seq![SP]
            + spec_format_size(c),
{
    let mut out: Vec<u8> = Vec::new();
    push_bytes(&mut out, tag);
    out.push(SP);
    let fa = format_size(a);
    push_bytes(&mut out, fa.as_slice());
    out.push(SP);
    let fb = format_size(b);
    push_bytes(&mut out, fb.as_slice());
    out.push(SP);
    let fc = format_size(c);
    push_bytes(&mut out, fc.as_slice());
    proof {
        assert(out@ =~= tag@ + seq![SP] + spec_format_size(a) + seq![SP] + spec_format_size(b)
            + seq![SP] + spec_format_size(c));
    }
    out
}

/// The position of the last `c` in `s`, or -1.
pub open spec fn rfind(s: Seq<u8>, c: u8) -> int
    decreases s.len(),
{
    if s.len() == 0 {
        -1
    } else if s.last() == c {
        s.len() - 1
    } else {
        rfind(s.drop_last(), c)
    }
}

/// The device checksum on a `crc32 for` line: its last space-separated
/// token read as hex (with or without a `0x` prefix), cut to 32 bits.
pub open spec fn spec_crc_token(l: Seq<u8>) -> Option<u32> {
    let st = rfind(l, SP) + 1;
    match spec_hex_u64_0x(l, st) {
        Some((v, _end)) => Some(v as u32),
        None => match spec_hex_u64(l, st) {
            Some((v, _end)) => Some(v as u32),
            None => None,
        },
    }
}

/// The index right after the last `c` in `s` (zero when there is none).
fn rfind_after(s: &[u8], c: u8) -> (r: usize)
    ensures
        r == rfind(s@, c) + 1,
        r <= s@.len(),
{
    let mut e = s.len();
    proof {
        assert(s@.take(s@.len() as int) =~= s@);
    }
    while e > 0 && s[e - 1] != c
        invariant
            e <= s@.len(),
            rfind(s@, c) == rfind(s@.take(e as int), c),
        decreases e,
    {
        proof {
            assert(s@.take(e as int).drop_last() =~= s@.take(e - 1));
        }
        e = e - 1;
    }
    proof {
        if e > 0 {
            assert(s@.take(e as int).last() == s@[e - 1]);
        }
    }
    e
}

/// Read the device checksum from a `crc32 for` line.
fn crc_token(l: &[u8]) -> (r: Option<u32>)
    ensures
        r == spec_crc_token(l@),
{
    let st = rfind_after(l, SP);
    match hex_u64_0x(l, st) {
        Some((v, _end)) => Some(#[verifier::truncate] (v as u32)),
        None => match hex_u64(l, st) {
            Some((v, _end)) => Some(#[verifier::truncate] (v as u32)),
            None => None,
        },
    }
}

/// The scratch address for staging a partition: the upper half of RAM.
pub fn dump_address(ram: &MemRegion) -> (r: u64)
    requires
        ram.wf(),
    ensures
        r == ram.base + ram.size / 2,
{
    ram.base + ram.size / 2
}

/// Where the dump of one partition stands.
#[derive(Clone, Copy, Debug, PartialEq, Eq, Structural)]
pub enum DumpState {
    /// `sf probe 0` was sent; counting echo lines until the device is idle.
    Probe,
    /// `sf read` was sent; counting echo lines until the device is idle.
    Read,
    /// `crc32` was sent; waiting for the `crc32 for` line.
    Crc,
    /// `md.b` was sent; transcribing hex-dump lines.
    Stream,
    /// The dump ended, well or badly.
    Finished,
}

/// The dump of one partition: stage it to RAM, fetch the device checksum,
/// then transcribe the hex dump while recomputing the checksum over the
/// received bytes.
pub struct DumpFlow {
    /// The partition being dumped.
    pub region: MemRegion,
    /// The RAM address the partition was staged at.
    pub addr: u64,
    /// Where the dump stands.
    pub state: DumpState,
    /// An echo line has been seen in the current `sf` phase.
    pub got_echo: bool,
    /// Bytes transcribed so far.
    pub off: u64,
    /// The running CRC register over the transcribed bytes.
    pub crc: u32,
    /// The checksum the device reported for the staged copy.
    pub device_crc: u32,
    /// Every byte handed to the sink, in order.
    pub written: Ghost<Seq<u8>>,
}

impl DumpFlow {
    /// The progress counter and the CRC register track the transcribed
    /// bytes exactly.
    pub open spec fn wf(&self) -> bool {
        self.off == self.written@.len() && self.crc == crc32_fold(CRC32_INIT, self.written@)
    }

    /// Start dumping `region`, staged at `addr`; the first command probes
    /// the flash.
    pub fn new(region: MemRegion, addr: u64) -> (r: (DumpFlow, Vec<Action>))
        ensures
            r.0.wf(),
            r.0.state == DumpState::Probe,
            r.0.region == region && r.0.addr == addr,
            r.0.written@ == Seq::<u8>::empty() && r.0.off == 0,
            acts_view(r.1@) =~= seq![ActionV::SendCmd(CMD_SF_PROBE@)],
    {
        let flow = DumpFlow {
            region,
            addr,
            state: DumpState::Probe,
            got_echo: false,
            off: 0,
            crc: CRC32_INIT,
            device_crc: 0,
            written: Ghost(Seq::empty()),
        };
        let mut acts: Vec<Action> = Vec::new();
        acts.push(Action::SendCmd(cmd_of(&CMD_SF_PROBE)));
        (flow, acts)
    }

    /// The caller dropped the progress channel: abort cleanly by
    /// interrupting the device.
    pub fn cancel(&mut self) -> (acts: Vec<Action>)
        ensures
            final(self).state == DumpState::Finished,
            final(self).written == old(self).written,
            acts_view(acts@) =~= seq![ActionV::SendBytes(seq![CTRL_C])],
    {
        self.state = DumpState::Finished;
        let mut acts: Vec<Action> = Vec::new();
        let mut ctrl: Vec<u8> = Vec::new();
        ctrl.push(CTRL_C);
        acts.push(Action::SendBytes(ctrl));
        acts
    }

    /// React to one inbound event.  A successful outcome means every
    /// declared byte of the partition was written to the sink and the
    /// checksum recomputed over those bytes equals the device's.
    pub fn on_event(&mut self, ev: LineEvent) -> (r: (
        Vec<Action>,
        Option<Result<(), UbootError>>,
    ))
        requires
            old(self).wf(),
        ensures
            final(self).wf(),
            final(self).region == old(self).region && final(self).addr == old(self).addr,
            (r.1 matches Some(res) && res matches Ok(u)) ==> final(self).written@.len() == old(self).region.size && crc32_of(final(self).written@) == final(self).device_crc,
            ({
                let (acts, outc) = r;
                match old(self).state {
                    DumpState::Probe => match ev {
                        LineEvent::Line(_l) => acts@.len() == 0 && outc is None && final(self).state == DumpState::Probe && final(self).got_echo && final(self).written
                            == old(self).written,
                        LineEvent::Idle => if old(self).got_echo {
                            acts_view(acts@) =~= seq![
                                ActionV::SendCmd(
                                    spec_sf_read_cmd(
                                        old(self).addr,
                                        old(self).region.base,
                                        old(self).region.size,
                                    ),
                                ),
                            ] && outc is None && final(self).state == DumpState::Read && !final(self).got_echo && final(self).written == old(self).written
                        } else {
                            acts@.len() == 0 && final(self).state == DumpState::Finished && (
                            outc matches Some(res) && res matches Err(e) && e
                                == UbootError::SpiCommandFailed)
                        },
                        LineEvent::Eof => acts@.len() == 0 && final(self).state
                            == DumpState::Finished && (outc matches Some(res) && res matches Err(e)
                            && e == UbootError::UnexpectedEof),
                    },
                    DumpState::Read => match ev {
                        LineEvent::Line(_l) => acts@.len() == 0 && outc is None && final(self).state == DumpState::Read && final(self).got_echo && final(self).written
                            == old(self).written,
                        LineEvent::Idle => if old(self).got_echo {
                            acts_view(acts@) =~= seq![
                                ActionV::SendCmd(
                                    spec_crc32_cmd(old(self).addr, old(self).region.size),
                                ),
                            ] && outc is None && final(self).state == DumpState::Crc && final(self).written == old(self).written
                        } else {
                            acts@.len() == 0 && final(self).state == DumpState::Finished && (
                            outc matches Some(res) && res matches Err(e) && e
                                == UbootError::SpiCommandFailed)
                        },
                        LineEvent::Eof => acts@.len() == 0 && final(self).state
                            == DumpState::Finished && (outc matches Some(res) && res matches Err(e)
                            && e == UbootError::UnexpectedEof),
                    },
                    DumpState::Crc => match ev {
                        LineEvent::Line(l) => if ends_cr(l@) && subseq_at(l@, TAG_CRC32_FOR@, 0) {
                            match spec_crc_token(l@) {
                                Some(v) => acts_view(acts@) =~= seq![
                                    ActionV::SendCmd(
                                        spec_mdb_cmd(old(self).addr, old(self).region.size),
                                    ),
                                ] && outc is None && final(self).state == DumpState::Stream
                                    && final(self).device_crc == v && final(self).written == old(self).written,
                                None => acts@.len() == 0 && final(self).state
                                    == DumpState::Finished && (outc matches Some(res)
                                    && res matches Err(e) && e == UbootError::InvalidSequence),
                            }
                        } else {
                            acts@.len() == 0 && outc is None && *final(self) == *old(self)
                        },
                        LineEvent::Idle => acts@.len() == 0 && final(self).state
                            == DumpState::Finished && (outc matches Some(res) && res matches Err(e)
                            && e == UbootError::DumpTimeout),
                        LineEvent::Eof => acts@.len() == 0 && final(self).state
                            == DumpState::Finished && (outc matches Some(res) && res matches Err(e)
                            && e == UbootError::UnexpectedEof),
                    },
                    DumpState::Stream => match ev {
                        LineEvent::Line(l) => if !ends_cr(l@) || subseq_at(l@, CMD_MDB@, 0) {
                            acts@.len() == 0 && outc is None && *final(self) == *old(self)
                        } else {
                            match spec_hexdump_line(l@) {
                                None => acts@.len() == 0 && final(self).state
                                    == DumpState::Finished && (outc matches Some(res)
                                    && res matches Err(e) && e == UbootError::InvalidSequence),
                                Some(data) => if data.len() > u64::MAX - old(self).off {
                                    acts@.len() == 0 && final(self).state == DumpState::Finished
                                        && (outc matches Some(res) && res matches Err(e) && e
                                        == UbootError::DumpOverrun)
                                } else {
                                    let noff = old(self).off + data.len();
                                    final(self).written@ == old(self).written@ + data && final(self).off == noff && final(self).device_crc == old(self).device_crc && acts_view(acts@) =~= seq![
                                        ActionV::WriteSink(data),
                                        ActionV::Progress(noff as u64),
                                    ] && if noff < old(self).region.size {
                                        outc is None && final(self).state == DumpState::Stream
                                    } else if noff == old(self).region.size {
                                        final(self).state == DumpState::Finished && (if crc32_of(
                                            old(self).written@ + data,
                                        ) == old(self).device_crc {
                                            outc matches Some(res) && res matches Ok(u)
                                        } else {
                                            outc matches Some(res) && res matches Err(e) && e
                                                == UbootError::ChecksumMismatch
                                        })
                                    } else {
                                        final(self).state == DumpState::Finished && (
                                        outc matches Some(res) && res matches Err(e) && e
                                            == UbootError::DumpOverrun)
                                    }
                                },
                            }
                        },
                        LineEvent::Idle => acts@.len() == 0 && final(self).state
                            == DumpState::Finished && (outc matches Some(res) && res matches Err(e)
                            && e == UbootError::DumpTimeout),
                        LineEvent::Eof => acts@.len() == 0 && final(self).state
                            == DumpState::Finished && (outc matches Some(res) && res matches Err(e)
                            && e == UbootError::UnexpectedEof),
                    },
                    DumpState::Finished => acts@.len() == 0 && outc is None && *final(self)
                        == *old(self),
                }
            }),
    {
        match self.state {
            DumpState::Probe => match ev {
                LineEvent::Line(_l) => {
                    self.got_echo = true;
                    (Vec::new(), None)
                },
                LineEvent::Idle => {
                    if self.got_echo {
                        self.got_echo = false;
                        self.state = DumpState::Read;
                        let mut acts: Vec<Action> = Vec::new();
                        acts.push(
                            Action::SendCmd(
                                cmd3(&CMD_SF_READ, self.addr, self.region.base, self.region.size),
                            ),
                        );
                        (acts, None)
                    } else {
                        self.state = DumpState::Finished;
                        (Vec::new(), Some(Err(UbootError::SpiCommandFailed)))
                    }
                },
                LineEvent::Eof => {
                    self.state = DumpState::Finished;
                    (Vec::new(), Some(Err(UbootError::UnexpectedEof)))
                },
            },
            DumpState::Read => match ev {
                LineEvent::Line(_l) => {
                    self.got_echo = true;
                    (Vec::new(), None)
                },
                LineEvent::Idle => {
                    if self.got_echo {
                        self.got_echo = false;
                        self.state = DumpState::Crc;
                        let mut acts: Vec<Action> = Vec::new();
                        acts.push(Action::SendCmd(cmd2(&CMD_CRC32, self.addr, self.region.size)));
                        (acts, None)
                    } else {
                        self.state = DumpState::Finished;
                        (Vec::new(), Some(Err(UbootError::SpiCommandFailed)))
                    }
                },
                LineEvent::Eof => {
                    self.state = DumpState::Finished;
                    (Vec::new(), Some(Err(UbootError::UnexpectedEof)))
                },
            },
            DumpState::Crc => match ev {
                LineEvent::Line(l) => {
                    if line_complete(l.as_slice()) && bytes_at(l.as_slice(), 0, &TAG_CRC32_FOR) {
                        match crc_token(l.as_slice()) {
                            Some(v) => {
                                self.device_crc = v;
                                self.state = DumpState::Stream;
                                let mut acts: Vec<Action> = Vec::new();
                                acts.push(
                                    Action::SendCmd(cmd2(&CMD_MDB, self.addr, self.region.size)),
                                );
                                (acts, None)
                            },
                            None => {
                                self.state = DumpState::Finished;
                                (Vec::new(), Some(Err(UbootError::InvalidSequence)))
                            },
                        }
                    } else {
                        (Vec::new(), None)
                    }
                },
                LineEvent::Idle => {
                    self.state = DumpState::Finished;
                    (Vec::new(), Some(Err(UbootError::DumpTimeout)))
                },
                LineEvent::Eof => {
                    self.state = DumpState::Finished;
                    (Vec::new(), Some(Err(UbootError::UnexpectedEof)))
                },
            },
            DumpState::Stream => match ev {
                LineEvent::Line(l) => {
                    if !line_complete(l.as_slice()) || bytes_at(l.as_slice(), 0, &CMD_MDB) {
                        return (Vec::new(), None);
                    }
                    match HexDump::parse_line(l.as_slice()) {
                        Err(_e) => {
                            self.state = DumpState::Finished;
                            (Vec::new(), Some(Err(UbootError::InvalidSequence)))
                        },
                        Ok(h) => {
                            let data = h.data;
                            let dlen = data.len() as u64;
                            if dlen > u64::MAX - self.off {
                                self.state = DumpState::Finished;
                                return (Vec::new(), Some(Err(UbootError::DumpOverrun)));
                            }
                            proof {
                                lemma_crc32_fold_append(CRC32_INIT, self.written@, data@);
                            }
                            self.crc = crc32_update_bytes(self.crc, data.as_slice());
                            self.written = Ghost(self.written@ + data@);
                            self.off = self.off + dlen;
                            let noff = self.off;
                            let mut acts: Vec<Action> = Vec::new();
                            acts.push(Action::WriteSink(data));
                            acts.push(Action::Progress(noff));
                            if noff < self.region.size {
                                (acts, None)
                            } else if noff == self.region.size {
                                self.state = DumpState::Finished;
                                if (self.crc ^ 0xFFFF_FFFF) == self.device_crc {
                                    (acts, Some(Ok(())))
                                } else {
                                    (acts, Some(Err(UbootError::ChecksumMismatch)))
                                }
                            } else {
                                self.state = DumpState::Finished;
                                (acts, Some(Err(UbootError::DumpOverrun)))
                            }
                        },
                    }
                },
                LineEvent::Idle => {
                    self.state = DumpState::Finished;
                    (Vec::new(), Some(Err(UbootError::DumpTimeout)))
                },
                LineEvent::Eof => {
                    self.state = DumpState::Finished;
                    (Vec::new(), Some(Err(UbootError::UnexpectedEof)))
                },
            },
            DumpState::Finished => (Vec::new(), None),
        }
    }
}

} // verus!
