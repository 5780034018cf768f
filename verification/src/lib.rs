//! Host-side driver core for talking to a U-Boot shell over a serial line:
//! text parsers for the console output, a delay-based line framer, and the
//! protocol state machines for login, information queries and MTD dumps.
use vstd::prelude::*;

pub mod ascii;
pub mod client;
pub mod crc32;
pub mod flash_info;
pub mod framer;
pub mod hex_dump;
pub mod parse_utils;
pub mod terminal_key;
pub mod transport;
pub mod variables;
pub mod varmap;
pub mod version_info;

verus! {

/// Everything that can go wrong inside the protocol core.
#[derive(Clone, Copy, Debug, PartialEq, Eq, Structural)]
pub enum UbootError {
    /// A console line did not match the grammar the current query expects.
    InvalidSequence,
    /// A numeric variable value does not fit the requested width.
    ValueOutOfRange,
    /// A variable was looked up but never seen in the console output.
    VariableNotFound,
    /// `bootargs` is missing or holds no `mtdparts=` list.
    NoMtdParts,
    /// An `sf` invocation produced no echo at all.
    SpiCommandFailed,
    /// The running CRC over the received bytes disagrees with the device CRC.
    ChecksumMismatch,
    /// The hex dump delivered more bytes than the partition holds.
    DumpOverrun,
    /// The device went idle in the middle of a memory dump.
    DumpTimeout,
    /// The shell prompt never appeared after the autoboot interception.
    PromptTimeout,
    /// The device went idle while a query still owed an answer.
    QueryTimeout,
    /// The inbound byte stream ended while a response was still owed.
    UnexpectedEof,
    /// A running sum of partition sizes left the 64-bit range.
    SizeOverflow,
}

} // verus!
