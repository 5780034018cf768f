//! Flash chip description, built incrementally from `getinfo` console lines:
//! the chip family (`spi` or `nand`), then fragments of the form
//! `Block:<size> Chip:<size>[*<count>]`, `ID:0xHH 0xHH 0xHH` and
//! `Name:"<chars>"`, each merged into the running record.
use vstd::prelude::*;

use crate::UbootError;
use crate::ascii::{QUOTE, STAR};
use crate::parse_utils::{
    copy_range, dec_u64, hex_u8_0x, lemma_spec_hex_u8_bounds, lemma_spec_size_u64_bounds,
    matches_nocase, size_u64, skip_spaces, skip_till, space_run_len, spec_dec_u64, spec_hex_u8_0x,
    spec_size_u64, tag_nocase, till_run_len,
};

verus! {

/// The bytes of `spi`.
pub const TAG_SPI: [u8; 3] = [115, 112, 105];

/// The bytes of `nand`.
pub const TAG_NAND: [u8; 4] = [110, 97, 110, 100];

/// The bytes of `block:`.
pub const TAG_BLOCK: [u8; 6] = [98, 108, 111, 99, 107, 58];

/// The bytes of `chip:`.
pub const TAG_CHIP: [u8; 5] = [99, 104, 105, 112, 58];

/// The bytes of `id:`.
pub const TAG_ID: [u8; 3] = [105, 100, 58];

/// The bytes of `name:"`, the name fragment up to its opening quote.
pub const TAG_NAMEQ: [u8; 6] = [110, 97, 109, 101, 58, 34];

/// The two flash chip families the device can report.
#[derive(Clone, Copy, Debug, PartialEq, Eq, Structural)]
pub enum FlashKind {
    Spi,
    Nand,
}

impl Default for FlashKind {
    fn default() -> (r: Self)
        ensures
            r == FlashKind::Spi,
    {
        FlashKind::Spi
    }
}

/// `spi` or `nand` at the start of the line, either case; the rest ignored.
pub open spec fn spec_flash_kind(s: Seq<u8>) -> Option<FlashKind> {
    if matches_nocase(s, 0, TAG_SPI@) {
        Some(FlashKind::Spi)
    } else if matches_nocase(s, 0, TAG_NAND@) {
        Some(FlashKind::Nand)
    } else {
        None
    }
}

impl FlashKind {
    /// The family name in upper case, for presentation.
    pub fn as_str(&self) -> (r: &'static str)
        ensures
            *self == FlashKind::Spi ==> r@ == "SPI"@,
            *self == FlashKind::Nand ==> r@ == "NAND"@,
    {
        match self {
            FlashKind::Spi => "SPI",
            FlashKind::Nand => "NAND",
        }
    }

    /// Parse the flash family from a `getinfo bootmode` line.
    pub fn parse(src: &[u8]) -> (r: Result<Self, UbootError>)
        ensures
            match spec_flash_kind(src@) {
                Some(k) => r == Ok::<FlashKind, UbootError>(k),
                None => r matches Err(e) && e == UbootError::InvalidSequence,
            },
    {
        if tag_nocase(src, 0, &TAG_SPI) {
            Ok(FlashKind::Spi)
        } else if tag_nocase(src, 0, &TAG_NAND) {
            Ok(FlashKind::Nand)
        } else {
            Err(UbootError::InvalidSequence)
        }
    }
}

/// One recognised `getinfo` line, in spec form.
pub enum FlashFragment {
    Size { block: u32, size: u32, count: u32 },
    Id { id0: u8, id1: u8, id2: u8 },
    Name { name: Seq<u8> },
}

/// The chip count after the chip size: `*<decimal>` when present and fitting
/// sixteen bits, one otherwise.
pub open spec fn spec_opt_count(s: Seq<u8>, q: int) -> u32 {
    if 0 <= q < s.len() && s[q] == STAR {
        match spec_dec_u64(s, q + 1) {
            Some((c, _end)) => if c <= u16::MAX {
                c as u32
            } else {
                1
            },
            None => 1,
        }
    } else {
        1
    }
}

/// `Block:<size> Chip:<size>[*<count>]`, sizes truncated to 32 bits.
pub open spec fn spec_frag_size(s: Seq<u8>) -> Option<FlashFragment> {
    if matches_nocase(s, 0, TAG_BLOCK@) {
        match spec_size_u64(s, 6) {
            None => None,
            Some((bl, p)) => {
                let sp = space_run_len(s, p);
                if sp >= 1 && matches_nocase(s, p + sp, TAG_CHIP@) {
                    match spec_size_u64(s, p + sp + 5) {
                        None => None,
                        Some((sz, q)) => Some(
                            FlashFragment::Size {
                                block: bl as u32,
                                size: sz as u32,
                                count: spec_opt_count(s, q),
                            },
                        ),
                    }
                } else {
                    None
                }
            },
        }
    } else {
        None
    }
}

/// `ID:0xHH 0xHH 0xHH`.
pub open spec fn spec_frag_id(s: Seq<u8>) -> Option<FlashFragment> {
    if matches_nocase(s, 0, TAG_ID@) {
        match spec_hex_u8_0x(s, 3) {
            None => None,
            Some((a, p)) => {
                let sp = space_run_len(s, p);
                if sp >= 1 {
                    match spec_hex_u8_0x(s, p + sp) {
                        None => None,
                        Some((b, p2)) => {
                            let sp2 = space_run_len(s, p2);
                            if sp2 >= 1 {
                                match spec_hex_u8_0x(s, p2 + sp2) {
                                    None => None,
                                    Some((c, _end)) => Some(
                                        FlashFragment::Id { id0: a, id1: b, id2: c },
                                    ),
                                }
                            } else {
                                None
                            }
                        },
                    }
                } else {
                    None
                }
            },
        }
    } else {
        None
    }
}

/// `Name:"<chars>"`, at least one character before the closing quote.
pub open spec fn spec_frag_name(s: Seq<u8>) -> Option<FlashFragment> {
    if matches_nocase(s, 0, TAG_NAMEQ@) {
        let n = till_run_len(s, 6, QUOTE);
        if n >= 1 && 6 + n < s.len() {
            Some(FlashFragment::Name { name: s.subrange(6, 6 + n as int) })
        } else {
            None
        }
    } else {
        None
    }
}

/// The first of the three fragment forms that matches the line.
pub open spec fn spec_flash_fragment(s: Seq<u8>) -> Option<FlashFragment> {
    if spec_frag_size(s) is Some {
        spec_frag_size(s)
    } else if spec_frag_id(s) is Some {
        spec_frag_id(s)
    } else {
        spec_frag_name(s)
    }
}


/// How one recognised fragment updates the record: the named fields take the
/// fragment's values, everything else keeps its old value.
pub open spec fn spec_filled(pre: FlashInfo, post: FlashInfo, f: FlashFragment) -> bool {
    match f {
        FlashFragment::Size { block, size, count } => post.block == block && post.size == size
            && post.count == count && post.kind == pre.kind && post.id == pre.id && post.name
            == pre.name,
        FlashFragment::Id { id0, id1, id2 } => post.id@ =~= seq![id0, id1, id2] && post.kind
            == pre.kind && post.block == pre.block && post.size == pre.size && post.count
            == pre.count && post.name == pre.name,
        FlashFragment::Name { name } => post.name@ == name && post.kind == pre.kind && post.block
            == pre.block && post.size == pre.size && post.count == pre.count && post.id == pre.id,
    }
}

/// Everything the device reports about its flash chip.
#[derive(Clone, Debug, PartialEq, Eq)]
pub struct FlashInfo {
    /// Chip family.
    pub kind: FlashKind,
    /// Erase block size in bytes.
    pub block: u32,
    /// Chip size in bytes.
    pub size: u32,
    /// Number of chips.
    pub count: u32,
    /// JEDEC identifier bytes.
    pub id: [u8; 3],
    /// Chip model name.
    pub name: Vec<u8>,
}

impl Default for FlashInfo {
    fn default() -> (r: Self)
        ensures
            r.kind == FlashKind::Spi,
            r.block == 0u32 && r.size == 0u32 && r.count == 0u32,
            r.id@ =~= seq![0u8, 0u8, 0u8],
            r.name@ =~= Seq::<u8>::empty(),
    {
        FlashInfo { kind: FlashKind::Spi, block: 0, size: 0, count: 0, id: [0, 0, 0], name: Vec::new() }
    }
}

impl FlashInfo {
    /// The chip reported a non-empty model name.
    pub fn has_name(&self) -> (r: bool)
        ensures
            r == (self.name@.len() != 0),
    {
        self.name.len() != 0
    }

    /// The chip reported a plausible JEDEC identifier.
    pub fn has_id(&self) -> (r: bool)
        ensures
            r == (self.id@[0] != 0 && self.id@[1] != 0),
    {
        self.id[0] != 0 && self.id[1] != 0
    }

    /// A fresh record for a chip family, everything else still unknown.
    pub fn from_kind(kind: FlashKind) -> (r: Self)
        ensures
            r.kind == kind,
            r.block == 0u32 && r.size == 0u32 && r.count == 0u32,
            r.id@ =~= seq![0u8, 0u8, 0u8],
            r.name@ =~= Seq::<u8>::empty(),
    {
        FlashInfo { kind, block: 0, size: 0, count: 0, id: [0, 0, 0], name: Vec::new() }
    }

    /// Merge one console line into the record: a size line sets block, size
    /// and count, an identifier line the JEDEC bytes, a name line the model
    /// name; an unrecognised line changes nothing and is reported.
    pub fn fill_parse(&mut self, src: &[u8]) -> (r: Result<(), UbootError>)
        ensures
            match spec_flash_fragment(src@) {
                Some(f) => r is Ok && spec_filled(*old(self), *final(self), f),
                None => r matches Err(e) && e == UbootError::InvalidSequence && *final(self)
                    == *old(self),
            },
    {
        proof {
            vstd::slice::axiom_spec_len::<u8>(src);
        }
        if tag_nocase(src, 0, &TAG_BLOCK) {
            match size_u64(src, 6) {
                None => Err(UbootError::InvalidSequence),
                Some((bl, p)) => {
                    proof {
                        lemma_spec_size_u64_bounds(src@, 6);
                    }
                    let sp = skip_spaces(src, p);
                    if sp > p && tag_nocase(src, sp, &TAG_CHIP) {
                        match size_u64(src, sp + 5) {
                            None => Err(UbootError::InvalidSequence),
                            Some((sz, q)) => {
                                proof {
                                    lemma_spec_size_u64_bounds(src@, sp + 5);
                                }
                                let mut cnt: u32 = 1;
                                if q < src.len() && src[q] == STAR {
                                    match dec_u64(src, q + 1) {
                                        Some((c, _end)) => {
                                            if c <= 65535 {
                                                cnt = c as u32;
                                            }
                                        },
                                        None => {},
                                    }
                                }
                                self.block = #[verifier::truncate] (bl as u32);
                                self.size = #[verifier::truncate] (sz as u32);
                                self.count = cnt;
                                Ok(())
                            },
                        }
                    } else {
                        Err(UbootError::InvalidSequence)
                    }
                },
            }
        } else if tag_nocase(src, 0, &TAG_ID) {
            match hex_u8_0x(src, 3) {
                None => Err(UbootError::InvalidSequence),
                Some((a, p)) => {
                    proof {
                        lemma_spec_hex_u8_bounds(src@, 5);
                    }
                    let sp = skip_spaces(src, p);
                    if sp > p {
                        match hex_u8_0x(src, sp) {
                            None => Err(UbootError::InvalidSequence),
                            Some((b, p2)) => {
                                proof {
                                    lemma_spec_hex_u8_bounds(src@, sp + 2);
                                }
                                let sp2 = skip_spaces(src, p2);
                                if sp2 > p2 {
                                    match hex_u8_0x(src, sp2) {
                                        None => Err(UbootError::InvalidSequence),
                                        Some((c, _end)) => {
                                            self.id = [a, b, c];
                                            Ok(())
                                        },
                                    }
                                } else {
                                    Err(UbootError::InvalidSequence)
                                }
                            },
                        }
                    } else {
                        Err(UbootError::InvalidSequence)
                    }
                },
            }
        } else if tag_nocase(src, 0, &TAG_NAMEQ) {
            let n = skip_till(src, 6, QUOTE);
            if n > 6 && n < src.len() {
                self.name = copy_range(src, 6, n);
                Ok(())
            } else {
                Err(UbootError::InvalidSequence)
            }
        } else {
            Err(UbootError::InvalidSequence)
        }
    }
}

} // verus!
