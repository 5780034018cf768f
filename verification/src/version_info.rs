//! Parser for the U-Boot version banner: an optional `version: ` prefix, the
//! literal `U-Boot`, a `YYYY.MM` date, and up to two optional `-<alnum>`
//! groups captured as revision and suffix.
use vstd::prelude::*;

use crate::UbootError;
use crate::ascii::{DOT, MINUS};
use crate::parse_utils::{
    alnum_run_len, copy_range, dec_run_len, dec_u64, lemma_alnum_run_props, lemma_dec_run_props,
    matches_nocase, skip_alnum, skip_spaces, space_run_len, spec_dec_u64, tag_nocase,
};

verus! {

/// The bytes of `version:`.
pub const TAG_VERSION: [u8; 8] = [118, 101, 114, 115, 105, 111, 110, 58];

/// The bytes of `u-boot`, matched without regard to case.
pub const TAG_UBOOT: [u8; 6] = [117, 45, 98, 111, 111, 116];

/// Where the `U-Boot` literal is looked for: after `version: ` when that
/// prefix with at least one blank is present, else at the start.
pub open spec fn spec_version_start(s: Seq<u8>) -> int {
    if matches_nocase(s, 0, TAG_VERSION@) && space_run_len(s, 8) >= 1 {
        8 + space_run_len(s, 8) as int
    } else {
        0
    }
}

/// An optional `-<alnum>` group: its letters, and the position after it.
/// Without a dash or with nothing alphanumeric behind it, the group is empty
/// and no input is consumed.
pub open spec fn spec_opt_group(s: Seq<u8>, i: int) -> (Seq<u8>, int) {
    if 0 <= i < s.len() && s[i] == MINUS && alnum_run_len(s, i + 1) >= 1 {
        (
            s.subrange(i + 1, i + 1 + alnum_run_len(s, i + 1)),
            i + 1 + alnum_run_len(s, i + 1),
        )
    } else {
        (Seq::empty(), i)
    }
}

/// The whole banner: year, month (1 to 12), revision and suffix groups.
pub open spec fn spec_parse_version(s: Seq<u8>) -> Option<(u16, u8, Seq<u8>, Seq<u8>)> {
    let st = spec_version_start(s);
    if matches_nocase(s, st, TAG_UBOOT@) && space_run_len(s, st + 6) >= 1 {
        let p = st + 6 + space_run_len(s, st + 6);
        match spec_dec_u64(s, p) {
            None => None,
            Some((year, p1)) => {
                if year <= u16::MAX && p1 < s.len() && s[p1] == DOT {
                    match spec_dec_u64(s, p1 + 1) {
                        None => None,
                        Some((month, p2)) => {
                            if 1 <= month <= 12 {
                                let (rev, p3) = spec_opt_group(s, p2);
                                let (sfx, _p4) = spec_opt_group(s, p3);
                                Some((year as u16, month as u8, rev, sfx))
                            } else {
                                None
                            }
                        },
                    }
                } else {
                    None
                }
            },
        }
    } else {
        None
    }
}

/// The version a device announced: release year and month, and the free-form
/// revision and suffix tags of the build.
#[derive(Clone, Debug, PartialEq, Eq)]
pub struct VersionInfo {
    pub year: u16,
    pub month: u8,
    pub revision: Vec<u8>,
    pub suffix: Vec<u8>,
}

impl VersionInfo {
    /// Parse a version banner line.
    pub fn parse(src: &[u8]) -> (r: Result<VersionInfo, UbootError>)
        ensures
            match spec_parse_version(src@) {
                Some((y, m, rev, sfx)) => r matches Ok(v) && v.year == y && v.month == m
                    && v.revision@ == rev && v.suffix@ == sfx,
                None => r matches Err(e) && e == UbootError::InvalidSequence,
            },
    {
        proof {
            vstd::slice::axiom_spec_len::<u8>(src);
        }
        let st: usize = if tag_nocase(src, 0, &TAG_VERSION) {
            let sp = skip_spaces(src, 8);
            if sp > 8 {
                sp
            } else {
                0
            }
        } else {
            0
        };
        if !tag_nocase(src, st, &TAG_UBOOT) {
            return Err(UbootError::InvalidSequence);
        }
        let p = skip_spaces(src, st + 6);
        if p == st + 6 {
            return Err(UbootError::InvalidSequence);
        }
        let (year, p1) = match dec_u64(src, p) {
            None => {
                return Err(UbootError::InvalidSequence);
            },
            Some(x) => x,
        };
        proof {
            assert(dec_run_len(src@, p as int) >= 1);
            lemma_dec_run_props(src@, p as int);
        }
        if year > u16::MAX as u64 {
            return Err(UbootError::InvalidSequence);
        }
        if !(p1 < src.len() && src[p1] == DOT) {
            return Err(UbootError::InvalidSequence);
        }
        let (month, p2) = match dec_u64(src, p1 + 1) {
            None => {
                return Err(UbootError::InvalidSequence);
            },
            Some(x) => x,
        };
        if !(1 <= month && month <= 12) {
            return Err(UbootError::InvalidSequence);
        }
        proof {
            assert(dec_run_len(src@, p1 + 1) >= 1);
            lemma_dec_run_props(src@, p1 + 1);
        }
        let (revision, p3) = opt_dash_group(src, p2);
        let (suffix, _p4) = opt_dash_group(src, p3);
        Ok(
            VersionInfo {
                year: year as u16,
                month: month as u8,
                revision,
                suffix,
            },
        )
    }
}

/// Parse an optional `-<alnum>` group at `i`.
fn opt_dash_group(s: &[u8], i: usize) -> (r: (Vec<u8>, usize))
    requires
        i <= s@.len(),
    ensures
        ({
            let (g, j) = spec_opt_group(s@, i as int);
            r.0@ == g && r.1 == j as usize && i <= j <= s@.len() && r.1 == j
        }),
{
    proof {
        vstd::slice::axiom_spec_len::<u8>(s);
        if (i as int) < s@.len() {
            lemma_alnum_run_props(s@, i + 1);
        }
    }
    if i < s.len() && s[i] == MINUS {
        let e = skip_alnum(s, i + 1);
        if e > i + 1 {
            (copy_range(s, i + 1, e), e)
        } else {
            (Vec::new(), i)
        }
    } else {
        (Vec::new(), i)
    }
}

} // verus!
