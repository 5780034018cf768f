//! The key a stop-autoboot banner asks for, parsed from sentences such as
//! `Hit any key to stop autoboot:  1`, and its encoding into the byte or
//! bytes the host must send.
use vstd::prelude::*;

use crate::UbootError;
use crate::ascii::{LO_A, LO_Z, MINUS, PLUS, UP_A, UP_Z};
use crate::parse_utils::{is_alpha, matches_nocase, skip_spaces, space_run_len, tag_nocase};

verus! {

/// The bytes of `hit`.
pub const TAG_HIT: [u8; 3] = [104, 105, 116];

/// The bytes of `press`.
pub const TAG_PRESS: [u8; 5] = [112, 114, 101, 115, 115];

/// The bytes of `ctrl`.
pub const TAG_CTRL: [u8; 4] = [99, 116, 114, 108];

/// The bytes of `any`.
pub const TAG_ANY: [u8; 3] = [97, 110, 121];

/// The bytes of `key`.
pub const TAG_KEY: [u8; 3] = [107, 101, 121];

/// The bytes of `to`.
pub const TAG_TO: [u8; 2] = [116, 111];

/// The bytes of `stop`.
pub const TAG_STOP: [u8; 4] = [115, 116, 111, 112];

/// The bytes of `autoboot`.
pub const TAG_AUTOBOOT: [u8; 8] = [97, 117, 116, 111, 98, 111, 111, 116];

/// Lower-case ASCII letters folded to upper case; all else unchanged.
pub open spec fn to_upper(c: u8) -> u8 {
    if LO_A <= c && c <= LO_Z {
        (c - 32) as u8
    } else {
        c
    }
}

/// The key a banner asks for: any key at all, one literal key, or a control
/// chord whose letter is kept as upper-case ASCII.
#[derive(Clone, Copy, Debug, PartialEq, Eq, Structural)]
pub enum TerminalKey {
    Any,
    Key(u8),
    Ctrl(u8),
}

/// The bytes a key is sent as: `a` for any-key, the key byte itself for a
/// literal key, and the control code (the letter minus 0x40) for a chord.
pub open spec fn spec_key_bytes(k: TerminalKey) -> Seq<u8> {
    match k {
        TerminalKey::Any => seq![LO_A],
        TerminalKey::Key(c) => seq![c],
        TerminalKey::Ctrl(c) => seq![(c - 0x40) as u8],
    }
}

impl TerminalKey {
    /// A control chord carries an upper-case letter; the other forms carry
    /// whatever single byte was parsed.
    pub open spec fn wf(self) -> bool {
        match self {
            TerminalKey::Ctrl(c) => UP_A <= c && c <= UP_Z,
            _ => true,
        }
    }

    /// The byte to send for this key: `a` for any-key, the key itself for a
    /// literal key, and the control code (letter minus 0x40) for a chord.
    pub fn encode(&self) -> (r: Vec<u8>)
        requires
            self.wf(),
        ensures
            r@ == spec_key_bytes(*self),
    {
        let mut out: Vec<u8> = Vec::new();
        match self {
            TerminalKey::Any => {
                out.push(LO_A);
            },
            TerminalKey::Key(c) => {
                out.push(*c);
            },
            TerminalKey::Ctrl(c) => {
                out.push(*c - 0x40);
            },
        }
        proof {
            assert(out@ =~= spec_key_bytes(*self));
        }
        out
    }
}

/// The key alternative after `hit`/`press`: a `ctrl`-chord, the words
/// `any key`, or one letter; and the position after it.
pub open spec fn spec_key_alt(s: Seq<u8>, p: int) -> Option<(TerminalKey, int)> {
    if matches_nocase(s, p, TAG_CTRL@) && p + 4 < s.len() && (s[p + 4] == MINUS || s[p + 4]
        == PLUS) && p + 5 < s.len() && is_alpha(s[p + 5]) {
        Some((TerminalKey::Ctrl(to_upper(s[p + 5])), p + 6))
    } else if matches_nocase(s, p, TAG_ANY@) && space_run_len(s, p + 3) >= 1 && matches_nocase(
        s,
        p + 3 + space_run_len(s, p + 3),
        TAG_KEY@,
    ) {
        Some((TerminalKey::Any, p + 3 + space_run_len(s, p + 3) + 3))
    } else if 0 <= p < s.len() && is_alpha(s[p]) {
        Some((TerminalKey::Key(s[p]), p + 1))
    } else {
        None
    }
}

/// The sentence tail ` to stop autoboot`, blanks between the words.
pub open spec fn spec_tail_matches(s: Seq<u8>, q: int) -> bool {
    space_run_len(s, q) >= 1 && ({
        let a = q + space_run_len(s, q);
        matches_nocase(s, a, TAG_TO@) && space_run_len(s, a + 2) >= 1 && ({
            let b = a + 2 + space_run_len(s, a + 2);
            matches_nocase(s, b, TAG_STOP@) && space_run_len(s, b + 4) >= 1 && matches_nocase(
                s,
                b + 4 + space_run_len(s, b + 4),
                TAG_AUTOBOOT@,
            )
        })
    })
}

/// The whole banner: `hit` or `press`, the key, then ` to stop autoboot`.
pub open spec fn spec_stop_autoboot(s: Seq<u8>) -> Option<TerminalKey> {
    let hl: int = if matches_nocase(s, 0, TAG_HIT@) {
        3
    } else if matches_nocase(s, 0, TAG_PRESS@) {
        5
    } else {
        -1
    };
    if hl < 0 || space_run_len(s, hl) < 1 {
        None
    } else {
        match spec_key_alt(s, hl + space_run_len(s, hl)) {
            None => None,
            Some((k, q)) => {
                if spec_tail_matches(s, q) {
                    Some(k)
                } else {
                    None
                }
            },
        }
    }
}

impl TerminalKey {
    /// Parse a stop-autoboot banner into the key it asks for.
    pub fn parse_stop_autoboot(src: &[u8]) -> (r: Result<TerminalKey, UbootError>)
        ensures
            match spec_stop_autoboot(src@) {
                Some(k) => r == Ok::<TerminalKey, UbootError>(k) && k.wf(),
                None => r matches Err(e) && e == UbootError::InvalidSequence,
            },
    {
        proof {
            vstd::slice::axiom_spec_len::<u8>(src);
        }
        let hl: usize = if tag_nocase(src, 0, &TAG_HIT) {
            3
        } else if tag_nocase(src, 0, &TAG_PRESS) {
            5
        } else {
            return Err(UbootError::InvalidSequence);
        };
        let p = skip_spaces(src, hl);
        if p == hl {
            return Err(UbootError::InvalidSequence);
        }
        let (key, q): (TerminalKey, usize) = if tag_nocase(src, p, &TAG_CTRL) && p + 4
            < src.len() && (src[p + 4] == MINUS || src[p + 4] == PLUS) && p + 5 < src.len() && ((LO_A <= src[p + 5] && src[p + 5] <= LO_Z) || (UP_A <= src[p + 5]
            && src[p + 5] <= UP_Z)) {
            let c = src[p + 5];
            let up = if LO_A <= c && c <= LO_Z {
                c - 32
            } else {
                c
            };
            (TerminalKey::Ctrl(up), p + 6)
        } else if tag_nocase(src, p, &TAG_ANY) && skip_spaces(src, p + 3) > p + 3 && tag_nocase(
            src,
            skip_spaces(src, p + 3),
            &TAG_KEY,
        ) {
            (TerminalKey::Any, skip_spaces(src, p + 3) + 3)
        } else if p < src.len() && ((LO_A <= src[p] && src[p] <= LO_Z) || (UP_A <= src[p]
            && src[p] <= UP_Z)) {
            (TerminalKey::Key(src[p]), p + 1)
        } else {
            return Err(UbootError::InvalidSequence);
        };
        let s1 = skip_spaces(src, q);
        if s1 == q || !tag_nocase(src, s1, &TAG_TO) {
            return Err(UbootError::InvalidSequence);
        }
        let s2 = skip_spaces(src, s1 + 2);
        if s2 == s1 + 2 || !tag_nocase(src, s2, &TAG_STOP) {
            return Err(UbootError::InvalidSequence);
        }
        let s3 = skip_spaces(src, s2 + 4);
        if s3 == s2 + 4 || !tag_nocase(src, s3, &TAG_AUTOBOOT) {
            return Err(UbootError::InvalidSequence);
        }
        Ok(key)
    }
}

} // verus!
