//! Byte-level parsers for the numeric literals U-Boot prints: bare hex digits,
//! `0x`-prefixed hex, decimal numbers with an optional magnitude suffix
//! (`k` = 1024, `m` = 1048576, optional trailing `b`), and the hex formatter
//! used to build command arguments.
//!
//! Every parser takes a byte slice and a start index and returns the parsed
//! value together with the index of the first byte it did not consume, or
//! `None` when the input does not match.
use vstd::prelude::*;

use crate::ascii::{D0, D9, LO_A, LO_B, LO_F, LO_K, LO_M, LO_X, LO_Z, SP, TAB, UP_A, UP_B, UP_F, UP_K, UP_M, UP_X, UP_Z};

verus! {

pub open spec fn is_dec_digit(c: u8) -> bool {
    D0 <= c && c <= D9
}

pub open spec fn is_hex_digit(c: u8) -> bool {
    (D0 <= c && c <= D9) || (LO_A <= c && c <= LO_F) || (UP_A <= c && c <= UP_F)
}

pub open spec fn hex_digit_val(c: u8) -> u8 {
    if D0 <= c && c <= D9 {
        (c - D0) as u8
    } else if UP_A <= c && c <= UP_F {
        (c - UP_A + 10) as u8
    } else {
        (c - LO_A + 10) as u8
    }
}

/// Length of the maximal run of hex digits in `s` starting at `i`.
pub open spec fn hex_run_len(s: Seq<u8>, i: int) -> nat
    decreases s.len() - i,
{
    if i < 0 || i >= s.len() || !is_hex_digit(s[i]) {
        0
    } else {
        (1 + hex_run_len(s, i + 1)) as nat
    }
}

/// Length of the maximal run of decimal digits in `s` starting at `i`.
pub open spec fn dec_run_len(s: Seq<u8>, i: int) -> nat
    decreases s.len() - i,
{
    if i < 0 || i >= s.len() || !is_dec_digit(s[i]) {
        0
    } else {
        (1 + dec_run_len(s, i + 1)) as nat
    }
}

/// The number whose base-16 digits are `s` (most significant first).
pub open spec fn hex_value(s: Seq<u8>) -> nat
    decreases s.len(),
{
    if s.len() == 0 {
        0
    } else {
        (hex_value(s.drop_last()) * 16 + hex_digit_val(s.last())) as nat
    }
}

/// The number whose base-10 digits are `s` (most significant first).
pub open spec fn dec_value(s: Seq<u8>) -> nat
    decreases s.len(),
{
    if s.len() == 0 {
        0
    } else {
        (dec_value(s.drop_last()) * 10 + hex_digit_val(s.last())) as nat
    }
}

pub open spec fn spec_dec_dig(s: Seq<u8>, i: int) -> Option<(u8, int)> {
    if 0 <= i < s.len() && is_dec_digit(s[i]) {
        Some((hex_digit_val(s[i]), i + 1))
    } else {
        None
    }
}

pub open spec fn spec_hex_dig(s: Seq<u8>, i: int) -> Option<(u8, int)> {
    if 0 <= i < s.len() && is_hex_digit(s[i]) {
        Some((hex_digit_val(s[i]), i + 1))
    } else {
        None
    }
}

/// One or two hex digits, most significant first.
pub open spec fn spec_hex_u8(s: Seq<u8>, i: int) -> Option<(u8, int)> {
    let n = if hex_run_len(s, i) >= 2 {
        2
    } else {
        hex_run_len(s, i)
    };
    if n == 0 {
        None
    } else {
        Some((hex_value(s.subrange(i, i + n)) as u8, i + n))
    }
}

/// `0x` or `0X` at `i`.
pub open spec fn has_hex_prefix(s: Seq<u8>, i: int) -> bool {
    0 <= i && i + 2 <= s.len() && s[i] == D0 && (s[i + 1] == LO_X || s[i + 1] == UP_X)
}

pub open spec fn spec_hex_u8_0x(s: Seq<u8>, i: int) -> Option<(u8, int)> {
    if has_hex_prefix(s, i) {
        spec_hex_u8(s, i + 2)
    } else {
        None
    }
}

/// A maximal run of hex digits; the run must be non-empty and its value must
/// fit in 64 bits, otherwise the parse fails.
pub open spec fn spec_hex_u64(s: Seq<u8>, i: int) -> Option<(u64, int)> {
    let n = hex_run_len(s, i);
    if n == 0 || hex_value(s.subrange(i, i + n)) >= 0x1_0000_0000_0000_0000 {
        None
    } else {
        Some((hex_value(s.subrange(i, i + n)) as u64, i + n))
    }
}

pub open spec fn spec_hex_u64_0x(s: Seq<u8>, i: int) -> Option<(u64, int)> {
    if has_hex_prefix(s, i) {
        spec_hex_u64(s, i + 2)
    } else {
        None
    }
}

/// A maximal run of decimal digits, same failure rules as `spec_hex_u64`.
pub open spec fn spec_dec_u64(s: Seq<u8>, i: int) -> Option<(u64, int)> {
    let n = dec_run_len(s, i);
    if n == 0 || dec_value(s.subrange(i, i + n)) >= 0x1_0000_0000_0000_0000 {
        None
    } else {
        Some((dec_value(s.subrange(i, i + n)) as u64, i + n))
    }
}

/// Optional magnitude (`k`/`K` = 1024, `m`/`M` = 1048576) and an optional
/// trailing `b`/`B`; never fails, the multiplier defaults to 1.
pub open spec fn spec_units_mul(s: Seq<u8>, i: int) -> (u64, int) {
    let (mul, j) = if 0 <= i < s.len() && (s[i] == LO_K || s[i] == UP_K) {
        (1024u64, i + 1)
    } else if 0 <= i < s.len() && (s[i] == LO_M || s[i] == UP_M) {
        (1048576u64, i + 1)
    } else {
        (1u64, i)
    };
    if 0 <= j < s.len() && (s[j] == LO_B || s[j] == UP_B) {
        (mul, j + 1)
    } else {
        (mul, j)
    }
}

/// Decimal number scaled by the optional magnitude suffix; fails when the
/// scaled value leaves the 64-bit range.
pub open spec fn spec_dec_u64_units(s: Seq<u8>, i: int) -> Option<(u64, int)> {
    match spec_dec_u64(s, i) {
        None => None,
        Some((v, j)) => {
            let (mul, k) = spec_units_mul(s, j);
            if v * mul >= 0x1_0000_0000_0000_0000 {
                None
            } else {
                Some(((v * mul) as u64, k))
            }
        },
    }
}

/// Size literal: `0x`-prefixed hex when the prefix is followed by at least one
/// hex digit, otherwise a decimal number with units.
pub open spec fn spec_size_u64(s: Seq<u8>, i: int) -> Option<(u64, int)> {
    if has_hex_prefix(s, i) && hex_run_len(s, i + 2) > 0 {
        spec_hex_u64(s, i + 2)
    } else {
        spec_dec_u64_units(s, i)
    }
}

/// Parse one decimal digit.
pub fn dec_dig(s: &[u8], i: usize) -> (r: Option<(u8, usize)>)
    ensures
        match spec_dec_dig(s@, i as int) {
            Some((v, j)) => r == Some((v, j as usize)),
            None => r is None,
        },
{
    if i < s.len() && D0 <= s[i] && s[i] <= D9 {
        Some((s[i] - D0, i + 1))
    } else {
        None
    }
}

/// Parse one hexadecimal digit, either case.
pub fn hex_dig(s: &[u8], i: usize) -> (r: Option<(u8, usize)>)
    ensures
        match spec_hex_dig(s@, i as int) {
            Some((v, j)) => r == Some((v, j as usize)),
            None => r is None,
        },
{
    if i >= s.len() {
        return None;
    }
    let c = s[i];
    if D0 <= c && c <= D9 {
        Some((c - D0, i + 1))
    } else if UP_A <= c && c <= UP_F {
        Some((c - UP_A + 10, i + 1))
    } else if LO_A <= c && c <= LO_F {
        Some((c - LO_A + 10, i + 1))
    } else {
        None
    }
}

/// Parse a hexadecimal number of one or two digits.
pub fn hex_u8(s: &[u8], i: usize) -> (r: Option<(u8, usize)>)
    ensures
        match spec_hex_u8(s@, i as int) {
            Some((v, j)) => r == Some((v, j as usize)),
            None => r is None,
        },
{
    proof {
        vstd::slice::axiom_spec_len::<u8>(s);
    }
    match hex_dig(s, i) {
        None => None,
        Some((h1, j)) => {
            proof {
                assert(j == i + 1);
                lemma_hex_value_one(s@, i as int);
            }
            match hex_dig(s, j) {
                None => {
                    proof {
                        assert(hex_run_len(s@, i + 1) == 0);
                        assert(hex_run_len(s@, i as int) == 1);
                    }
                    Some((h1, j))
                },
                Some((h2, k)) => {
                    proof {
                        assert(k == i + 2);
                        lemma_hex_value_two(s@, i as int);
                    }
                    Some((h1 * 16 + h2, k))
                },
            }
        },
    }
}

/// Parse a hexadecimal number of one or two digits, after a `0x` prefix.
pub fn hex_u8_0x(s: &[u8], i: usize) -> (r: Option<(u8, usize)>)
    ensures
        match spec_hex_u8_0x(s@, i as int) {
            Some((v, j)) => r == Some((v, j as usize)),
            None => r is None,
        },
{
    if i < s.len() && i + 1 < s.len() && s[i] == D0 && (s[i + 1] == LO_X || s[i + 1] == UP_X) {
        hex_u8(s, i + 2)
    } else {
        None
    }
}

/// Parse a maximal non-empty run of hex digits as a 64-bit number.
pub fn hex_u64(s: &[u8], i: usize) -> (r: Option<(u64, usize)>)
    ensures
        match spec_hex_u64(s@, i as int) {
            Some((v, j)) => r == Some((v, j as usize)),
            None => r is None,
        },
{
    if i >= s.len() {
        return None;
    }
    let mut j = i;
    let mut val: u64 = 0;
    proof {
        assert(s@.subrange(i as int, i as int) =~= Seq::<u8>::empty());
        assert(hex_value(Seq::<u8>::empty()) == 0);
    }
    loop
        invariant
            s@.len() <= usize::MAX,
            i <= j <= s@.len(),
            forall|t: int| i <= t < j ==> is_hex_digit(s@[t]),
            val == hex_value(s@.subrange(i as int, j as int)),
        decreases s@.len() - j,
    {
        match hex_dig(s, j) {
            None => {
                proof {
                    lemma_hex_run_len_exact(s@, i as int, j as int);
                }
                if j == i {
                    return None;
                }
                return Some((val, j));
            },
            Some((d, j2)) => {
                proof {
                    assert(j2 == j + 1);
                    lemma_hex_value_step(s@, i as int, j as int);
                }
                if val > (u64::MAX - d as u64) / 16 {
                    proof {
                        assert(16 * (val as int) + d >= 0x1_0000_0000_0000_0000) by (nonlinear_arith)
                            requires
                                val > (0xffff_ffff_ffff_ffffu64 - d) / 16,
                                0 <= d < 16,
                        ;
                        lemma_hex_run_props(s@, i as int);
                        assert(i + hex_run_len(s@, i as int) > j);
                        lemma_hex_value_grows(s@, i as int, j + 1, i + hex_run_len(s@, i as int));
                    }
                    return None;
                }
                proof {
                    assert(16 * (val as int) + (d as int) <= u64::MAX as int) by (nonlinear_arith)
                        requires
                            val <= (0xffff_ffff_ffff_ffffu64 - d) / 16,
                            0 <= d < 16,
                    ;
                }
                val = val * 16 + d as u64;
                j = j2;
            },
        }
    }
}

/// Parse a maximal non-empty run of hex digits after a `0x` prefix.
pub fn hex_u64_0x(s: &[u8], i: usize) -> (r: Option<(u64, usize)>)
    ensures
        match spec_hex_u64_0x(s@, i as int) {
            Some((v, j)) => r == Some((v, j as usize)),
            None => r is None,
        },
{
    if i < s.len() && i + 1 < s.len() && s[i] == D0 && (s[i + 1] == LO_X || s[i + 1] == UP_X) {
        hex_u64(s, i + 2)
    } else {
        None
    }
}

/// Parse a maximal non-empty run of decimal digits as a 64-bit number.
pub fn dec_u64(s: &[u8], i: usize) -> (r: Option<(u64, usize)>)
    ensures
        match spec_dec_u64(s@, i as int) {
            Some((v, j)) => r == Some((v, j as usize)),
            None => r is None,
        },
{
    if i >= s.len() {
        return None;
    }
    let mut j = i;
    let mut val: u64 = 0;
    proof {
        assert(s@.subrange(i as int, i as int) =~= Seq::<u8>::empty());
        assert(dec_value(Seq::<u8>::empty()) == 0);
    }
    loop
        invariant
            s@.len() <= usize::MAX,
            i <= j <= s@.len(),
            forall|t: int| i <= t < j ==> is_dec_digit(s@[t]),
            val == dec_value(s@.subrange(i as int, j as int)),
        decreases s@.len() - j,
    {
        match dec_dig(s, j) {
            None => {
                proof {
                    lemma_dec_run_len_exact(s@, i as int, j as int);
                }
                if j == i {
                    return None;
                }
                return Some((val, j));
            },
            Some((d, j2)) => {
                proof {
                    assert(j2 == j + 1);
                    lemma_dec_value_step(s@, i as int, j as int);
                }
                if val > (u64::MAX - d as u64) / 10 {
                    proof {
                        assert(10 * (val as int) + d >= 0x1_0000_0000_0000_0000) by (nonlinear_arith)
                            requires
                                val > (0xffff_ffff_ffff_ffffu64 - d) / 10,
                                0 <= d < 10,
                        ;
                        lemma_dec_run_props(s@, i as int);
                        assert(i + dec_run_len(s@, i as int) > j);
                        lemma_dec_value_grows(s@, i as int, j + 1, i + dec_run_len(s@, i as int));
                    }
                    return None;
                }
                proof {
                    assert(10 * (val as int) + (d as int) <= u64::MAX as int) by (nonlinear_arith)
                        requires
                            val <= (0xffff_ffff_ffff_ffffu64 - d) / 10,
                            0 <= d < 10,
                    ;
                }
                val = val * 10 + d as u64;
                j = j2;
            },
        }
    }
}

/// Parse the optional magnitude and `b` suffix; always succeeds.
pub fn units_mul(s: &[u8], i: usize) -> (r: (u64, usize))
    ensures
        ({
            let (mul, j) = spec_units_mul(s@, i as int);
            r.0 == mul && r.1 == j as usize
        }),
{
    let (mul, j): (u64, usize) = if i < s.len() && (s[i] == LO_K || s[i] == UP_K) {
        (1024, i + 1)
    } else if i < s.len() && (s[i] == LO_M || s[i] == UP_M) {
        (1048576, i + 1)
    } else {
        (1, i)
    };
    if j < s.len() && (s[j] == LO_B || s[j] == UP_B) {
        (mul, j + 1)
    } else {
        (mul, j)
    }
}

/// Parse a decimal number with an optional magnitude suffix.
pub fn dec_u64_units(s: &[u8], i: usize) -> (r: Option<(u64, usize)>)
    ensures
        match spec_dec_u64_units(s@, i as int) {
            Some((v, j)) => r == Some((v, j as usize)),
            None => r is None,
        },
{
    proof {
        vstd::slice::axiom_spec_len::<u8>(s);
        assert(s@.len() <= usize::MAX);
    }
    match dec_u64(s, i) {
        None => None,
        Some((v, j)) => {
            let (mul, k) = units_mul(s, j);
            proof {
                assert(dec_run_len(s@, i as int) >= 1);
                lemma_dec_run_props(s@, i as int);
                assert(spec_dec_u64(s@, i as int) == Some((v, j as int)));
            }
            if mul != 1 && v > u64::MAX / mul {
                proof {
                    assert((v as int) * (mul as int) >= 0x1_0000_0000_0000_0000) by (nonlinear_arith)
                        requires
                            (mul == 1024u64 || mul == 1048576u64),
                            v > 0xffff_ffff_ffff_ffffu64 / mul,
                    ;
                }
                None
            } else {
                proof {
                    assert((v as int) * (mul as int) <= (u64::MAX as int)) by (nonlinear_arith)
                        requires
                            mul >= 1,
                            (mul == 1u64 ==> v <= u64::MAX),
                            (mul != 1u64 ==> v <= 0xffff_ffff_ffff_ffffu64 / mul),
                            (mul == 1u64 || mul == 1024u64 || mul == 1048576u64),
                    ;
                }
                Some((v * mul, k))
            }
        },
    }
}

/// Parse a size literal: `0x`-prefixed hex, or decimal with units.
pub fn size_u64(s: &[u8], i: usize) -> (r: Option<(u64, usize)>)
    ensures
        match spec_size_u64(s@, i as int) {
            Some((v, j)) => r == Some((v, j as usize)),
            None => r is None,
        },
{
    let has_prefix = i < s.len() && i + 1 < s.len() && s[i] == D0 && (s[i + 1] == LO_X || s[i
        + 1] == UP_X);
    if has_prefix && hex_dig(s, i + 2).is_some() {
        proof {
            assert(hex_run_len(s@, i + 2) > 0);
        }
        hex_u64(s, i + 2)
    } else {
        proof {
            if has_hex_prefix(s@, i as int) {
                assert(hex_run_len(s@, i + 2) == 0);
            }
        }
        dec_u64_units(s, i)
    }
}

pub open spec fn hex_char(d: u8) -> u8 {
    if d < 10 {
        (D0 + d) as u8
    } else {
        (LO_A + d - 10) as u8
    }
}

/// The base-16 digit string of `n`, lower case, zero-padded to width `w`.
pub open spec fn hex_rep(n: nat, w: nat) -> Seq<u8>
    decreases n, w,
{
    if n < 16 && w <= 1 {
        seq![hex_char(n as u8)]
    } else {
        hex_rep(n / 16, if w <= 1 {
            0
        } else {
            (w - 1) as nat
        }).push(hex_char((n % 16) as u8))
    }
}

/// `0x` followed by the hex digits of `n`, zero-padded to eight digits: the
/// form every numeric command argument is sent in.
pub open spec fn spec_format_size(n: u64) -> Seq<u8> {
    seq![D0, LO_X] + hex_rep(n as nat, 8)
}

fn hex_char_of(d: u8) -> (r: u8)
    requires
        d < 16,
    ensures
        r == hex_char(d),
{
    if d < 10 {
        D0 + d
    } else {
        LO_A + d - 10
    }
}

fn push_hex_digits(n: u64, w: usize, out: &mut Vec<u8>)
    ensures
        final(out)@ == old(out)@ + hex_rep(n as nat, w as nat),
    decreases n, w,
{
    if n < 16 && w <= 1 {
        out.push(hex_char_of(n as u8));
        proof {
            assert(final(out)@ =~= old(out)@ + hex_rep(n as nat, w as nat));
        }
    } else {
        push_hex_digits(n / 16, if w <= 1 {
            0
        } else {
            w - 1
        }, out);
        out.push(hex_char_of((n % 16) as u8));
        proof {
            assert(final(out)@ =~= old(out)@ + hex_rep(n as nat, w as nat));
        }
    }
}

/// Render `n` as a lower-case `0x`-prefixed hex literal, zero-padded to eight
/// digits, as the device expects its command arguments.
pub fn format_size(n: u64) -> (r: Vec<u8>)
    ensures
        r@ == spec_format_size(n),
{
    let mut out: Vec<u8> = Vec::new();
    out.push(D0);
    out.push(LO_X);
    push_hex_digits(n, 8, &mut out);
    proof {
        assert(out@ =~= spec_format_size(n));
    }
    out
}

proof fn lemma_hex_rep_digits(n: nat, w: nat)
    ensures
        hex_rep(n, w).len() >= 1,
        hex_rep(n, w).len() >= w,
        forall|t: int| 0 <= t < hex_rep(n, w).len() ==> is_hex_digit(#[trigger] hex_rep(n, w)[t]),
        hex_value(hex_rep(n, w)) == n,
    decreases n, w,
{
    if n < 16 && w <= 1 {
        assert(hex_value(hex_rep(n, w).drop_last()) == 0);
    } else {
        let w2: nat = if w <= 1 {
            0
        } else {
            (w - 1) as nat
        };
        lemma_hex_rep_digits(n / 16, w2);
        let prev = hex_rep(n / 16, w2);
        let d: u8 = (n % 16) as u8;
        assert(prev.push(hex_char(d)).drop_last() =~= prev);
        assert(hex_value(prev.push(hex_char(d))) == hex_value(prev) * 16 + hex_digit_val(
            hex_char(d),
        ));
        assert(n / 16 * 16 + n % 16 == n) by (nonlinear_arith);
    }
}

/// Formatting a number and parsing the result returns the same number:
/// `size_u64` inverts `format_size` on every 64-bit value.
pub proof fn lemma_format_size_roundtrip(n: u64)
    ensures
        spec_size_u64(spec_format_size(n), 0) == Some::<(u64, int)>(
            (n, spec_format_size(n).len() as int),
        ),
{
    let s = spec_format_size(n);
    let rep = hex_rep(n as nat, 8);
    lemma_hex_rep_digits(n as nat, 8);
    assert(s[0] == D0 && s[1] == LO_X);
    assert(s.subrange(2, s.len() as int) =~= rep);
    assert(forall|t: int| 2 <= t < s.len() ==> is_hex_digit(s[t]));
    lemma_hex_run_len_exact(s, 2, s.len() as int);
    assert(has_hex_prefix(s, 0));
    assert(hex_run_len(s, 2) == s.len() - 2 > 0);
    assert(hex_value(s.subrange(2, 2 + hex_run_len(s, 2) as int)) == n);
}

/// A successful `spec_hex_u8` consumes one or two bytes of the input.
pub proof fn lemma_spec_hex_u8_bounds(s: Seq<u8>, i: int)
    ensures
        match spec_hex_u8(s, i) {
            Some((b, j)) => i + 1 <= j <= i + 2 && j <= s.len(),
            None => true,
        },
{
    if spec_hex_u8(s, i) is Some {
        assert(hex_run_len(s, i) >= 1);
        assert(0 <= i < s.len());
        lemma_hex_run_props(s, i);
    }
}

/// A successful `spec_hex_u64` consumes at least one byte and stays in range.
pub proof fn lemma_spec_hex_u64_bounds(s: Seq<u8>, i: int)
    ensures
        match spec_hex_u64(s, i) {
            Some((v, j)) => i + 1 <= j <= s.len(),
            None => true,
        },
{
    if spec_hex_u64(s, i) is Some {
        assert(hex_run_len(s, i) >= 1);
        assert(0 <= i < s.len());
        lemma_hex_run_props(s, i);
    }
}

/// The digit run stays inside the sequence, consists of digits, and ends at
/// a non-digit or at the end of the sequence.
pub proof fn lemma_hex_run_props(s: Seq<u8>, i: int)
    requires
        0 <= i <= s.len(),
    ensures
        i + hex_run_len(s, i) <= s.len(),
        forall|t: int| i <= t < i + hex_run_len(s, i) ==> is_hex_digit(s[t]),
        i + hex_run_len(s, i) == s.len() || !is_hex_digit(s[i + hex_run_len(s, i)]),
    decreases s.len() - i,
{
    if i < s.len() && is_hex_digit(s[i]) {
        lemma_hex_run_props(s, i + 1);
    }
}

pub proof fn lemma_dec_run_props(s: Seq<u8>, i: int)
    requires
        0 <= i <= s.len(),
    ensures
        i + dec_run_len(s, i) <= s.len(),
        forall|t: int| i <= t < i + dec_run_len(s, i) ==> is_dec_digit(s[t]),
        i + dec_run_len(s, i) == s.len() || !is_dec_digit(s[i + dec_run_len(s, i)]),
    decreases s.len() - i,
{
    if i < s.len() && is_dec_digit(s[i]) {
        lemma_dec_run_props(s, i + 1);
    }
}

/// Appending one digit multiplies the value by the base and adds the digit.
proof fn lemma_hex_value_step(s: Seq<u8>, i: int, j: int)
    requires
        0 <= i <= j < s.len(),
    ensures
        hex_value(s.subrange(i, j + 1)) == hex_value(s.subrange(i, j)) * 16 + hex_digit_val(s[j]),
{
    let ext = s.subrange(i, j + 1);
    assert(ext.last() == s[j]);
    assert(ext.drop_last() =~= s.subrange(i, j));
}

proof fn lemma_dec_value_step(s: Seq<u8>, i: int, j: int)
    requires
        0 <= i <= j < s.len(),
    ensures
        dec_value(s.subrange(i, j + 1)) == dec_value(s.subrange(i, j)) * 10 + hex_digit_val(s[j]),
{
    let ext = s.subrange(i, j + 1);
    assert(ext.last() == s[j]);
    assert(ext.drop_last() =~= s.subrange(i, j));
}

/// When the bytes from `i` to `j` are digits and `j` is past the run's end,
/// the run is exactly `j - i` long.
pub proof fn lemma_hex_run_len_exact(s: Seq<u8>, i: int, j: int)
    requires
        0 <= i <= j <= s.len(),
        forall|t: int| i <= t < j ==> is_hex_digit(s[t]),
        j == s.len() || !is_hex_digit(s[j]),
    ensures
        hex_run_len(s, i) == j - i,
    decreases j - i,
{
    if i < j {
        lemma_hex_run_len_exact(s, i + 1, j);
    }
}

proof fn lemma_dec_run_len_exact(s: Seq<u8>, i: int, j: int)
    requires
        0 <= i <= j <= s.len(),
        forall|t: int| i <= t < j ==> is_dec_digit(s[t]),
        j == s.len() || !is_dec_digit(s[j]),
    ensures
        dec_run_len(s, i) == j - i,
    decreases j - i,
{
    if i < j {
        lemma_dec_run_len_exact(s, i + 1, j);
    }
}

/// A longer run of digits never has a smaller value.
proof fn lemma_hex_value_grows(s: Seq<u8>, i: int, j: int, k: int)
    requires
        0 <= i <= j <= k <= s.len(),
        forall|t: int| i <= t < k ==> is_hex_digit(s[t]),
    ensures
        hex_value(s.subrange(i, k)) >= hex_value(s.subrange(i, j)),
    decreases k - j,
{
    if j < k {
        lemma_hex_value_step(s, i, k - 1);
        lemma_hex_value_grows(s, i, j, k - 1);
        assert(hex_value(s.subrange(i, k)) >= hex_value(s.subrange(i, k - 1)) * 16) by {
            assert(hex_value(s.subrange(i, k - 1)) * 16 >= hex_value(s.subrange(i, k - 1)) * 1)
                by (nonlinear_arith);
        }
    }
}

proof fn lemma_dec_value_grows(s: Seq<u8>, i: int, j: int, k: int)
    requires
        0 <= i <= j <= k <= s.len(),
        forall|t: int| i <= t < k ==> is_dec_digit(s[t]),
    ensures
        dec_value(s.subrange(i, k)) >= dec_value(s.subrange(i, j)),
    decreases k - j,
{
    if j < k {
        lemma_dec_value_step(s, i, k - 1);
        lemma_dec_value_grows(s, i, j, k - 1);
        assert(dec_value(s.subrange(i, k)) >= dec_value(s.subrange(i, k - 1)) * 10) by {
            assert(dec_value(s.subrange(i, k - 1)) * 10 >= dec_value(s.subrange(i, k - 1)) * 1)
                by (nonlinear_arith);
        }
    }
}

proof fn lemma_hex_value_one(s: Seq<u8>, i: int)
    requires
        0 <= i < s.len(),
        is_hex_digit(s[i]),
    ensures
        hex_value(s.subrange(i, i + 1)) == hex_digit_val(s[i]),
        hex_run_len(s, i) >= 1,
{
    let one = s.subrange(i, i + 1);
    assert(one.last() == s[i]);
    assert(one.drop_last() =~= Seq::<u8>::empty());
    assert(hex_value(Seq::<u8>::empty()) == 0);
    assert(hex_value(one) == hex_digit_val(s[i]));
}

proof fn lemma_hex_value_two(s: Seq<u8>, i: int)
    requires
        0 <= i,
        i + 2 <= s.len(),
        is_hex_digit(s[i]),
        is_hex_digit(s[i + 1]),
    ensures
        hex_value(s.subrange(i, i + 2)) == hex_digit_val(s[i]) * 16 + hex_digit_val(s[i + 1]),
        hex_run_len(s, i) >= 2,
{
    let two = s.subrange(i, i + 2);
    assert(two.last() == s[i + 1]);
    assert(two.drop_last() =~= s.subrange(i, i + 1));
    lemma_hex_value_one(s, i);
    lemma_hex_value_one(s, i + 1);
}

/// A blank: space or horizontal tab.
pub open spec fn is_space(c: u8) -> bool {
    c == SP || c == TAB
}

/// Length of the maximal run of blanks in `s` starting at `i`.
pub open spec fn space_run_len(s: Seq<u8>, i: int) -> nat
    decreases s.len() - i,
{
    if i < 0 || i >= s.len() || !is_space(s[i]) {
        0
    } else {
        (1 + space_run_len(s, i + 1)) as nat
    }
}

pub proof fn lemma_space_run_len_exact(s: Seq<u8>, i: int, j: int)
    requires
        0 <= i <= j <= s.len(),
        forall|t: int| i <= t < j ==> is_space(s[t]),
        j == s.len() || !is_space(s[j]),
    ensures
        space_run_len(s, i) == j - i,
    decreases j - i,
{
    if i < j {
        lemma_space_run_len_exact(s, i + 1, j);
    }
}

pub proof fn lemma_space_run_props(s: Seq<u8>, i: int)
    requires
        0 <= i <= s.len(),
    ensures
        i + space_run_len(s, i) <= s.len(),
        forall|t: int| i <= t < i + space_run_len(s, i) ==> is_space(s[t]),
        i + space_run_len(s, i) == s.len() || !is_space(s[i + space_run_len(s, i)]),
    decreases s.len() - i,
{
    if i < s.len() && is_space(s[i]) {
        lemma_space_run_props(s, i + 1);
    }
}

/// Advance past the blanks at `i`.
pub fn skip_spaces(s: &[u8], i: usize) -> (r: usize)
    ensures
        r == i + space_run_len(s@, i as int),
        i <= r,
        i <= s@.len() ==> r <= s@.len(),
{
    let mut pos = i;
    if i > s.len() {
        return i;
    }
    while pos < s.len() && (s[pos] == SP || s[pos] == TAB)
        invariant
            i <= pos <= s@.len(),
            forall|t: int| i <= t < pos ==> is_space(s@[t]),
        decreases s@.len() - pos,
    {
        pos = pos + 1;
    }
    proof {
        lemma_space_run_len_exact(s@, i as int, pos as int);
    }
    pos
}

pub open spec fn is_alpha(c: u8) -> bool {
    (LO_A <= c && c <= LO_Z) || (UP_A <= c && c <= UP_Z)
}

pub open spec fn is_alnum(c: u8) -> bool {
    is_alpha(c) || is_dec_digit(c)
}

/// Length of the maximal run of letters and digits in `s` starting at `i`.
pub open spec fn alnum_run_len(s: Seq<u8>, i: int) -> nat
    decreases s.len() - i,
{
    if i < 0 || i >= s.len() || !is_alnum(s[i]) {
        0
    } else {
        (1 + alnum_run_len(s, i + 1)) as nat
    }
}

pub proof fn lemma_alnum_run_props(s: Seq<u8>, i: int)
    requires
        0 <= i <= s.len(),
    ensures
        i + alnum_run_len(s, i) <= s.len(),
        forall|t: int| i <= t < i + alnum_run_len(s, i) ==> is_alnum(s[t]),
        i + alnum_run_len(s, i) == s.len() || !is_alnum(s[i + alnum_run_len(s, i)]),
    decreases s.len() - i,
{
    if i < s.len() && is_alnum(s[i]) {
        lemma_alnum_run_props(s, i + 1);
    }
}

proof fn lemma_alnum_run_len_exact(s: Seq<u8>, i: int, j: int)
    requires
        0 <= i <= j <= s.len(),
        forall|t: int| i <= t < j ==> is_alnum(s[t]),
        j == s.len() || !is_alnum(s[j]),
    ensures
        alnum_run_len(s, i) == j - i,
    decreases j - i,
{
    if i < j {
        lemma_alnum_run_len_exact(s, i + 1, j);
    }
}

/// Advance past the letters and digits at `i`.
pub fn skip_alnum(s: &[u8], i: usize) -> (r: usize)
    ensures
        r == i + alnum_run_len(s@, i as int),
        i <= r,
        i <= s@.len() ==> r <= s@.len(),
{
    let mut pos = i;
    if i > s.len() {
        return i;
    }
    while pos < s.len() && ((LO_A <= s[pos] && s[pos] <= LO_Z) || (UP_A <= s[pos] && s[pos]
        <= UP_Z) || (D0 <= s[pos] && s[pos] <= D9))
        invariant
            i <= pos <= s@.len(),
            forall|t: int| i <= t < pos ==> is_alnum(s@[t]),
        decreases s@.len() - pos,
    {
        pos = pos + 1;
    }
    proof {
        lemma_alnum_run_len_exact(s@, i as int, pos as int);
    }
    pos
}

/// Upper-case ASCII letters folded to lower case; all else unchanged.
pub open spec fn to_lower(c: u8) -> u8 {
    if UP_A <= c && c <= UP_Z {
        (c + 32) as u8
    } else {
        c
    }
}

/// `tag` occurs at `i` in `s`, compared without regard to ASCII case.
pub open spec fn matches_nocase(s: Seq<u8>, i: int, tag: Seq<u8>) -> bool {
    0 <= i && i + tag.len() <= s.len() && forall|t: int|
        0 <= t < tag.len() ==> to_lower(s[i + t]) == to_lower(#[trigger] tag[t])
}

/// Compare `tag` against the bytes of `s` at `i`, ignoring ASCII case.
pub fn tag_nocase(s: &[u8], i: usize, tag: &[u8]) -> (r: bool)
    ensures
        r == matches_nocase(s@, i as int, tag@),
{
    if i > s.len() || s.len() - i < tag.len() {
        return false;
    }
    let mut t: usize = 0;
    while t < tag.len()
        invariant
            s@.len() <= usize::MAX,
            0 <= t <= tag@.len(),
            i + tag@.len() <= s@.len(),
            forall|u: int| 0 <= u < t ==> to_lower(s@[i + u]) == to_lower(#[trigger] tag@[u]),
        decreases tag@.len() - t,
    {
        let mut a = s[i + t];
        let mut b = tag[t];
        if UP_A <= a && a <= UP_Z {
            a = a + 32;
        }
        if UP_A <= b && b <= UP_Z {
            b = b + 32;
        }
        if a != b {
            return false;
        }
        t = t + 1;
    }
    true
}

/// Copy the bytes of `s` between `a` and `b` into a fresh vector.
pub fn copy_range(s: &[u8], a: usize, b: usize) -> (r: Vec<u8>)
    requires
        a <= b <= s@.len(),
    ensures
        r@ == s@.subrange(a as int, b as int),
{
    let mut out: Vec<u8> = Vec::new();
    let mut t = a;
    while t < b
        invariant
            a <= t <= b <= s@.len(),
            out@ == s@.subrange(a as int, t as int),
        decreases b - t,
    {
        out.push(s[t]);
        proof {
            assert(s@.subrange(a as int, t + 1) =~= s@.subrange(a as int, t as int).push(
                s@[t as int],
            ));
        }
        t = t + 1;
    }
    out
}

/// Length of the run of bytes before the first `stop` byte (or the whole
/// remainder when `stop` never occurs).
pub open spec fn till_run_len(s: Seq<u8>, i: int, stop: u8) -> nat
    decreases s.len() - i,
{
    if i < 0 || i >= s.len() || s[i] == stop {
        0
    } else {
        (1 + till_run_len(s, i + 1, stop)) as nat
    }
}

pub proof fn lemma_till_run_props(s: Seq<u8>, i: int, stop: u8)
    requires
        0 <= i <= s.len(),
    ensures
        i + till_run_len(s, i, stop) <= s.len(),
        forall|t: int| i <= t < i + till_run_len(s, i, stop) ==> s[t] != stop,
        i + till_run_len(s, i, stop) == s.len() || s[i + till_run_len(s, i, stop)] == stop,
    decreases s.len() - i,
{
    if i < s.len() && s[i] != stop {
        lemma_till_run_props(s, i + 1, stop);
    }
}

pub proof fn lemma_till_run_len_exact(s: Seq<u8>, i: int, j: int, stop: u8)
    requires
        0 <= i <= j <= s.len(),
        forall|t: int| i <= t < j ==> s[t] != stop,
        j == s.len() || s[j] == stop,
    ensures
        till_run_len(s, i, stop) == j - i,
    decreases j - i,
{
    if i < j {
        lemma_till_run_len_exact(s, i + 1, j, stop);
    }
}

/// Advance to the first `stop` byte at or after `i`, or to the end.
pub fn skip_till(s: &[u8], i: usize, stop: u8) -> (r: usize)
    ensures
        r == i + till_run_len(s@, i as int, stop),
        i <= r,
        i <= s@.len() ==> r <= s@.len(),
{
    let mut pos = i;
    if i > s.len() {
        return i;
    }
    while pos < s.len() && s[pos] != stop
        invariant
            i <= pos <= s@.len(),
            forall|t: int| i <= t < pos ==> s@[t] != stop,
        decreases s@.len() - pos,
    {
        pos = pos + 1;
    }
    proof {
        lemma_till_run_len_exact(s@, i as int, pos as int, stop);
    }
    pos
}

/// A successful `spec_dec_u64` consumes at least one byte and stays in range.
pub proof fn lemma_spec_dec_u64_bounds(s: Seq<u8>, i: int)
    ensures
        match spec_dec_u64(s, i) {
            Some((v, j)) => i + 1 <= j <= s.len(),
            None => true,
        },
{
    if spec_dec_u64(s, i) is Some {
        assert(dec_run_len(s, i) >= 1);
        assert(0 <= i < s.len());
        lemma_dec_run_props(s, i);
    }
}

/// A successful `spec_size_u64` consumes at least one byte and stays in range.
pub proof fn lemma_spec_size_u64_bounds(s: Seq<u8>, i: int)
    ensures
        match spec_size_u64(s, i) {
            Some((v, j)) => i + 1 <= j <= s.len(),
            None => true,
        },
{
    if spec_size_u64(s, i) is Some {
        if has_hex_prefix(s, i) && hex_run_len(s, i + 2) > 0 {
            lemma_hex_run_props(s, i + 2);
        } else {
            lemma_spec_dec_u64_bounds(s, i);
        }
    }
}

/// Append all of `s` to `out`.
pub fn push_bytes(out: &mut Vec<u8>, s: &[u8])
    ensures
        final(out)@ == old(out)@ + s@,
{
    let mut i: usize = 0;
    while i < s.len()
        invariant
            i <= s@.len(),
            out@ == old(out)@ + s@.take(i as int),
        decreases s@.len() - i,
    {
        out.push(s[i]);
        proof {
            assert(s@.take(i + 1) =~= s@.take(i as int).push(s@[i as int]));
            assert(old(out)@ + s@.take(i + 1) =~= (old(out)@ + s@.take(i as int)).push(
                s@[i as int],
            ));
        }
        i = i + 1;
    }
    proof {
        assert(s@.take(s@.len() as int) =~= s@);
    }
}

/// `pat` occurs in `s` at position `i`.
pub open spec fn subseq_at(s: Seq<u8>, pat: Seq<u8>, i: int) -> bool {
    0 <= i && i + pat.len() <= s.len() && forall|t: int|
        0 <= t < pat.len() ==> s[i + t] == #[trigger] pat[t]
}

/// The first position at or after `i` where `pat` occurs, or -1.
pub open spec fn first_match(s: Seq<u8>, pat: Seq<u8>, i: int) -> int
    decreases s.len() - i,
{
    if i < 0 || i + pat.len() > s.len() {
        -1
    } else if subseq_at(s, pat, i) {
        i
    } else {
        first_match(s, pat, i + 1)
    }
}

pub proof fn lemma_first_match_props(s: Seq<u8>, pat: Seq<u8>, i: int)
    requires
        0 <= i,
    ensures
        first_match(s, pat, i) != -1 ==> i <= first_match(s, pat, i) && subseq_at(
            s,
            pat,
            first_match(s, pat, i),
        ),
        first_match(s, pat, i) == -1 ==> forall|t: int| i <= t ==> !subseq_at(s, pat, t),
    decreases s.len() - i,
{
    if i + pat.len() > s.len() {
        assert forall|t: int| i <= t implies !subseq_at(s, pat, t) by {}
    } else if !subseq_at(s, pat, i) {
        lemma_first_match_props(s, pat, i + 1);
    }
}

/// Compare `pat` against the bytes of `s` at `i`, byte for byte.
pub fn bytes_at(s: &[u8], i: usize, pat: &[u8]) -> (r: bool)
    ensures
        r == subseq_at(s@, pat@, i as int),
{
    proof {
        vstd::slice::axiom_spec_len::<u8>(s);
    }
    if i > s.len() || s.len() - i < pat.len() {
        return false;
    }
    let mut t: usize = 0;
    while t < pat.len()
        invariant
            s@.len() <= usize::MAX,
            0 <= t <= pat@.len(),
            i + pat@.len() <= s@.len(),
            forall|u: int| 0 <= u < t ==> s@[i + u] == pat@[u],
        decreases pat@.len() - t,
    {
        if s[i + t] != pat[t] {
            return false;
        }
        t = t + 1;
    }
    true
}

/// The position of the first occurrence of `pat` in `s`, if there is one.
pub fn find_bytes(s: &[u8], pat: &[u8]) -> (r: Option<usize>)
    ensures
        match r {
            Some(p) => first_match(s@, pat@, 0) == p as int,
            None => first_match(s@, pat@, 0) == -1,
        },
{
    proof {
        vstd::slice::axiom_spec_len::<u8>(s);
    }
    let n = s.len();
    let m = pat.len();
    if m > n {
        return None;
    }
    let mut i: usize = 0;
    while i <= n - m
        invariant
            m <= n,
            n == s@.len(),
            m == pat@.len(),
            i <= n - m + 1,
            first_match(s@, pat@, 0) == first_match(s@, pat@, i as int),
        decreases n - m - i + 1,
    {
        if bytes_at(s, i, pat) {
            return Some(i);
        }
        i = i + 1;
    }
    None
}

} // verus!
