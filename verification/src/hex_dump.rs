//! Parser for one line of U-Boot's `md.b` output: a hex address, a colon,
//! optional spaces, then up to sixteen two-digit byte values separated by
//! single spaces.  Anything after the byte list (the ASCII gutter) is ignored,
//! and bytes beyond the sixteenth are discarded rather than refused.
use vstd::prelude::*;

use crate::UbootError;
use crate::ascii::{COLON, SP, TAB};
use crate::parse_utils::{
    hex_char, hex_digit_val, hex_run_len, hex_u64, hex_u8, hex_value, is_hex_digit, is_space,
    lemma_hex_run_len_exact, lemma_space_run_len_exact, lemma_spec_hex_u64_bounds,
    lemma_spec_hex_u8_bounds, space_run_len, spec_hex_u64, spec_hex_u8,
};

verus! {

/// The list of byte values at `i`: two-or-one-digit hex pairs separated by
/// exactly one space, as `md.b` prints them.
pub open spec fn spec_pairs(s: Seq<u8>, i: int) -> Seq<u8>
    decreases s.len() - i,
{
    match spec_hex_u8(s, i) {
        None => seq![],
        Some((b, j)) => {
            if j < s.len() && s[j] == SP && spec_hex_u8(s, j + 1) is Some {
                seq![b] + spec_pairs(s, j + 1)
            } else {
                seq![b]
            }
        },
    }
}

/// One whole `md.b` line: address, colon, optional blanks, byte list, gutter.
/// The result keeps at most the first sixteen bytes.
pub open spec fn spec_hexdump_line(s: Seq<u8>) -> Option<Seq<u8>> {
    match spec_hex_u64(s, 0) {
        None => None,
        Some((_addr, j)) => {
            if j < s.len() && s[j] == COLON {
                let k = j + 1 + space_run_len(s, j + 1);
                let ps = spec_pairs(s, k);
                if ps.len() > 16 {
                    Some(ps.take(16))
                } else {
                    Some(ps)
                }
            } else {
                None
            }
        },
    }
}

/// The byte values transcribed from one console line of a memory dump.
#[derive(Clone, Debug, PartialEq, Eq)]
pub struct HexDump {
    pub data: Vec<u8>,
}

impl HexDump {
    /// Parse one `md.b` console line into its byte values.
    #[verifier::loop_isolation(false)]
    #[verifier::rlimit(60)]
    pub fn parse_line(src: &[u8]) -> (r: Result<HexDump, UbootError>)
        ensures
            match spec_hexdump_line(src@) {
                Some(data) => r matches Ok(h) && h.data@ == data,
                None => r matches Err(e) && e == UbootError::InvalidSequence,
            },
    {
        let addr = match hex_u64(src, 0) {
            None => {
                return Err(UbootError::InvalidSequence);
            },
            Some(a) => a,
        };
        proof {
            lemma_spec_hex_u64_bounds(src@, 0);
        }
        let mut pos = addr.1;
        if !(pos < src.len() && src[pos] == COLON) {
            return Err(UbootError::InvalidSequence);
        }
        pos = pos + 1;
        let ghost sp_start = pos as int;
        while pos < src.len() && (src[pos] == SP || src[pos] == TAB)
            invariant
                sp_start <= pos <= src@.len(),
                forall|t: int| sp_start <= t < pos ==> is_space(src@[t]),
            decreases src@.len() - pos,
        {
            pos = pos + 1;
        }
        proof {
            lemma_space_run_len_exact(src@, sp_start, pos as int);
        }
        let ghost list_start = pos as int;
        let mut data: Vec<u8> = Vec::new();
        loop
            invariant
                list_start <= pos <= src@.len(),
                spec_pairs(src@, list_start) == data@ + spec_pairs(src@, pos as int),
            decreases src@.len() - pos,
        {
            match hex_u8(src, pos) {
                None => {
                    proof {
                        assert(spec_pairs(src@, pos as int) =~= Seq::<u8>::empty());
                        assert(spec_pairs(src@, list_start) =~= data@);
                    }
                    if data.len() > 16 {
                        data.truncate(16);
                    }
                    return Ok(HexDump { data });
                },
                Some((b, j)) => {
                    proof {
                        lemma_spec_hex_u8_bounds(src@, pos as int);
                    }
                    let ghost before = data@;
                    data.push(b);
                    let more = j < src.len() && src[j] == SP && hex_u8(src, j + 1).is_some();
                    if more {
                        proof {
                            assert(spec_pairs(src@, pos as int) == seq![b] + spec_pairs(
                                src@,
                                j + 1,
                            ));
                            assert(before + (seq![b] + spec_pairs(src@, j + 1)) =~= data@
                                + spec_pairs(src@, j + 1));
                        }
                        pos = j + 1;
                    } else {
                        proof {
                            assert(spec_pairs(src@, pos as int) =~= seq![b]);
                            assert(before + seq![b] =~= data@);
                            assert(spec_pairs(src@, list_start) =~= data@);
                        }
                        if data.len() > 16 {
                            data.truncate(16);
                        }
                        return Ok(HexDump { data });
                    }
                },
            }
        }
    }
}

/// The two lower-case hex digits of one byte, as `md.b` prints it.
pub open spec fn hex_pair(b: u8) -> Seq<u8> {
    seq![hex_char((b / 16) as u8), hex_char((b % 16) as u8)]
}

/// Byte values joined as two-digit pairs separated by single spaces.
pub open spec fn hex_join(bs: Seq<u8>) -> Seq<u8>
    decreases bs.len(),
{
    if bs.len() == 0 {
        seq![]
    } else if bs.len() == 1 {
        hex_pair(bs[0])
    } else {
        hex_pair(bs[0]) + seq![SP] + hex_join(bs.drop_first())
    }
}

/// The rendered join is made of hex digits and single separating spaces, and
/// is as long as three bytes per value minus the missing last separator.
proof fn lemma_hex_join_len(bs: Seq<u8>)
    ensures
        bs.len() == 0 ==> hex_join(bs).len() == 0,
        bs.len() >= 1 ==> hex_join(bs).len() == 3 * bs.len() - 1,
    decreases bs.len(),
{
    if bs.len() >= 2 {
        lemma_hex_join_len(bs.drop_first());
    }
}

/// Reading back the pair list of a rendered join returns the rendered bytes.
proof fn lemma_pairs_of_join(s: Seq<u8>, i: int, bs: Seq<u8>)
    requires
        bs.len() >= 1,
        0 <= i,
        i + hex_join(bs).len() <= s.len(),
        s.subrange(i, i + hex_join(bs).len()) == hex_join(bs),
        ({
            let e = i + hex_join(bs).len();
            e == s.len() || s[e] != SP || e + 1 == s.len() || !is_hex_digit(s[e + 1])
        }),
    ensures
        spec_pairs(s, i) == bs,
    decreases bs.len(),
{
    let join = hex_join(bs);
    let e = i + join.len();
    let b = bs[0];
    lemma_hex_join_len(bs);
    assert(hex_digit_val(hex_char((b / 16) as u8)) == b / 16);
    assert(hex_digit_val(hex_char((b % 16) as u8)) == b % 16);
    assert(s[i] == hex_char((b / 16) as u8) && s[i + 1] == hex_char((b % 16) as u8)) by {
        assert(s.subrange(i, e)[0] == s[i]);
        assert(s.subrange(i, e)[1] == s[i + 1]);
        if bs.len() >= 2 {
            assert(join[0] == hex_pair(b)[0] && join[1] == hex_pair(b)[1]);
        }
    }
    assert(is_hex_digit(s[i]) && is_hex_digit(s[i + 1]));
    let two = s.subrange(i, i + 2);
    assert(two.last() == s[i + 1] && two.drop_last() =~= s.subrange(i, i + 1));
    assert(s.subrange(i, i + 1).last() == s[i] && s.subrange(i, i + 1).drop_last()
        =~= Seq::<u8>::empty());
    assert(hex_value(Seq::<u8>::empty()) == 0);
    assert(hex_value(s.subrange(i, i + 1)) == hex_digit_val(s[i]));
    assert(hex_value(two) == hex_digit_val(s[i]) * 16 + hex_digit_val(s[i + 1]));
    assert(hex_digit_val(s[i]) * 16 + hex_digit_val(s[i + 1]) == b) by (nonlinear_arith)
        requires
            hex_digit_val(s[i]) == b / 16,
            hex_digit_val(s[i + 1]) == b % 16,
    ;
    if bs.len() == 1 {
        // Two digits, then the stop condition refuses a continuation.
        lemma_hex_run_len_min(s, i);
        assert(spec_hex_u8(s, i) == Some((b, i + 2)));
        assert(spec_pairs(s, i) =~= seq![b]);
    } else {
        let rest = bs.drop_first();
        let restj = hex_join(rest);
        assert(join =~= hex_pair(b) + seq![SP] + restj);
        assert(s[i + 2] == SP) by {
            assert(s.subrange(i, e)[2] == s[i + 2]);
            assert(join[2] == SP);
        }
        assert(s.subrange(i + 3, e) =~= restj) by {
            assert(forall|t: int|
                0 <= t < restj.len() ==> s.subrange(i, e)[t + 3] == #[trigger] restj[t]);
        }
        lemma_hex_join_len(rest);
        assert(is_hex_digit(s[i + 3])) by {
            lemma_pairs_first_digit(rest);
            assert(restj[0] == s.subrange(i + 3, e)[0]);
        }
        lemma_hex_run_len_min(s, i);
        assert(spec_hex_u8(s, i) == Some((b, i + 2)));
        lemma_pairs_of_join(s, i + 3, rest);
        assert(spec_hex_u8(s, i + 3) is Some);
        assert(spec_pairs(s, i) =~= seq![b] + spec_pairs(s, i + 3));
        assert(seq![b] + rest =~= bs);
    }
}

/// A non-empty join starts with a hex digit.
proof fn lemma_pairs_first_digit(bs: Seq<u8>)
    requires
        bs.len() >= 1,
    ensures
        hex_join(bs).len() >= 1,
        is_hex_digit(hex_join(bs)[0]),
{
    let b = bs[0];
    if bs.len() == 1 {
        assert(hex_join(bs)[0] == hex_char((b / 16) as u8));
    } else {
        assert(hex_join(bs)[0] == hex_char((b / 16) as u8));
    }
}

/// Two adjacent hex digits give a run of length at least two.
proof fn lemma_hex_run_len_min(s: Seq<u8>, i: int)
    requires
        0 <= i,
        i + 2 <= s.len(),
        is_hex_digit(s[i]),
        is_hex_digit(s[i + 1]),
    ensures
        hex_run_len(s, i) >= 2,
{
    assert(hex_run_len(s, i + 1) >= 1);
}

/// Parsing a printed dump line returns exactly the bytes that were printed
/// (the first sixteen of them, when more were given): the hex-dump parser
/// inverts the `md.b` rendering.  The text after the byte list may be
/// anything that does not continue the pair list: it may be empty, start
/// with something other than a space, or not place a hex digit right after
/// a single space; when no bytes at all are printed it must not start with
/// a blank or a hex digit.
pub proof fn lemma_hexdump_roundtrip(addr: Seq<u8>, bytes: Seq<u8>, gutter: Seq<u8>)
    requires
        addr.len() >= 1,
        forall|t: int| 0 <= t < addr.len() ==> is_hex_digit(#[trigger] addr[t]),
        hex_value(addr) < 0x1_0000_0000_0000_0000,
        bytes.len() >= 1 ==> (gutter.len() == 0 || gutter[0] != SP || gutter.len() == 1
            || !is_hex_digit(gutter[1])),
        bytes.len() == 0 ==> (gutter.len() == 0 || (!is_space(gutter[0]) && !is_hex_digit(
            gutter[0],
        ))),
    ensures
        spec_hexdump_line(addr + seq![COLON, SP] + hex_join(bytes) + gutter) == Some(
            if bytes.len() > 16 {
                bytes.take(16)
            } else {
                bytes
            },
        ),
{
    let s = addr + seq![COLON, SP] + hex_join(bytes) + gutter;
    let al = addr.len() as int;
    let join = hex_join(bytes);
    lemma_hex_join_len(bytes);
    assert(forall|t: int| 0 <= t < al ==> s[t] == addr[t]);
    assert(s[al] == COLON && s[al + 1] == SP);
    assert(!is_hex_digit(COLON));
    lemma_hex_run_len_exact(s, 0, al);
    assert(s.subrange(0, al) =~= addr);
    assert(spec_hex_u64(s, 0) == Some((hex_value(addr) as u64, al)));
    if bytes.len() == 0 {
        assert(join.len() == 0);
        if gutter.len() == 0 {
            lemma_space_run_len_exact(s, al + 1, al + 2);
            assert(al + 2 == s.len());
            assert(spec_pairs(s, al + 2) =~= Seq::<u8>::empty());
        } else {
            assert(s[al + 2] == gutter[0]);
            lemma_space_run_len_exact(s, al + 1, al + 2);
            assert(spec_hex_u8(s, al + 2) is None) by {
                assert(hex_run_len(s, al + 2) == 0);
            }
            assert(spec_pairs(s, al + 2) =~= Seq::<u8>::empty());
        }
    } else {
        assert(s[al + 2] == join[0]);
        lemma_pairs_first_digit(bytes);
        assert(is_hex_digit(s[al + 2]));
        lemma_space_run_len_exact(s, al + 1, al + 2);
        assert(s.subrange(al + 2, al + 2 + join.len()) =~= join) by {
            assert(forall|t: int| 0 <= t < join.len() ==> s[al + 2 + t] == #[trigger] join[t]);
        }
        let e = al + 2 + join.len();
        assert(e == s.len() || s[e] == gutter[0]);
        assert(e + 1 < s.len() ==> s[e + 1] == gutter[1]);
        lemma_pairs_of_join(s, al + 2, bytes);
    }
}

} // verus!
