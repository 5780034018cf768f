//! The variable store: an insertion-ordered name-to-text mapping filled line
//! by line from `printenv` or `bdinfo` output, with typed getters, the RAM
//! region view, and the `mtdparts=` partition table parser.
use vstd::prelude::*;

use fxhash::FxBuildHasher;
use indexmap::IndexMap;

use crate::UbootError;
use crate::ascii::{COLON, COMMA, CR, EQ, LPAR, NL, RPAR, SP, TAB};
use crate::parse_utils::{
    copy_range, format_size, lemma_spec_size_u64_bounds, push_bytes, size_u64, skip_spaces,
    skip_till, space_run_len, spec_format_size, spec_size_u64, till_run_len,
};
use crate::varmap::{
    lookup, unique_keys, upsert, var_entries, var_map_entries, var_map_get, var_map_insert,
    var_map_len, var_map_new,
};

verus! {

/// The whitespace `trim_end` strips: blanks and line ends.
pub open spec fn is_trim_ws(c: u8) -> bool {
    c == SP || c == TAB || c == CR || c == NL
}

/// How much of `s` remains when trailing whitespace is stripped.
pub open spec fn trimmed_len(s: Seq<u8>) -> nat
    decreases s.len(),
{
    if s.len() == 0 {
        0
    } else if is_trim_ws(s.last()) {
        trimmed_len(s.drop_last())
    } else {
        s.len()
    }
}

/// `s` without its trailing whitespace.
pub open spec fn trim_end_ws(s: Seq<u8>) -> Seq<u8> {
    s.take(trimmed_len(s) as int)
}

proof fn lemma_trimmed_len_exact(s: Seq<u8>, n: int)
    requires
        0 <= n <= s.len(),
        forall|t: int| n <= t < s.len() ==> is_trim_ws(s[t]),
        n == 0 || !is_trim_ws(s[n - 1]),
    ensures
        trimmed_len(s) == n,
    decreases s.len(),
{
    if s.len() > 0 {
        if is_trim_ws(s.last()) {
            lemma_trimmed_len_exact(s.drop_last(), n);
        }
    }
}

/// Copy `s` between `a` and `b` with trailing whitespace stripped.
fn trim_end_copy(s: &[u8], a: usize, b: usize) -> (r: Vec<u8>)
    requires
        a <= b <= s@.len(),
    ensures
        r@ == trim_end_ws(s@.subrange(a as int, b as int)),
{
    let mut e = b;
    while e > a && (s[e - 1] == SP || s[e - 1] == TAB || s[e - 1] == CR || s[e - 1] == NL)
        invariant
            a <= e <= b <= s@.len(),
            forall|t: int| e <= t < b ==> is_trim_ws(s@[t]),
        decreases e,
    {
        e = e - 1;
    }
    proof {
        let sub = s@.subrange(a as int, b as int);
        assert(forall|t: int| e - a <= t < sub.len() ==> is_trim_ws(sub[t]));
        lemma_trimmed_len_exact(sub, e - a);
        assert(s@.subrange(a as int, e as int) =~= sub.take(e - a));
    }
    copy_range(s, a, e)
}

/// One `key = value` console entry: optional blanks, the key up to the
/// separator, the separator, optional blanks, the value up to the entry
/// terminator; key and value are right-trimmed.
pub open spec fn spec_kv(s: Seq<u8>, kv_sep: u8, ent_sep: u8) -> Option<(Seq<u8>, Seq<u8>)> {
    let a = space_run_len(s, 0) as int;
    let kpos = a + till_run_len(s, a, kv_sep);
    if kpos >= s.len() {
        None
    } else {
        let b = kpos + 1 + space_run_len(s, kpos + 1);
        let vend = b + till_run_len(s, b, ent_sep);
        Some((trim_end_ws(s.subrange(a, kpos)), trim_end_ws(s.subrange(b, vend))))
    }
}

/// A memory region: where it starts and how many bytes it spans.
#[derive(Clone, Copy, Debug, PartialEq, Eq, Structural)]
pub struct MemRegion {
    pub base: u64,
    pub size: u64,
}

impl MemRegion {
    /// The region's end stays inside the 64-bit address space.
    pub open spec fn wf(self) -> bool {
        self.base + self.size <= u64::MAX
    }
}

impl Default for MemRegion {
    fn default() -> (r: Self)
        ensures
            r.base == 0 && r.size == 0,
    {
        MemRegion { base: 0, size: 0 }
    }
}

/// The bytes of `-> start`, the RAM base key in `bdinfo` output.
pub const KEY_RAM_START: [u8; 8] = [45, 62, 32, 115, 116, 97, 114, 116];

/// The bytes of `-> size`, the RAM size key in `bdinfo` output.
pub const KEY_RAM_SIZE: [u8; 7] = [45, 62, 32, 115, 105, 122, 101];

/// What a typed lookup returns: the variable's text parsed as a size
/// literal, or the reason it cannot be.
pub open spec fn spec_get_u64(es: Seq<(Seq<u8>, Seq<u8>)>, k: Seq<u8>) -> Result<u64, UbootError> {
    match lookup(es, k) {
        None => Err(UbootError::VariableNotFound),
        Some(v) => match spec_size_u64(v, 0) {
            Some((n, _end)) => Ok(n),
            None => Err(UbootError::InvalidSequence),
        },
    }
}

/// An insertion-ordered store of console variables.
pub struct Variables {
    storage: IndexMap<Vec<u8>, Vec<u8>, FxBuildHasher>,
}

impl View for Variables {
    type V = Seq<(Seq<u8>, Seq<u8>)>;

    closed spec fn view(&self) -> Seq<(Seq<u8>, Seq<u8>)> {
        var_entries(self.storage)
    }
}

impl Default for Variables {
    fn default() -> (r: Self)
        ensures
            r@ == Seq::<(Seq<u8>, Seq<u8>)>::empty(),
            r.wf(),
    {
        Variables { storage: var_map_new() }
    }
}

impl Variables {
    /// Every name is stored at most once.
    pub open spec fn wf(&self) -> bool {
        unique_keys(self@)
    }

    /// How many variables are stored.
    pub fn len(&self) -> (r: usize)
        ensures
            r == self@.len(),
    {
        var_map_len(&self.storage)
    }

    /// The stored pairs, in insertion order.
    pub fn entries(&self) -> (r: Vec<(Vec<u8>, Vec<u8>)>)
        ensures
            r@.len() == self@.len(),
            forall|i: int| 0 <= i < r@.len() ==> ((#[trigger] r@[i]).0@, r@[i].1@) == self@[i],
    {
        var_map_entries(&self.storage)
    }

    /// The raw text of a variable, if it was seen.
    pub fn get<'a>(&'a self, key: &[u8]) -> (r: Option<&'a Vec<u8>>)
        requires
            self.wf(),
        ensures
            match r {
                Some(v) => lookup(self@, key@) == Some(v@),
                None => lookup(self@, key@) is None,
            },
    {
        let r = var_map_get(&self.storage, key);
        proof {
            crate::varmap::lemma_find_key_props(self@, key@);
            crate::varmap::lemma_find_key_unique(self@, key@);
        }
        r
    }

    /// The variable's text parsed as a size literal.
    pub fn get_u64(&self, key: &[u8]) -> (r: Result<u64, UbootError>)
        requires
            self.wf(),
        ensures
            r == spec_get_u64(self@, key@),
    {
        match self.get(key) {
            None => Err(UbootError::VariableNotFound),
            Some(v) => match size_u64(v.as_slice(), 0) {
                None => Err(UbootError::InvalidSequence),
                Some((n, _end)) => Ok(n),
            },
        }
    }

    /// As `get_u64`, refusing values beyond 32 bits.
    pub fn get_u32(&self, key: &[u8]) -> (r: Result<u32, UbootError>)
        requires
            self.wf(),
        ensures
            match spec_get_u64(self@, key@) {
                Ok(n) => if n <= u32::MAX {
                    r == Ok::<u32, UbootError>(n as u32)
                } else {
                    r matches Err(e) && e == UbootError::ValueOutOfRange
                },
                Err(e) => r matches Err(e2) && e2 == e,
            },
    {
        match self.get_u64(key) {
            Err(e) => Err(e),
            Ok(n) => {
                if n > u32::MAX as u64 {
                    Err(UbootError::ValueOutOfRange)
                } else {
                    Ok(n as u32)
                }
            },
        }
    }

    /// The RAM region from the `-> start` and `-> size` entries of `bdinfo`
    /// output; a region that would wrap the address space is refused.
    pub fn get_ram_info(&self) -> (r: Result<MemRegion, UbootError>)
        requires
            self.wf(),
        ensures
            match spec_get_u64(self@, KEY_RAM_START@) {
                Err(e) => r matches Err(e2) && e2 == e,
                Ok(base) => match spec_get_u64(self@, KEY_RAM_SIZE@) {
                    Err(e) => r matches Err(e2) && e2 == e,
                    Ok(size) => if base + size <= u64::MAX {
                        r matches Ok(m) && m.base == base && m.size == size && m.wf()
                    } else {
                        r matches Err(e) && e == UbootError::ValueOutOfRange
                    },
                },
            },
    {
        let base = match self.get_u64(&KEY_RAM_START) {
            Err(e) => {
                return Err(e);
            },
            Ok(b) => b,
        };
        let size = match self.get_u64(&KEY_RAM_SIZE) {
            Err(e) => {
                return Err(e);
            },
            Ok(sz) => sz,
        };
        if size > u64::MAX - base {
            return Err(UbootError::ValueOutOfRange);
        }
        Ok(MemRegion { base, size })
    }

    /// Merge one `key = value` line, entries ending at a blank (the command
    /// line argument form).
    pub fn extend_parse_arg(&mut self, src: &[u8]) -> (r: Result<(), UbootError>)
        requires
            old(self).wf(),
        ensures
            final(self).wf(),
            match spec_kv(src@, EQ, SP) {
                Some((k, v)) => r is Ok && final(self)@ == upsert(old(self)@, k, v),
                None => r matches Err(e) && e == UbootError::InvalidSequence && final(self)@
                    == old(self)@,
            },
    {
        self._extend_parse(src, EQ, SP)
    }

    /// Merge one `key = value` line, entries ending at a carriage return
    /// (the environment form).
    pub fn extend_parse_env(&mut self, src: &[u8]) -> (r: Result<(), UbootError>)
        requires
            old(self).wf(),
        ensures
            final(self).wf(),
            match spec_kv(src@, EQ, CR) {
                Some((k, v)) => r is Ok && final(self)@ == upsert(old(self)@, k, v),
                None => r matches Err(e) && e == UbootError::InvalidSequence && final(self)@
                    == old(self)@,
            },
    {
        self._extend_parse(src, EQ, CR)
    }

    /// Merge one entry with caller-chosen separator and terminator bytes.
    pub fn _extend_parse(&mut self, src: &[u8], kv_sep: u8, ent_sep: u8) -> (r: Result<
        (),
        UbootError,
    >)
        requires
            old(self).wf(),
        ensures
            final(self).wf(),
            match spec_kv(src@, kv_sep, ent_sep) {
                Some((k, v)) => r is Ok && final(self)@ == upsert(old(self)@, k, v),
                None => r matches Err(e) && e == UbootError::InvalidSequence && final(self)@
                    == old(self)@,
            },
    {
        proof {
            vstd::slice::axiom_spec_len::<u8>(src);
        }
        let a = skip_spaces(src, 0);
        let kpos = skip_till(src, a, kv_sep);
        if kpos >= src.len() {
            return Err(UbootError::InvalidSequence);
        }
        let key = trim_end_copy(src, a, kpos);
        let b = skip_spaces(src, kpos + 1);
        let vend = skip_till(src, b, ent_sep);
        let value = trim_end_copy(src, b, vend);
        proof {
            crate::varmap::lemma_upsert_unique(self@, key@, value@);
        }
        var_map_insert(&mut self.storage, key, value);
        Ok(())
    }

    /// Parse a `mtdparts=` value: a prefix up to the colon, then
    /// `<size>(<name>)` entries separated by commas.  Partition bases are the
    /// running sums of the previous sizes; a table whose sizes together leave
    /// the 64-bit range is refused.
    pub fn parse_mtd_parts(src: &[u8]) -> (r: Result<MtdTable, UbootError>)
        ensures
            match spec_mtd_parts(src@) {
                None => r matches Err(e) && e == UbootError::InvalidSequence,
                Some(parts) => {
                    if sizes_sum(parts, parts.len() as int) <= u64::MAX {
                        r matches Ok(t) && t@.len() == parts.len() && mtd_wf(t@) && (forall|i: int|
                            0 <= i < parts.len() ==> (#[trigger] t@[i]).0 == parts[i].0 && t@[
                                i
                            ].1.size == parts[i].1 && t@[i].1.base == sizes_sum(parts, i))
                    } else {
                        r matches Err(e) && e == UbootError::SizeOverflow
                    }
                },
            },
    {
        proof {
            vstd::slice::axiom_spec_len::<u8>(src);
        }
        let c = skip_till(src, 0, COLON);
        if c >= src.len() {
            return Err(UbootError::InvalidSequence);
        }
        let ghost parts = spec_mtd_list(src@, c + 1);
        let mut pos = c + 1;
        let mut entries: Vec<(Vec<u8>, MemRegion)> = Vec::new();
        let mut offset: u64 = 0;
        loop
            invariant_except_break
                parts =~= entries@.map(|i: int, e: (Vec<u8>, MemRegion)| (e.0@, e.1.size))
                    + spec_mtd_list(src@, pos as int),
            invariant
                src@.len() <= usize::MAX,
                0 <= pos <= src@.len(),
                spec_mtd_parts(src@) == Some(parts),
                entries@.len() <= parts.len(),
                offset == sizes_sum(parts, entries@.len() as int),
                forall|i: int|
                    0 <= i < entries@.len() ==> (#[trigger] entries@[i]).1.base == sizes_sum(
                        parts,
                        i,
                    ) && entries@[i].1.wf(),
            ensures
                parts =~= entries@.map(|i: int, e: (Vec<u8>, MemRegion)| (e.0@, e.1.size)),
            decreases src@.len() - pos,
        {
            let ghost done = entries@.len() as int;
            match size_u64(src, pos) {
                None => {
                    proof {
                        assert(spec_mtd_list(src@, pos as int) =~= Seq::<(Seq<u8>, u64)>::empty());
                    }
                    break;
                },
                Some((sz, p)) => {
                    proof {
                        lemma_spec_size_u64_bounds(src@, pos as int);
                    }
                    if !(p < src.len() && src[p] == LPAR) {
                        proof {
                            assert(spec_mtd_list(src@, pos as int) =~= Seq::<
                                (Seq<u8>, u64),
                            >::empty());
                        }
                        break;
                    }
                    let ne = skip_till(src, p + 1, RPAR);
                    if ne >= src.len() {
                        proof {
                            assert(spec_mtd_list(src@, pos as int) =~= Seq::<
                                (Seq<u8>, u64),
                            >::empty());
                        }
                        break;
                    }
                    let name = copy_range(src, p + 1, ne);
                    let j = ne + 1;
                    proof {
                        assert(spec_mtd_part(src@, pos as int) == Some(
                            ((name@, sz), j as int),
                        ));
                        assert(parts[done] == (name@, sz)) by {
                            assert(spec_mtd_list(src@, pos as int)[0] == (name@, sz));
                        }
                        lemma_sizes_sum_mono(parts, done + 1, parts.len() as int);
                    }
                    if sz > u64::MAX - offset {
                        proof {
                            assert(sizes_sum(parts, done + 1) == offset + sz);
                        }
                        return Err(UbootError::SizeOverflow);
                    }
                    let region = MemRegion { base: offset, size: sz };
                    let ghost before = entries@;
                    entries.push((name, region));
                    offset = offset + sz;
                    let more = j < src.len() && src[j] == COMMA && mtd_part_follows(src, j + 1);
                    proof {
                        let emap = |i: int, e: (Vec<u8>, MemRegion)| (e.0@, e.1.size);
                        assert(entries@.map(emap) =~= before.map(emap).push((name@, sz)));
                        if more {
                            assert(spec_mtd_list(src@, pos as int) =~= seq![(name@, sz)]
                                + spec_mtd_list(src@, j + 1));
                            assert(before.map(emap) + (seq![(name@, sz)] + spec_mtd_list(
                                src@,
                                j + 1,
                            )) =~= entries@.map(emap) + spec_mtd_list(src@, j + 1));
                        } else {
                            assert(spec_mtd_list(src@, pos as int) =~= seq![(name@, sz)]);
                            assert(before.map(emap) + seq![(name@, sz)] =~= entries@.map(emap));
                        }
                    }
                    if more {
                        pos = j + 1;
                    } else {
                        break;
                    }
                },
            }
        }
        proof {
            assert(parts =~= entries@.map(|i: int, e: (Vec<u8>, MemRegion)| (e.0@, e.1.size)));
            assert(entries@.len() == parts.len());
        }
        let t = MtdTable { entries };
        proof {
            assert forall|i: int| 0 <= i < t@.len() implies (#[trigger] t@[i]).1.base == table_sum(
                t@,
                i,
            ) && t@[i].1.wf() by {
                lemma_table_matches_sizes(t@, parts, i);
            }
        }
        Ok(t)
    }
}

/// A partition entry in the raw `mtdparts=` list: its name and its size.
pub open spec fn spec_mtd_part(s: Seq<u8>, i: int) -> Option<((Seq<u8>, u64), int)> {
    match spec_size_u64(s, i) {
        None => None,
        Some((sz, p)) => {
            if p < s.len() && s[p] == LPAR {
                let nl = till_run_len(s, p + 1, RPAR) as int;
                if p + 1 + nl < s.len() {
                    Some(((s.subrange(p + 1, p + 1 + nl), sz), p + 1 + nl + 1))
                } else {
                    None
                }
            } else {
                None
            }
        },
    }
}

/// The comma-separated partition list at `i`.
pub open spec fn spec_mtd_list(s: Seq<u8>, i: int) -> Seq<(Seq<u8>, u64)>
    decreases s.len() - i,
{
    match spec_mtd_part(s, i) {
        None => seq![],
        Some((e, j)) => {
            if j < s.len() && s[j] == COMMA && spec_mtd_part(s, j + 1) is Some {
                seq![e] + spec_mtd_list(s, j + 1)
            } else {
                seq![e]
            }
        },
    }
}

/// The whole `mtdparts` value: any prefix up to a colon, then the list.
pub open spec fn spec_mtd_parts(s: Seq<u8>) -> Option<Seq<(Seq<u8>, u64)>> {
    let c = till_run_len(s, 0, COLON) as int;
    if c < s.len() {
        Some(spec_mtd_list(s, c + 1))
    } else {
        None
    }
}

/// The sum of the first `n` partition sizes.
pub open spec fn sizes_sum(parts: Seq<(Seq<u8>, u64)>, n: int) -> int
    decreases n,
{
    if n <= 0 {
        0
    } else {
        sizes_sum(parts, n - 1) + parts[n - 1].1
    }
}

/// The sum of the first `n` region sizes of a built table.
pub open spec fn table_sum(t: Seq<(Seq<u8>, MemRegion)>, n: int) -> int
    decreases n,
{
    if n <= 0 {
        0
    } else {
        table_sum(t, n - 1) + t[n - 1].1.size
    }
}

/// The table's regions are contiguous from address zero: each base is the
/// sum of all earlier sizes, and no region wraps the address space.
pub open spec fn mtd_wf(t: Seq<(Seq<u8>, MemRegion)>) -> bool {
    forall|i: int|
        0 <= i < t.len() ==> (#[trigger] t[i]).1.base == table_sum(t, i) && t[i].1.wf()
}

proof fn lemma_sizes_sum_mono(parts: Seq<(Seq<u8>, u64)>, a: int, b: int)
    requires
        0 <= a <= b,
    ensures
        sizes_sum(parts, a) <= sizes_sum(parts, b),
    decreases b - a,
{
    if a < b {
        lemma_sizes_sum_mono(parts, a, b - 1);
    }
}

proof fn lemma_spec_mtd_part_bounds(s: Seq<u8>, i: int)
    ensures
        match spec_mtd_part(s, i) {
            Some((e, j)) => i + 1 <= j <= s.len(),
            None => true,
        },
{
    lemma_spec_size_u64_bounds(s, i);
}

/// An ordered table of flash partitions, contiguous from address zero.
#[derive(Clone, Debug, PartialEq, Eq)]
pub struct MtdTable {
    pub entries: Vec<(Vec<u8>, MemRegion)>,
}

impl View for MtdTable {
    type V = Seq<(Seq<u8>, MemRegion)>;

    open spec fn view(&self) -> Seq<(Seq<u8>, MemRegion)> {
        self.entries@.map(|i: int, e: (Vec<u8>, MemRegion)| (e.0@, e.1))
    }
}

impl MtdTable {
    /// How many partitions the table holds.
    pub fn len(&self) -> (r: usize)
        ensures
            r == self@.len(),
    {
        self.entries.len()
    }
}

/// A further `<size>(<name>)` entry begins at `i`.
fn mtd_part_follows(s: &[u8], i: usize) -> (r: bool)
    ensures
        r == (spec_mtd_part(s@, i as int) is Some),
{
    proof {
        vstd::slice::axiom_spec_len::<u8>(s);
    }
    match size_u64(s, i) {
        None => false,
        Some((_sz, p)) => {
            proof {
                lemma_spec_size_u64_bounds(s@, i as int);
            }
            if p < s.len() && s[p] == LPAR {
                let ne = skip_till(s, p + 1, RPAR);
                ne < s.len()
            } else {
                false
            }
        },
    }
}

proof fn lemma_table_matches_sizes(t: Seq<(Seq<u8>, MemRegion)>, parts: Seq<(Seq<u8>, u64)>, i: int)
    requires
        parts =~= t.map(|i: int, e: (Seq<u8>, MemRegion)| (e.0, e.1.size)),
        0 <= i <= t.len(),
    ensures
        table_sum(t, i) == sizes_sum(parts, i),
    decreases i,
{
    if i > 0 {
        lemma_table_matches_sizes(t, parts, i - 1);
    }
}

/// One `env.txt` line: the name, `=`, the value, a newline.
pub open spec fn spec_env_line(e: (Seq<u8>, Seq<u8>)) -> Seq<u8> {
    e.0 + seq![EQ] + e.1 + seq![NL]
}

/// The whole `env.txt` body: one line per stored pair, in store order.
pub open spec fn spec_env_text(es: Seq<(Seq<u8>, Seq<u8>)>) -> Seq<u8>
    decreases es.len(),
{
    if es.len() == 0 {
        seq![]
    } else {
        spec_env_text(es.drop_last()) + spec_env_line(es.last())
    }
}

/// The bytes of the `mtd.txt` header line `# name size`.
pub const MTD_HEADER: [u8; 12] = [35, 32, 110, 97, 109, 101, 32, 115, 105, 122, 101, 10];

/// One `mtd.txt` line: the name, a blank, the size as hex, a newline.
pub open spec fn spec_mtd_line(e: (Seq<u8>, MemRegion)) -> Seq<u8> {
    e.0 + seq![SP] + spec_format_size(e.1.size) + seq![NL]
}

/// The whole `mtd.txt` body: the header, then one line per partition.
pub open spec fn spec_mtd_text(t: Seq<(Seq<u8>, MemRegion)>) -> Seq<u8>
    decreases t.len(),
{
    if t.len() == 0 {
        MTD_HEADER@
    } else {
        spec_mtd_text(t.drop_last()) + spec_mtd_line(t.last())
    }
}

impl Variables {
    /// Render the store as the `env.txt` file body.
    pub fn env_text(&self) -> (r: Vec<u8>)
        ensures
            r@ == spec_env_text(self@),
    {
        let list = self.entries();
        let mut out: Vec<u8> = Vec::new();
        let mut i: usize = 0;
        while i < list.len()
            invariant
                i <= list@.len(),
                list@.len() == self@.len(),
                forall|t: int|
                    0 <= t < list@.len() ==> ((#[trigger] list@[t]).0@, list@[t].1@) == self@[t],
                out@ == spec_env_text(self@.take(i as int)),
            decreases list@.len() - i,
        {
            push_bytes(&mut out, list[i].0.as_slice());
            out.push(EQ);
            push_bytes(&mut out, list[i].1.as_slice());
            out.push(NL);
            proof {
                assert(self@.take(i + 1).drop_last() =~= self@.take(i as int));
                assert(self@.take(i + 1).last() == self@[i as int]);
                assert(out@ =~= spec_env_text(self@.take(i as int)) + spec_env_line(
                    self@[i as int],
                ));
            }
            i = i + 1;
        }
        proof {
            assert(self@.take(self@.len() as int) =~= self@);
        }
        out
    }
}

impl MtdTable {
    /// Render the table as the `mtd.txt` file body.
    pub fn mtd_text(&self) -> (r: Vec<u8>)
        ensures
            r@ == spec_mtd_text(self@),
    {
        let mut out: Vec<u8> = Vec::new();
        push_bytes(&mut out, &MTD_HEADER);
        let mut i: usize = 0;
        while i < self.entries.len()
            invariant
                i <= self@.len(),
                self@.len() == self.entries@.len(),
                out@ == spec_mtd_text(self@.take(i as int)),
            decreases self@.len() - i,
        {
            push_bytes(&mut out, self.entries[i].0.as_slice());
            out.push(SP);
            let sz = format_size(self.entries[i].1.size);
            push_bytes(&mut out, sz.as_slice());
            out.push(NL);
            proof {
                assert(self@.take(i + 1).drop_last() =~= self@.take(i as int));
                assert(self@.take(i + 1).last() == self@[i as int]);
                assert(self@[i as int] == (self.entries@[i as int].0@, self.entries@[i as int].1));
                assert(out@ =~= spec_mtd_text(self@.take(i as int)) + spec_mtd_line(
                    self@[i as int],
                ));
            }
            i = i + 1;
        }
        proof {
            assert(self@.take(self@.len() as int) =~= self@);
        }
        out
    }
}

} // verus!
