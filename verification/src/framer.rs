//! The delay-based line framer: bytes arrive in arbitrary chunks, lines are
//! emitted at every newline, and the driving loop flushes the open tail when
//! the stream has been idle for the quiescence delay.  A newline is consumed;
//! a carriage return before it is kept, so that downstream code can tell
//! complete lines (ending in the return) from flushed prompts (not).
use vstd::prelude::*;

use crate::ascii::NL;
use crate::parse_utils::till_run_len;

verus! {

/// The lines of `s`: split at every newline, the newline consumed, the last
/// (possibly empty, possibly unterminated) segment always included.
pub open spec fn lines_of(s: Seq<u8>) -> Seq<Seq<u8>>
    decreases s.len(),
{
    let p = till_run_len(s, 0, NL) as int;
    if p >= s.len() {
        seq![s]
    } else {
        seq![s.take(p)] + lines_of(s.skip(p + 1))
    }
}

/// Splitting always yields at least one line, and the last line holds no
/// newline.
pub proof fn lemma_lines_of_shape(s: Seq<u8>)
    ensures
        lines_of(s).len() >= 1,
        forall|t: int| 0 <= t < lines_of(s).last().len() ==> lines_of(s).last()[t] != NL,
    decreases s.len(),
{
    crate::parse_utils::lemma_till_run_props(s, 0, NL);
    let p = till_run_len(s, 0, NL) as int;
    if p < s.len() {
        lemma_lines_of_shape(s.skip(p + 1));
        assert(lines_of(s).last() == lines_of(s.skip(p + 1)).last());
    }
}

/// Framing does not depend on where the stream is cut: the lines of `a + b`
/// are the complete lines of `a`, then the lines of `a`'s open tail joined
/// with `b`.  This is what lets the framer read chunk by chunk and still
/// produce the line sequence of the whole stream.
pub proof fn lemma_lines_of_append(a: Seq<u8>, b: Seq<u8>)
    ensures
        lines_of(a + b) == lines_of(a).drop_last() + lines_of(lines_of(a).last() + b),
    decreases a.len(),
{
    crate::parse_utils::lemma_till_run_props(a, 0, NL);
    lemma_lines_of_shape(a);
    let p = till_run_len(a, 0, NL) as int;
    if p >= a.len() {
        assert(lines_of(a) =~= seq![a]);
        assert(lines_of(a).last() + b =~= a + b);
        assert(lines_of(a).drop_last() + lines_of(lines_of(a).last() + b) =~= lines_of(a + b));
    } else {
        let rest = a.skip(p + 1);
        lemma_lines_of_append(rest, b);
        lemma_lines_of_shape(rest);
        let ab = a + b;
        crate::parse_utils::lemma_till_run_props(ab, 0, NL);
        assert(forall|t: int| 0 <= t < p ==> ab[t] == a[t]);
        assert(ab[p] == NL);
        crate::parse_utils::lemma_till_run_len_exact(ab, 0, p, NL);
        assert(ab.take(p) =~= a.take(p));
        assert(ab.skip(p + 1) =~= rest + b);
        assert(lines_of(ab) == seq![a.take(p)] + lines_of(rest + b));
        assert(lines_of(a) == seq![a.take(p)] + lines_of(rest));
        assert(lines_of(a).last() == lines_of(rest).last());
        assert(lines_of(a).drop_last() =~= seq![a.take(p)] + lines_of(rest).drop_last());
        assert(lines_of(ab) =~= lines_of(a).drop_last() + lines_of(lines_of(a).last() + b));
    }
}


/// All bytes of a chunk list, in arrival order.
pub open spec fn concat_chunks(cs: Seq<Seq<u8>>) -> Seq<u8>
    decreases cs.len(),
{
    if cs.len() == 0 {
        Seq::empty()
    } else {
        concat_chunks(cs.drop_last()) + cs.last()
    }
}

proof fn lemma_concat_chunks_split(cs: Seq<Seq<u8>>, i: int)
    requires
        0 <= i <= cs.len(),
    ensures
        concat_chunks(cs) == concat_chunks(cs.take(i)) + concat_chunks(cs.skip(i)),
    decreases cs.len() - i,
{
    if i == cs.len() {
        assert(cs.take(i) =~= cs);
        assert(cs.skip(i) =~= Seq::<Seq<u8>>::empty());
        assert(concat_chunks(cs) + concat_chunks(cs.skip(i)) =~= concat_chunks(cs));
    } else {
        lemma_concat_chunks_split(cs.drop_last(), i);
        assert(cs.drop_last().take(i) =~= cs.take(i));
        assert(cs.skip(i).drop_last() =~= cs.drop_last().skip(i));
        assert(cs.skip(i).last() == cs.last());
        assert(concat_chunks(cs.skip(i)) == concat_chunks(cs.drop_last().skip(i)) + cs.last());
        assert(concat_chunks(cs.take(i)) + (concat_chunks(cs.drop_last().skip(i)) + cs.last())
            =~= (concat_chunks(cs.take(i)) + concat_chunks(cs.drop_last().skip(i))) + cs.last());
    }
}

/// However a byte stream is partitioned into chunks, framing it chunk by
/// chunk produces the line split of the whole: at every chunk boundary, the
/// lines seen so far are the complete lines of the bytes so far, and
/// feeding the rest from the held-back open tail onward completes the
/// split of the concatenation.
pub proof fn lemma_framing_partition(cs: Seq<Seq<u8>>, i: int)
    requires
        0 <= i <= cs.len(),
    ensures
        lines_of(concat_chunks(cs)) == lines_of(concat_chunks(cs.take(i))).drop_last()
            + lines_of(
            lines_of(concat_chunks(cs.take(i))).last() + concat_chunks(cs.skip(i)),
        ),
{
    lemma_concat_chunks_split(cs, i);
    lemma_lines_of_append(concat_chunks(cs.take(i)), concat_chunks(cs.skip(i)));
}

/// The views of the buffered lines.
pub open spec fn views_of(v: Seq<Vec<u8>>) -> Seq<Seq<u8>> {
    v.map(|i: int, e: Vec<u8>| e@)
}

/// The framer's state between chunks: the open tail of the current line run,
/// together with the ghost history of what has arrived and what was emitted
/// since the last quiescent flush.
pub struct LineFramer {
    tail: Option<Vec<u8>>,
    input: Ghost<Seq<u8>>,
    emitted: Ghost<Seq<Seq<u8>>>,
}

impl LineFramer {
    /// All bytes pushed since the last quiescent flush.
    pub closed spec fn input(&self) -> Seq<u8> {
        self.input@
    }

    /// The lines handed out since the last quiescent flush.
    pub closed spec fn emitted(&self) -> Seq<Seq<u8>> {
        self.emitted@
    }

    /// Whether the framer holds an open line.
    pub closed spec fn is_open(&self) -> bool {
        self.tail is Some
    }

    /// Emitted lines plus the open tail are exactly the line split of the
    /// input; a drained framer has seen and emitted nothing.
    pub closed spec fn wf(&self) -> bool {
        match self.tail {
            None => self.input@ == Seq::<u8>::empty() && self.emitted@ == Seq::<Seq<u8>>::empty(),
            Some(t) => self.emitted@.push(t@) == lines_of(self.input@),
        }
    }

    /// A fresh framer with nothing buffered.
    pub fn new() -> (r: LineFramer)
        ensures
            r.wf(),
            !r.is_open(),
    {
        LineFramer { tail: None, input: Ghost(Seq::empty()), emitted: Ghost(Seq::empty()) }
    }

    /// Feed one chunk: every newline completes a line, which is returned in
    /// arrival order; the bytes after the last newline stay buffered as the
    /// open tail.  The lines returned so far and the open tail are always
    /// exactly the line split of all bytes fed so far, however the stream
    /// was cut into chunks.
    pub fn push_chunk(&mut self, chunk: &[u8]) -> (out: Vec<Vec<u8>>)
        requires
            old(self).wf(),
        ensures
            final(self).wf(),
            final(self).is_open(),
            final(self).input() == old(self).input() + chunk@,
            final(self).emitted() == old(self).emitted() + views_of(out@),
            final(self).emitted() == lines_of(final(self).input()).drop_last(),
    {
        proof {
            vstd::slice::axiom_spec_len::<u8>(chunk);
        }
        let mut cur: Vec<u8> = match self.tail.take() {
            Some(t) => t,
            None => Vec::new(),
        };
        proof {
            if old(self).tail is None {
                assert(lines_of(Seq::<u8>::empty()) =~= seq![Seq::<u8>::empty()]);
            }
        }
        let mut out: Vec<Vec<u8>> = Vec::new();
        let mut i: usize = 0;
        while i < chunk.len()
            invariant
                i <= chunk@.len(),
                old(self).emitted@ + views_of(out@) + seq![cur@] == lines_of(
                    old(self).input@ + chunk@.take(i as int),
                ),
            decreases chunk@.len() - i,
        {
            let ghost pre = old(self).input@ + chunk@.take(i as int);
            let ghost pre_lines = lines_of(pre);
            proof {
                lemma_lines_of_append(pre, seq![chunk@[i as int]]);
                lemma_lines_of_shape(pre);
                assert(pre + seq![chunk@[i as int]] =~= old(self).input@ + chunk@.take(i + 1));
                assert(pre_lines.last() == cur@);
            }
            let c = chunk[i];
            if c == NL {
                proof {
                    let ext = cur@ + seq![NL];
                    assert(ext[ext.len() - 1] == NL);
                    crate::parse_utils::lemma_till_run_len_exact(
                        ext,
                        0,
                        ext.len() - 1,
                        NL,
                    );
                    assert(ext.take(ext.len() - 1) =~= cur@);
                    assert(ext.skip(ext.len() as int) =~= Seq::<u8>::empty());
                    assert(lines_of(Seq::<u8>::empty()) =~= seq![Seq::<u8>::empty()]);
                    assert(lines_of(ext) =~= seq![cur@, Seq::<u8>::empty()]);
                }
                let ghost out_pre = out@;
                out.push(cur);
                cur = Vec::new();
                proof {
                    assert(views_of(out@) =~= views_of(out_pre).push(pre_lines.last()));
                    assert(old(self).emitted@ + views_of(out@) + seq![cur@] =~= pre_lines.drop_last()
                        + seq![pre_lines.last(), Seq::<u8>::empty()]);
                    assert(pre_lines.drop_last() + seq![pre_lines.last(), Seq::<u8>::empty()]
                        =~= lines_of(old(self).input@ + chunk@.take(i + 1)));
                }
            } else {
                proof {
                    let ext = cur@ + seq![c];
                    lemma_lines_of_shape(pre);
                    assert(forall|t: int| 0 <= t < ext.len() ==> ext[t] != NL);
                    crate::parse_utils::lemma_till_run_len_exact(ext, 0, ext.len() as int, NL);
                    assert(lines_of(ext) =~= seq![ext]);
                }
                cur.push(c);
                proof {
                    assert(cur@ =~= pre_lines.last() + seq![c]);
                    assert(old(self).emitted@ + views_of(out@) =~= pre_lines.drop_last());
                    assert(old(self).emitted@ + views_of(out@) + seq![cur@] =~= pre_lines.drop_last()
                        + seq![pre_lines.last() + seq![c]]);
                    assert(pre_lines.drop_last() + seq![pre_lines.last() + seq![c]] =~= lines_of(
                        old(self).input@ + chunk@.take(i + 1),
                    ));
                }
            }
            i = i + 1;
        }
        proof {
            assert(chunk@.take(chunk@.len() as int) =~= chunk@);
        }
        self.tail = Some(cur);
        self.input = Ghost(old(self).input@ + chunk@);
        self.emitted = Ghost(old(self).emitted@ + views_of(out@));
        proof {
            lemma_lines_of_shape(self.input@);
            assert(self.emitted@.push(lines_of(self.input@).last()) == lines_of(self.input@))
                by {
                assert(self.emitted@.push(lines_of(self.input@).last()) =~= lines_of(
                    self.input@,
                ));
            }
        }
        out
    }

    /// The quiescence timer fired: flush the open tail as a line of its own,
    /// even without a terminator, and start afresh.  An empty tail is not a
    /// partial line, so nothing is emitted for it; either way the framer
    /// goes quiescent.
    pub fn timer_fire(&mut self) -> (out: Option<Vec<u8>>)
        requires
            old(self).wf(),
        ensures
            final(self).wf(),
            !final(self).is_open(),
            match out {
                None => (!old(self).is_open() ==> *final(self) == *old(self)) && (old(
                    self,
                ).is_open() ==> lines_of(old(self).input()).last().len() == 0),
                Some(line) => old(self).is_open() && line@.len() > 0 && line@ == lines_of(
                    old(self).input(),
                ).last() && old(self).emitted().push(line@) == lines_of(old(self).input()),
            },
    {
        match self.tail.take() {
            None => None,
            Some(t) => {
                self.input = Ghost(Seq::empty());
                self.emitted = Ghost(Seq::empty());
                if t.len() == 0 {
                    None
                } else {
                    Some(t)
                }
            },
        }
    }

    /// The upstream ended: drain what remains, the open tail included.
    pub fn finish(&mut self) -> (out: Vec<Vec<u8>>)
        requires
            old(self).wf(),
        ensures
            final(self).wf(),
            !final(self).is_open(),
            !old(self).is_open() ==> out@.len() == 0,
            old(self).is_open() ==> old(self).emitted() + views_of(out@) == lines_of(
                old(self).input(),
            ),
    {
        let mut out: Vec<Vec<u8>> = Vec::new();
        match self.tail.take() {
            None => out,
            Some(t) => {
                let ghost tv = t@;
                out.push(t);
                self.input = Ghost(Seq::empty());
                self.emitted = Ghost(Seq::empty());
                proof {
                    assert(views_of(out@) =~= seq![tv]);
                    assert(old(self).emitted@ + seq![tv] =~= old(self).emitted@.push(tv));
                }
                out
            },
        }
    }
}

} // verus!
